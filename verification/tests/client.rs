use asfml::client::{check_email_found, endpoint_name, stats_params, take_limit, PonyMailClient};
use asfml::{Email, EmailSummary, Error, ListAddress, Login, LoginCredentials, Preferences, Session};

fn summary(id: &str) -> EmailSummary {
    EmailSummary {
        id: id.to_string(),
        mid: None,
        subject: String::new(),
        from: String::new(),
        epoch: None,
        list_name: None,
    }
}

#[test]
fn endpoint_names() {
    assert_eq!(endpoint_name("api/preferences.lua"), "preferences.lua");
    assert_eq!(endpoint_name("api/stats.lua"), "stats.lua");
    assert_eq!(endpoint_name("api/email.lua"), "email.lua");
    assert_eq!(endpoint_name("api/thread.lua"), "thread.lua");
    assert_eq!(endpoint_name("api/other.lua"), "unknown endpoint");
}

#[test]
fn stats_parameters() {
    let list = ListAddress::parse("dev@opendal.apache.org").unwrap();
    let params = stats_params(&list, "30d", None);
    let expected: Vec<(String, String)> = vec![
        ("list".into(), "dev".into()),
        ("domain".into(), "opendal.apache.org".into()),
        ("d".into(), "lte=30d".into()),
        ("emailsOnly".into(), "true".into()),
    ];
    assert_eq!(params, expected);
    let params = stats_params(&list, "1y", Some("release"));
    assert_eq!(params.len(), 5);
    assert_eq!(params[4], ("q".to_string(), "release".to_string()));
}

#[test]
fn client_base_is_the_archive() {
    let client = PonyMailClient::new(None).unwrap();
    assert_eq!(client.base, "https://lists.apache.org/");
}

#[test]
fn stats_request_url_is_encoded() {
    let client = PonyMailClient::new(None).unwrap();
    let list = ListAddress::parse("dev@opendal.apache.org").unwrap();
    let req = client.stats_request(&list, "30d", Some("a b&c")).unwrap();
    assert_eq!(
        req.url,
        "https://lists.apache.org/api/stats.lua?list=dev&domain=opendal.apache.org&d=lte%3D30d&emailsOnly=true&q=a+b%26c"
    );
    assert_eq!(req.endpoint, "stats.lua");
    assert!(req.cookie.is_none());
}

#[test]
fn session_goes_in_the_cookie_header_only() {
    let session = Session { ponymail: "secret-1".to_string() };
    let client = PonyMailClient::new(Some(session)).unwrap();
    let req = client.email_request("qd7m1k6h9hmjt5hdqb28y3vzh561x3bj").unwrap();
    assert_eq!(req.url, "https://lists.apache.org/api/email.lua?id=qd7m1k6h9hmjt5hdqb28y3vzh561x3bj");
    assert_eq!(req.cookie.as_deref(), Some("ponymail=secret-1"));
    assert!(!req.url.contains("secret-1"));
    let req = client.thread_request("m").unwrap();
    assert_eq!(req.url, "https://lists.apache.org/api/thread.lua?id=m");
    assert_eq!(req.endpoint, "thread.lua");
    let req = client.preferences_request().unwrap();
    assert_eq!(req.url, "https://lists.apache.org/api/preferences.lua?");
    assert_eq!(req.endpoint, "preferences.lua");
}

#[test]
fn results_are_limited() {
    let emails = vec![summary("a"), summary("b"), summary("c")];
    let limited = take_limit(emails.clone(), 2);
    assert_eq!(limited.len(), 2);
    assert_eq!(limited[1].id, "b");
    assert_eq!(take_limit(emails, 10).len(), 3);
}

#[test]
fn empty_email_answer_means_not_found() {
    let mut email = Email {
        id: String::new(),
        mid: None,
        subject: String::new(),
        from: String::new(),
        date: None,
        epoch: None,
        list_name: None,
        body: String::new(),
        message_id: None,
        in_reply_to: None,
        references: None,
    };
    match check_email_found(email.clone(), "m1") {
        Err(Error::EmailNotFound(m)) => assert_eq!(m, "m1"),
        other => panic!("unexpected: {other:?}"),
    }
    email.id = "x".to_string();
    assert_eq!(check_email_found(email, "m1").unwrap().id, "x");
}

fn opendal_prefs(logged_in: bool) -> Preferences {
    let credentials = if logged_in {
        Some(LoginCredentials { uid: "xuanwo".to_string(), fullname: None, name: None, email: None })
    } else {
        None
    };
    Preferences::new(
        Login { credentials },
        vec![("opendal.apache.org".to_string(), vec!["dev".to_string()])],
    )
}

#[test]
fn stats_request_only_for_a_visible_list() {
    let client = PonyMailClient::new(None).unwrap();
    let dev = ListAddress::parse("dev@opendal.apache.org").unwrap();
    let req = client.checked_stats_request(&opendal_prefs(false), &dev, "30d", None).unwrap();
    assert_eq!(
        req.url,
        "https://lists.apache.org/api/stats.lua?list=dev&domain=opendal.apache.org&d=lte%3D30d&emailsOnly=true"
    );
    let private = ListAddress::parse("private@opendal.apache.org").unwrap();
    assert!(matches!(
        client.checked_stats_request(&opendal_prefs(false), &private, "30d", None),
        Err(Error::NoSession)
    ));
    match client.checked_stats_request(&opendal_prefs(true), &private, "30d", Some("x")) {
        Err(Error::NoListAccess(l)) => assert_eq!(l, "private@opendal.apache.org"),
        other => panic!("unexpected: {other:?}"),
    }
}
