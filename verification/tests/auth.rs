use asfml::auth::{
    accept_session, check_list_access, default_session_store, parse_optional_list, resolve_store, store_from_env,
    temp_session_file_name, validate_session,
};
use asfml::{Error, ListAddress, Login, LoginCredentials, Preferences, Session, SessionStore};

fn prefs(credentials: Option<LoginCredentials>) -> Preferences {
    Preferences {
        login: Login { credentials },
        lists: vec![
            ("opendal.apache.org".to_string(), vec!["dev".to_string(), "private".to_string()]),
            ("apache.org".to_string(), vec!["announce".to_string()]),
        ],
    }
}

fn creds(fullname: Option<&str>, name: Option<&str>, email: Option<&str>) -> LoginCredentials {
    LoginCredentials {
        uid: "xuanwo".to_string(),
        fullname: fullname.map(ToString::to_string),
        name: name.map(ToString::to_string),
        email: email.map(ToString::to_string),
    }
}

#[test]
fn valid_session_names_the_user() {
    let p = prefs(Some(creds(Some("Xuanwo"), Some("x"), Some("xuanwo@apache.org"))));
    assert_eq!(validate_session(&p, None).unwrap(), "Xuanwo <xuanwo@apache.org>");
    let p = prefs(Some(creds(None, Some("x"), Some(""))));
    assert_eq!(validate_session(&p, None).unwrap(), "x");
    let p = prefs(Some(creds(None, None, None)));
    assert_eq!(validate_session(&p, None).unwrap(), "xuanwo");
}

#[test]
fn session_without_credentials_is_invalid() {
    let p = prefs(None);
    assert!(matches!(validate_session(&p, None), Err(Error::InvalidSession)));
}

#[test]
fn session_must_see_the_list() {
    let p = prefs(Some(creds(None, None, None)));
    let private = ListAddress::parse("private@opendal.apache.org").unwrap();
    assert_eq!(validate_session(&p, Some(&private)).unwrap(), "xuanwo");
    let hidden = ListAddress::parse("private@kafka.apache.org").unwrap();
    match validate_session(&p, Some(&hidden)) {
        Err(Error::NoListAccess(l)) => assert_eq!(l, "private@kafka.apache.org"),
        other => panic!("unexpected: {other:?}"),
    }
}

#[test]
fn has_list_access_looks_in_the_domain() {
    let p = prefs(None);
    assert!(p.has_list_access(&ListAddress::parse("announce@apache.org").unwrap()));
    assert!(!p.has_list_access(&ListAddress::parse("dev@apache.org").unwrap()));
    assert!(!p.has_list_access(&ListAddress::parse("announce@opendal.apache.org").unwrap()));
}

#[test]
fn hidden_private_list_asks_for_a_session() {
    let p = prefs(None);
    assert!(check_list_access(&p, &ListAddress::parse("dev@opendal.apache.org").unwrap()).is_ok());
    assert!(matches!(
        check_list_access(&p, &ListAddress::parse("private@kafka.apache.org").unwrap()),
        Err(Error::NoSession)
    ));
    match check_list_access(&p, &ListAddress::parse("dev@kafka.apache.org").unwrap()) {
        Err(Error::NoListAccess(l)) => assert_eq!(l, "dev@kafka.apache.org"),
        other => panic!("unexpected: {other:?}"),
    }
}

#[test]
fn logged_in_session_without_the_private_list_is_told_so() {
    let p = prefs(Some(creds(None, None, None)));
    match check_list_access(&p, &ListAddress::parse("private@kafka.apache.org").unwrap()) {
        Err(Error::NoListAccess(l)) => assert_eq!(l, "private@kafka.apache.org"),
        other => panic!("unexpected: {other:?}"),
    }
    assert!(check_list_access(&p, &ListAddress::parse("private@opendal.apache.org").unwrap()).is_ok());
}

#[test]
fn optional_list_is_parsed() {
    assert!(parse_optional_list(None).unwrap().is_none());
    let a = parse_optional_list(Some("dev@opendal.apache.org".to_string())).unwrap().unwrap();
    assert_eq!(a.list, "dev");
    assert!(matches!(parse_optional_list(Some("bad".to_string())), Err(Error::InvalidListAddress(_))));
}

#[test]
fn store_selection() {
    assert_eq!(store_from_env(Some("keyring")), Some(SessionStore::Keyring));
    assert_eq!(store_from_env(Some("file")), Some(SessionStore::File));
    assert_eq!(store_from_env(Some("other")), None);
    assert_eq!(store_from_env(None), None);
    assert_eq!(default_session_store(true), SessionStore::File);
    assert_eq!(default_session_store(false), SessionStore::Keyring);
    assert_eq!(resolve_store(Some(SessionStore::Keyring), Some("file"), true), SessionStore::Keyring);
    assert_eq!(resolve_store(None, Some("file"), false), SessionStore::File);
    assert_eq!(resolve_store(None, Some("bogus"), true), SessionStore::File);
    assert_eq!(resolve_store(None, None, false), SessionStore::Keyring);
}

#[test]
fn temp_file_names() {
    assert_eq!(temp_session_file_name(Some("session.json")), ".session.json.tmp");
    assert_eq!(temp_session_file_name(None), ".session.json.tmp");
    assert_eq!(temp_session_file_name(Some("s")), ".s.tmp");
}

#[test]
fn preferences_merge_domains_and_names() {
    let p = Preferences::new(
        Login { credentials: None },
        vec![
            ("opendal.apache.org".to_string(), vec!["dev".to_string(), "dev".to_string()]),
            ("apache.org".to_string(), vec!["announce".to_string()]),
            ("opendal.apache.org".to_string(), vec!["private".to_string(), "dev".to_string()]),
        ],
    );
    assert_eq!(
        p.lists,
        vec![
            ("opendal.apache.org".to_string(), vec!["dev".to_string(), "private".to_string()]),
            ("apache.org".to_string(), vec!["announce".to_string()]),
        ]
    );
    assert!(p.has_list_access(&ListAddress::parse("private@opendal.apache.org").unwrap()));
    assert!(!p.has_list_access(&ListAddress::parse("private@apache.org").unwrap()));
}

#[test]
fn only_an_accepted_session_is_kept() {
    let session = Session { ponymail: "abc".to_string() };
    let (kept, user) = accept_session(&prefs(Some(creds(Some("Xuanwo"), None, None))), session.clone()).unwrap();
    assert_eq!(kept.ponymail, "abc");
    assert_eq!(user, "Xuanwo");
    assert!(matches!(accept_session(&prefs(None), session), Err(Error::InvalidSession)));
}
