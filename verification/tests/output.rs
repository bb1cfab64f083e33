use asfml::output::{email_text, error_report, summaries_table, thread_text};
use asfml::{Email, EmailSummary, Error, ThreadResponse};

fn email(id: &str, subject: &str, body: &str) -> Email {
    Email {
        id: id.to_string(),
        mid: None,
        subject: subject.to_string(),
        from: "Alice".to_string(),
        date: None,
        epoch: Some(1748423520),
        list_name: None,
        body: body.to_string(),
        message_id: None,
        in_reply_to: None,
        references: None,
    }
}

#[test]
fn email_text_layout() {
    let mut e = email("m1", "Hi", "line\n");
    e.list_name = Some("<dev.opendal.apache.org>".to_string());
    e.message_id = Some("<a@b>".to_string());
    e.in_reply_to = Some(" <p@b> ".to_string());
    assert_eq!(
        email_text(&e),
        "Subject: Hi\nFrom: Alice\nDate: 2025-05-28 09:12\nList: <dev.opendal.apache.org>\nMID: m1\nMessage-ID: <a@b>\nIn-Reply-To: <p@b>\n\nline\n"
    );
    let e = email("m2", "Hi", "no newline");
    assert_eq!(email_text(&e), "Subject: Hi\nFrom: Alice\nDate: 2025-05-28 09:12\nMID: m2\n\nno newline\n");
}

#[test]
fn thread_text_layout() {
    let root = email("r", "[DISCUSS] Release", "first");
    let reply = email("s", "Re: [DISCUSS] Release", "second\n");
    let thread = ThreadResponse { thread: root.clone(), emails: vec![root, reply] };
    assert_eq!(
        thread_text(&thread),
        "Thread: [DISCUSS] Release\nMessages: 2\n\n[1/2] 2025-05-28 09:12  Alice\nSubject: [DISCUSS] Release\nMID: r\n\nfirst\n\n[2/2] 2025-05-28 09:12  Alice\nSubject: Re: [DISCUSS] Release\nMID: s\n\nsecond\n"
    );
}

#[test]
fn thread_without_listed_emails_shows_its_root() {
    let root = email("r", "[DISCUSS] Release Apache OpenDAL v0.57.0", "body");
    let thread = ThreadResponse { thread: root, emails: vec![] };
    let text = thread_text(&thread);
    assert!(text.starts_with("Thread: [DISCUSS] Release Apache OpenDAL v0.57.0\nMessages: 1\n\n[1/1] "));
    assert!(text.ends_with("MID: r\n\nbody\n"));
}

#[test]
fn thread_numbers_past_nine() {
    let root = email("r", "s", "b");
    let thread = ThreadResponse { thread: root.clone(), emails: vec![root; 12] };
    let text = thread_text(&thread);
    assert!(text.contains("Messages: 12\n"));
    assert!(text.contains("[10/12] "));
    assert!(text.contains("[12/12] "));
}

#[test]
fn error_reports() {
    assert_eq!(
        error_report(&Error::NoSession),
        "No session found.\nRun `asfml auth set` and paste your lists.apache.org ponymail cookie.\n"
    );
    assert_eq!(
        error_report(&Error::InvalidSession),
        "Session expired or invalid.\nRun `asfml auth set` with a fresh cookie from lists.apache.org.\n"
    );
    assert_eq!(
        error_report(&Error::NoListAccess("private@opendal.apache.org".to_string())),
        "Logged in, but private@opendal.apache.org is not visible to this session.\n"
    );
    assert_eq!(
        error_report(&Error::ParentNotFound { in_reply_to: "<x@y>".to_string() }),
        "Parent not found in archive.\nIn-Reply-To: <x@y>\n"
    );
    assert_eq!(error_report(&Error::ParentNotFound { in_reply_to: String::new() }), "Parent not found in archive.\n");
    assert_eq!(
        error_report(&Error::ApiShapeChanged { endpoint: "email.lua", reason: "x".to_string() }),
        "Pony Mail API response changed while reading email.lua.\nRun with `--debug` to save the raw response.\n"
    );
    assert_eq!(error_report(&Error::EmailNotFound("m".to_string())), "email not found: m\n");
}

#[test]
fn error_messages() {
    assert_eq!(Error::InvalidCookie("bad".to_string()).message(), "invalid cookie input: bad");
    assert_eq!(Error::ConfigDirUnavailable.message(), "could not determine a configuration directory");
    assert_eq!(
        Error::ApiShapeChanged { endpoint: "stats.lua", reason: "missing field".to_string() }.message(),
        "Pony Mail API response changed while reading stats.lua: missing field"
    );
    let url_error = asfml::client::PonyMailClient { base: "not a url".to_string(), session: None }
        .preferences_request()
        .unwrap_err();
    assert_eq!(url_error.message(), "URL construction failed: relative URL without a base");
    assert_eq!(error_report(&url_error), "URL construction failed: relative URL without a base\n");
}

#[test]
fn summaries_table_rows() {
    let emails = vec![EmailSummary {
        id: "qd7m1k6h9hmjt5hdqb28y3vzh561x3bj".to_string(),
        mid: None,
        subject: "[DISCUSS] Release Apache OpenDAL v0.57.0".to_string(),
        from: "x".to_string(),
        epoch: Some(1748423520),
        list_name: None,
    }];
    let table = summaries_table(&emails);
    let lines: Vec<&str> = table.lines().collect();
    assert_eq!(lines.len(), 5);
    assert!(lines[0].starts_with('\u{250c}'));
    assert!(lines[1].contains("DATE") && lines[1].contains("MID") && lines[1].contains("SUBJECT"));
    assert!(lines[2].starts_with('\u{255e}'));
    assert!(lines[3].contains("2025-05-28 09:12"));
    assert!(lines[3].contains("qd7m1k6h9hmjt5hdqb28y3vzh561x3bj"));
    assert!(lines[3].contains("[DISCUSS] Release Apache OpenDAL v0.57.0"));
    assert!(lines[4].starts_with('\u{2514}'));
}
