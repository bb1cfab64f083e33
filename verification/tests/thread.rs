use asfml::{Email, Error, ThreadResponse};

fn email(id: &str, message_id: &str, in_reply_to: Option<&str>) -> Email {
    Email {
        id: id.to_string(),
        mid: Some(id.to_string()),
        subject: String::new(),
        from: String::new(),
        date: None,
        epoch: None,
        list_name: None,
        body: String::new(),
        message_id: Some(message_id.to_string()),
        in_reply_to: in_reply_to.map(ToString::to_string),
        references: None,
    }
}

#[test]
fn resolve_parent_and_root() {
    let root = email("root", "<root>", None);
    let child = email("child", "<child>", Some("<root>"));
    let grandchild = email("grandchild", "<grandchild>", Some("<child>"));
    let thread = ThreadResponse {
        thread: root.clone(),
        emails: vec![root, child, grandchild],
    };

    let parent = thread.direct_parent("grandchild").unwrap();
    assert_eq!(parent.mid(), "child");

    let root = thread.root_parent("grandchild").unwrap();
    assert_eq!(root.mid(), "root");
}

#[test]
fn find_email_by_id_mid_or_thread_root() {
    let mut only_id = email("x", "<x>", None);
    only_id.mid = None;
    let thread = ThreadResponse {
        thread: email("top", "<top>", None),
        emails: vec![only_id, email("y", "<y>", None)],
    };
    assert_eq!(thread.find_email("x").unwrap().id, "x");
    assert_eq!(thread.find_email("y").unwrap().id, "y");
    assert_eq!(thread.find_email("top").unwrap().id, "top");
    assert!(thread.find_email("nope").is_none());
}

#[test]
fn unknown_email_is_not_found() {
    let thread = ThreadResponse { thread: email("a", "<a>", None), emails: vec![] };
    match thread.direct_parent("b") {
        Err(Error::EmailNotFound(m)) => assert_eq!(m, "b"),
        other => panic!("unexpected: {other:?}"),
    }
    match thread.root_parent("b") {
        Err(Error::EmailNotFound(m)) => assert_eq!(m, "b"),
        other => panic!("unexpected: {other:?}"),
    }
}

#[test]
fn missing_parent_is_reported_by_both_lookups() {
    let orphan = email("orphan", "<orphan>", Some(" <gone> "));
    let thread = ThreadResponse { thread: orphan.clone(), emails: vec![orphan] };
    match thread.direct_parent("orphan") {
        Err(Error::ParentNotFound { in_reply_to }) => assert_eq!(in_reply_to, "<gone>"),
        other => panic!("unexpected: {other:?}"),
    }
    match thread.root_parent("orphan") {
        Err(Error::ParentNotFound { in_reply_to }) => assert_eq!(in_reply_to, "<gone>"),
        other => panic!("unexpected: {other:?}"),
    }
}

#[test]
fn parentless_email_is_its_own_root() {
    let root = email("root", "<root>", None);
    let thread = ThreadResponse { thread: root.clone(), emails: vec![root] };
    assert_eq!(thread.root_parent("root").unwrap().id, "root");
    match thread.direct_parent("root") {
        Err(Error::ParentNotFound { in_reply_to }) => assert_eq!(in_reply_to, ""),
        other => panic!("unexpected: {other:?}"),
    }
}

#[test]
fn root_stops_at_earliest_available_ancestor() {
    let a = email("a", "<a>", Some("<missing>"));
    let b = email("b", "<b>", Some("<a>"));
    let c = email("c", "<c>", Some("<b>"));
    let thread = ThreadResponse { thread: a.clone(), emails: vec![a, b, c] };
    assert_eq!(thread.root_parent("c").unwrap().id, "a");
}

#[test]
fn reply_cycle_ends_the_walk() {
    let a = email("a", "<a>", Some("<b>"));
    let b = email("b", "<b>", Some("<a>"));
    let thread = ThreadResponse { thread: a.clone(), emails: vec![a, b] };
    let root = thread.root_parent("a").unwrap();
    assert_eq!(root.id, "a");
    let self_reply = email("s", "<s>", Some("<s>"));
    let thread = ThreadResponse { thread: self_reply.clone(), emails: vec![self_reply] };
    assert_eq!(thread.root_parent("s").unwrap().id, "s");
}

#[test]
fn later_email_wins_a_shared_message_id() {
    let root = email("root", "<dup>", None);
    let first = email("first", "<dup>", None);
    let second = email("second", "<dup>", None);
    let child = email("child", "<child>", Some("<dup>"));
    let thread = ThreadResponse { thread: root, emails: vec![first, second, child] };
    assert_eq!(thread.direct_parent("child").unwrap().id, "second");
}

#[test]
fn thread_root_email_is_in_the_index() {
    let root = email("root", "<root>", None);
    let child = email("child", "<child>", Some("<root>"));
    let thread = ThreadResponse { thread: root, emails: vec![child] };
    assert_eq!(thread.direct_parent("child").unwrap().id, "root");
    assert_eq!(thread.root_parent("child").unwrap().id, "root");
}
