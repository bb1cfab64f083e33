use asfml::models::format_epoch;
use asfml::{Email, EmailSummary, Error, ListAddress};

#[test]
fn parse_list_address() {
    let addr = ListAddress::parse("private@opendal.apache.org").unwrap();
    assert_eq!(addr.list, "private");
    assert_eq!(addr.domain, "opendal.apache.org");
}

#[test]
fn invalid_list_addresses_are_refused() {
    for input in ["nodomain", "@opendal.apache.org", "dev@", "a@b@c", ""] {
        match ListAddress::parse(input) {
            Err(Error::InvalidListAddress(s)) => assert_eq!(s, input),
            other => panic!("unexpected result for {input:?}: {other:?}"),
        }
    }
}

#[test]
fn list_address_text_round_trip() {
    let addr = ListAddress::parse("dev@opendal.apache.org").unwrap();
    let text = addr.to_text();
    assert_eq!(text, "dev@opendal.apache.org");
    let again = ListAddress::parse(&text).unwrap();
    assert_eq!(again.list, addr.list);
    assert_eq!(again.domain, addr.domain);
}

#[test]
fn epoch_is_formatted_in_utc_minutes() {
    assert_eq!(format_epoch(Some(1431648000)), "2015-05-15 00:00");
    assert_eq!(format_epoch(Some(1748423520)), "2025-05-28 09:12");
    assert_eq!(format_epoch(None), "-");
    assert_eq!(format_epoch(Some(i64::MAX)), "-");
}

fn sample_email() -> Email {
    Email {
        id: "id-1".to_string(),
        mid: None,
        subject: "Hello".to_string(),
        from: "Alice <alice@example.org>".to_string(),
        date: None,
        epoch: Some(0),
        list_name: None,
        body: String::new(),
        message_id: Some("  <m1@example.org> ".to_string()),
        in_reply_to: Some("   ".to_string()),
        references: None,
    }
}

#[test]
fn email_mid_falls_back_to_id() {
    let mut email = sample_email();
    assert_eq!(email.mid(), "id-1");
    email.mid = Some("mid-1".to_string());
    assert_eq!(email.mid(), "mid-1");
}

#[test]
fn email_keys_are_trimmed_and_never_empty() {
    let email = sample_email();
    assert_eq!(email.message_id_key(), Some("<m1@example.org>"));
    assert_eq!(email.in_reply_to_key(), None);
}

#[test]
fn email_date_prefers_date_field() {
    let mut email = sample_email();
    assert_eq!(email.formatted_date(), "1970-01-01 00:00");
    email.date = Some("Thu, 28 May 2026".to_string());
    assert_eq!(email.formatted_date(), "Thu, 28 May 2026");
}

#[test]
fn summary_mid_and_date() {
    let summary = EmailSummary {
        id: "abc".to_string(),
        mid: None,
        subject: "s".to_string(),
        from: "f".to_string(),
        epoch: None,
        list_name: None,
    };
    assert_eq!(summary.mid(), "abc");
    assert_eq!(summary.formatted_date(), "-");
}

#[test]
fn formatted_time_or_dash() {
    assert_eq!(asfml::models::date_or_dash(Some("2026-05-28 09:12".to_string())), "2026-05-28 09:12");
    assert_eq!(asfml::models::date_or_dash(None), "-");
}
