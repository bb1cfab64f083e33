use asfml::parse_ponymail_cookie;
use asfml::Error;

#[test]
fn parse_plain_cookie() {
    let cookie = parse_ponymail_cookie("ponymail=abc-123").unwrap();
    assert_eq!(cookie, "abc-123");
}

#[test]
fn parse_cookie_header() {
    let cookie = parse_ponymail_cookie("Cookie: other=x; ponymail=abc; foo=bar").unwrap();
    assert_eq!(cookie, "abc");
}

#[test]
fn parse_netscape_cookie() {
    let input = ".lists.apache.org\tTRUE\t/\tTRUE\t0\tponymail\tabc";
    let cookie = parse_ponymail_cookie(input).unwrap();
    assert_eq!(cookie, "abc");
}

fn invalid_cookie_reason(input: &str) -> String {
    match parse_ponymail_cookie(input) {
        Err(Error::InvalidCookie(reason)) => reason,
        other => panic!("unexpected result: {:?}", other),
    }
}

#[test]
fn parse_raw_cookie_value() {
    assert_eq!(parse_ponymail_cookie("  abc-123\n").unwrap(), "abc-123");
}

#[test]
fn parse_lowercase_cookie_header_with_spaces() {
    let cookie = parse_ponymail_cookie("  cookie:  a=1 ;  ponymail =  v-42  ; b=2 \n").unwrap();
    assert_eq!(cookie, "v-42");
}

#[test]
fn parse_cookie_value_with_equals_sign() {
    assert_eq!(parse_ponymail_cookie("ponymail=a=b").unwrap(), "a=b");
}

#[test]
fn first_ponymail_pair_decides() {
    assert_eq!(invalid_cookie_reason("ponymail=; ponymail=abc"), "ponymail cookie value is empty");
}

#[test]
fn empty_cookie_value_is_refused() {
    assert_eq!(invalid_cookie_reason("ponymail=   "), "ponymail cookie value is empty");
}

#[test]
fn missing_cookie_is_refused() {
    assert_eq!(invalid_cookie_reason("Cookie: other=x; foo=bar"), "could not find a ponymail cookie");
    assert_eq!(invalid_cookie_reason(""), "could not find a ponymail cookie");
    assert_eq!(invalid_cookie_reason("two words"), "could not find a ponymail cookie");
}

#[test]
fn netscape_cookie_of_other_domain_is_ignored() {
    let input = "# Netscape HTTP Cookie File\n.example.org\tTRUE\t/\tTRUE\t0\tponymail\tnope\n";
    assert_eq!(invalid_cookie_reason(input), "could not find a ponymail cookie");
}

#[test]
fn netscape_cookie_file_with_comments_and_crlf() {
    let input = "# Netscape HTTP Cookie File\r\n\r\nlists.apache.org\tFALSE\t/\tTRUE\t0\tother\tx\r\n.lists.apache.org\tTRUE\t/\tTRUE\t0\tponymail\tsecret-1\r\n";
    assert_eq!(parse_ponymail_cookie(input).unwrap(), "secret-1");
}

#[test]
fn netscape_line_with_bad_value_falls_back_to_header_forms() {
    let input = "lists.apache.org\tTRUE\t/\tTRUE\t0\tponymail\t";
    assert_eq!(invalid_cookie_reason(input), "could not find a ponymail cookie");
}

#[test]
fn pair_round_trip_law_on_values() {
    for v in ["abc", "a=b", "x.y-z_1", "with space inside"] {
        let input = format!("ponymail={}", v);
        assert_eq!(parse_ponymail_cookie(&input).unwrap(), v);
    }
}

#[test]
fn accepted_cookie_has_no_separator() {
    for input in ["ponymail= abc ", "Cookie: ponymail=abc", "abc", ".lists.apache.org\tTRUE\t/\tTRUE\t0\tponymail\tabc"] {
        let v = parse_ponymail_cookie(input).unwrap();
        assert!(!v.is_empty());
        assert!(!v.contains(';') && !v.contains('\n') && !v.contains('\r'));
        assert_eq!(v.trim(), v);
    }
}
