//! Reading the `ponymail` session cookie out of what a user pastes: a raw
//! value, `ponymail=<value>`, a `Cookie:` header, or Netscape cookies.txt
//! content.
use vstd::prelude::*;

use crate::error::Error;
use crate::text::{
    chars_of, find_char, index_of, is_whitespace, is_ws, lemma_index_of_bounds, lemma_index_of_is, lemma_split_without_sep, lemma_trim_fixed,
    lemma_trimmed_ends, span_contains, span_eq,
    span_seqs, span_starts_with, span_string, split, split_spans, starts_with, trim, trim_end,
    trim_span, trim_start, trim_start_char, trim_start_char_span,
};

verus! {

/// Message for a cookie value that is empty after trimming.
pub open spec fn empty_value_message() -> Seq<char> {
    "ponymail cookie value is empty"@
}

/// Message for a cookie value that holds `;`, `\n` or `\r`.
pub open spec fn bad_value_message() -> Seq<char> {
    "ponymail cookie value contains invalid characters"@
}

/// Message for input in which no `ponymail` cookie was found.
pub open spec fn not_found_message() -> Seq<char> {
    "could not find a ponymail cookie"@
}

/// A cookie value that the library accepts: trimmed, not empty, and free of
/// `;`, `\n` and `\r`.
pub open spec fn is_valid_cookie_value(v: Seq<char>) -> bool {
    &&& trim(v) == v
    &&& v.len() > 0
    &&& !v.contains(';')
    &&& !v.contains('\n')
    &&& !v.contains('\r')
}

/// What checking a candidate value gives: the trimmed value, or the message
/// of the `InvalidCookie` error.
pub open spec fn cookie_value_check(v: Seq<char>) -> Result<Seq<char>, Seq<char>> {
    let t = trim(v);
    if t.len() == 0 {
        Err(empty_value_message())
    } else if t.contains(';') || t.contains('\n') || t.contains('\r') {
        Err(bad_value_message())
    } else {
        Ok(t)
    }
}

/// The value field of a cookies.txt line when the line is a `ponymail` cookie
/// of `lists.apache.org`: not empty, not a comment, at least seven
/// tab-separated fields, the domain field (leading dots dropped) naming the
/// host and the sixth field naming the cookie.
pub open spec fn netscape_line_value(line: Seq<char>) -> Option<Seq<char>> {
    let t = trim(line);
    let f = split(t, '\t');
    if t.len() > 0 && t[0] != '#' && f.len() >= 7 && trim_start_char(f[0], '.') == "lists.apache.org"@
        && f[5] == "ponymail"@ {
        Some(f[6])
    } else {
        None
    }
}

/// The cookie that the first matching cookies.txt line gives, if its value is
/// accepted. Lines come from splitting at `\n`; since every line is trimmed,
/// this is what `str::lines` yields.
pub open spec fn netscape_cookie(lines: Seq<Seq<char>>) -> Option<Seq<char>>
    decreases lines.len(),
{
    if lines.len() == 0 {
        None
    } else {
        match netscape_line_value(lines[0]) {
            Some(v) => match cookie_value_check(v) {
                Ok(c) => Some(c),
                Err(_) => None,
            },
            None => netscape_cookie(lines.drop_first()),
        }
    }
}

/// The text after a leading `Cookie:` or `cookie:` of the trimmed input.
pub open spec fn header_body(input: Seq<char>) -> Seq<char> {
    let t = trim(input);
    if starts_with(t, "Cookie:"@) {
        t.skip("Cookie:"@.len() as int)
    } else if starts_with(t, "cookie:"@) {
        t.skip("cookie:"@.len() as int)
    } else {
        t
    }
}

/// Name and value of a trimmed `name=value` pair, split at the first `=`.
pub open spec fn name_value(part: Seq<char>) -> Option<(Seq<char>, Seq<char>)> {
    let p = trim(part);
    let i = index_of(p, '=');
    if i < p.len() {
        Some((p.take(i as int), p.skip((i + 1) as int)))
    } else {
        None
    }
}

/// The value of the first `;`-separated pair whose trimmed name is `ponymail`.
pub open spec fn ponymail_pair(parts: Seq<Seq<char>>) -> Option<Seq<char>>
    decreases parts.len(),
{
    if parts.len() == 0 {
        None
    } else {
        match name_value(parts[0]) {
            Some(nv) => if trim(nv.0) == "ponymail"@ {
                Some(nv.1)
            } else {
                ponymail_pair(parts.drop_first())
            },
            None => ponymail_pair(parts.drop_first()),
        }
    }
}

/// Input that is one bare token: not empty after trimming, with no `=`, no
/// inner whitespace and no `Cookie:` prefix.
pub open spec fn is_raw_value(input: Seq<char>) -> bool {
    let t = trim(input);
    &&& t.len() > 0
    &&& header_body(input) == t
    &&& !t.contains('=')
    &&& forall|k: int| 0 <= k < t.len() ==> !is_ws(#[trigger] t[k])
}

/// What parsing pasted input gives: the cookie value, or the message of the
/// `InvalidCookie` error.
pub open spec fn spec_parse_ponymail_cookie(input: Seq<char>) -> Result<Seq<char>, Seq<char>> {
    match netscape_cookie(split(input, '\n')) {
        Some(v) => Ok(v),
        None => match ponymail_pair(split(header_body(input), ';')) {
            Some(v) => cookie_value_check(trim(v)),
            None => if is_raw_value(input) {
                cookie_value_check(input)
            } else {
                Err(not_found_message())
            },
        },
    }
}

/// Whether an exec result is the one a spec result describes.
pub open spec fn cookie_result_is(r: Result<String, Error>, s: Result<Seq<char>, Seq<char>>) -> bool {
    match r {
        Ok(v) => s == Ok::<Seq<char>, Seq<char>>(v@),
        Err(Error::InvalidCookie(m)) => s == Err::<Seq<char>, Seq<char>>(m@),
        Err(_) => false,
    }
}

/// Reads the `ponymail` cookie out of a raw value, `ponymail=<value>`, a full
/// `Cookie:` header, or Netscape cookies.txt content. Other cookies are dropped.
pub fn parse_ponymail_cookie(input: &str) -> (r: Result<String, Error>)
    ensures
        cookie_result_is(r, spec_parse_ponymail_cookie(input@)),
{
    if let Some(value) = parse_netscape_cookie(input) {
        return Ok(value);
    }
    let s = chars_of(input);
    let (a, b) = trim_span(&s, 0, s.len());
    let cookie_len = "Cookie:".unicode_len();
    let mut start = a;
    if span_starts_with(&s, a, b, "Cookie:") {
        start = a + cookie_len;
    } else if span_starts_with(&s, a, b, "cookie:") {
        proof {
            reveal_strlit("Cookie:");
            reveal_strlit("cookie:");
        }
        start = a + cookie_len;
    }
    proof {
        let t = s@.subrange(a as int, b as int);
        assert(t == trim(s@.subrange(0, s.len() as int)));
        assert(s@.subrange(0, s.len() as int) =~= input@);
        if start != a {
            assert(t.skip(start - a) =~= s@.subrange(start as int, b as int));
        }
        assert(header_body(input@) == s@.subrange(start as int, b as int));
    }
    let parts = split_spans(&s, start, b, ';');
    proof {
        assert(span_seqs(s@, parts@).skip(0) =~= span_seqs(s@, parts@));
    }
    let mut i: usize = 0;
    while i < parts.len()
        invariant
            s@ == input@,
            netscape_cookie(split(input@, '\n')) is None,
            0 <= i <= parts.len(),
            start <= b <= s.len(),
            span_seqs(s@, parts@) == split(header_body(input@), ';'),
            forall|k: int| 0 <= k < parts.len() ==> start <= (#[trigger] parts@[k]).0 <= parts@[k].1 <= b,
            ponymail_pair(split(header_body(input@), ';')) == ponymail_pair(span_seqs(s@, parts@).skip(i as int)),
        decreases parts.len() - i,
    {
        let (pa, pb) = trim_span(&s, parts[i].0, parts[i].1);
        let e = find_char(&s, pa, pb, '=');
        proof {
            let all = span_seqs(s@, parts@);
            assert(all.skip(i as int)[0] == all[i as int]);
            assert(all.skip(i as int).drop_first() =~= all.skip(i + 1));
            let p = s@.subrange(pa as int, pb as int);
            lemma_index_of_bounds(p, '=');
            if e < pb {
                assert(p.take(e - pa) =~= s@.subrange(pa as int, e as int));
                assert(p.skip(e - pa + 1) =~= s@.subrange(e + 1, pb as int));
            }
        }
        if e < pb {
            let (na, nb) = trim_span(&s, pa, e);
            if span_eq(&s, na, nb, "ponymail") {
                let (va, vb) = trim_span(&s, e + 1, pb);
                let value = span_string(input, &s, va, vb);
                proof {
                    let all = span_seqs(s@, parts@);
                    let p = s@.subrange(pa as int, pb as int);
                    assert(trim(all[i as int]) == p);
                    assert(name_value(all[i as int]) == Some((s@.subrange(pa as int, e as int), s@.subrange(e + 1, pb as int))));
                    assert(ponymail_pair(all.skip(i as int)) == Some(s@.subrange(e + 1, pb as int)));
                }
                return validate_cookie_value(&value);
            }
        }
        i = i + 1;
    }
    proof {
        assert(span_seqs(s@, parts@).skip(parts.len() as int).len() == 0);
    }
    if start == a && a < b && !span_contains(&s, a, b, '=') && !span_has_whitespace(&s, a, b) {
        let raw = span_string(input, &s, a, b);
        proof {
            assert(s@.subrange(a as int, b as int) == trim(input@));
            lemma_trim_idempotent(input@);
        }
        let r = validate_cookie_value(&raw);
        return r;
    }
    Err(Error::InvalidCookie(String::from_str("could not find a ponymail cookie")))
}

/// Whether `s[lo..hi]` holds a whitespace character.
fn span_has_whitespace(s: &Vec<char>, lo: usize, hi: usize) -> (r: bool)
    requires
        lo <= hi <= s.len(),
    ensures
        r == exists|k: int| 0 <= k < hi - lo && is_ws(#[trigger] s@.subrange(lo as int, hi as int)[k]),
{
    let mut j = lo;
    while j < hi
        invariant
            lo <= j <= hi <= s.len(),
            forall|k: int| lo <= k < j ==> !is_ws(s@[k]),
        decreases hi - j,
    {
        if is_whitespace(s[j]) {
            assert(is_ws(s@.subrange(lo as int, hi as int)[j - lo]));
            return true;
        }
        j = j + 1;
    }
    assert forall|k: int| 0 <= k < hi - lo implies !is_ws(#[trigger] s@.subrange(lo as int, hi as int)[k]) by {
        assert(s@.subrange(lo as int, hi as int)[k] == s@[lo + k]);
    }
    false
}

/// Trimming twice trims no more than once.
pub proof fn lemma_trim_idempotent(s: Seq<char>)
    ensures
        trim(trim(s)) == trim(s),
{
    lemma_trim_start_result(s);
    lemma_trim_end_keeps_start(trim_start(s));
}

proof fn lemma_trim_start_result(s: Seq<char>)
    ensures
        trim_start(s).len() == 0 || !is_ws(trim_start(s)[0]),
    decreases s.len(),
{
    if s.len() > 0 && is_ws(s[0]) {
        lemma_trim_start_result(s.drop_first());
    }
}

proof fn lemma_trim_end_fixed(s: Seq<char>)
    ensures
        trim_end(trim_end(s)) == trim_end(s),
    decreases s.len(),
{
    if s.len() > 0 && is_ws(s.last()) {
        lemma_trim_end_fixed(s.drop_last());
    }
}

/// Trimming the end of a string whose first character is not whitespace
/// leaves a string that is empty or starts with that same character.
proof fn lemma_trim_end_keeps_start(s: Seq<char>)
    requires
        s.len() == 0 || !is_ws(s[0]),
    ensures
        trim_end(s).len() == 0 || !is_ws(trim_end(s)[0]),
        trim_start(trim_end(s)) == trim_end(s),
        trim_end(trim_end(s)) == trim_end(s),
    decreases s.len(),
{
    lemma_trim_end_fixed(s);
    if s.len() > 0 && is_ws(s.last()) {
        if s.drop_last().len() > 0 {
            assert(s.drop_last()[0] == s[0]);
        }
        lemma_trim_end_keeps_start(s.drop_last());
    }
}

/// The cookie named `ponymail` for `lists.apache.org` in Netscape cookies.txt
/// content, if the first such line has an accepted value.
fn parse_netscape_cookie(input: &str) -> (r: Option<String>)
    ensures
        match r {
            Some(v) => netscape_cookie(split(input@, '\n')) == Some(v@),
            None => netscape_cookie(split(input@, '\n')) is None,
        },
{
    let s = chars_of(input);
    let lines = split_spans(&s, 0, s.len(), '\n');
    proof {
        assert(s@.subrange(0, s.len() as int) =~= input@);
        assert(span_seqs(s@, lines@).skip(0) =~= span_seqs(s@, lines@));
    }
    let mut i: usize = 0;
    while i < lines.len()
        invariant
            s@ == input@,
            0 <= i <= lines.len(),
            span_seqs(s@, lines@) == split(input@, '\n'),
            forall|k: int| 0 <= k < lines.len() ==> 0 <= (#[trigger] lines@[k]).0 <= lines@[k].1 <= s.len(),
            netscape_cookie(split(input@, '\n')) == netscape_cookie(span_seqs(s@, lines@).skip(i as int)),
        decreases lines.len() - i,
    {
        let ghost all = span_seqs(s@, lines@);
        proof {
            assert(all.skip(i as int)[0] == all[i as int]);
            assert(all.skip(i as int).drop_first() =~= all.skip(i + 1));
        }
        let (la, lb) = trim_span(&s, lines[i].0, lines[i].1);
        if la < lb && s[la] != '#' {
            let fields = split_spans(&s, la, lb, '\t');
            if fields.len() >= 7 {
                let da = trim_start_char_span(&s, fields[0].0, fields[0].1, '.');
                if span_eq(&s, da, fields[0].1, "lists.apache.org") && span_eq(&s, fields[5].0, fields[5].1, "ponymail") {
                    let value = span_string(input, &s, fields[6].0, fields[6].1);
                    proof {
                        let f = split(s@.subrange(la as int, lb as int), '\t');
                        assert(f[0] == span_seqs(s@, fields@)[0]);
                        assert(f[5] == span_seqs(s@, fields@)[5]);
                        assert(f[6] == span_seqs(s@, fields@)[6]);
                        assert(netscape_line_value(all[i as int]) == Some(value@));
                    }
                    return match validate_cookie_value(&value) {
                        Ok(v) => Some(v),
                        Err(_) => None,
                    };
                }
                proof {
                    let f = split(s@.subrange(la as int, lb as int), '\t');
                    assert(f[0] == span_seqs(s@, fields@)[0]);
                    assert(f[5] == span_seqs(s@, fields@)[5]);
                    assert(netscape_line_value(all[i as int]) is None);
                }
            }
        }
        i = i + 1;
    }
    None
}

/// Checks a candidate value: trims it and refuses an empty value or one that
/// holds `;`, `\n` or `\r`.
fn validate_cookie_value(value: &str) -> (r: Result<String, Error>)
    ensures
        cookie_result_is(r, cookie_value_check(value@)),
{
    let s = chars_of(value);
    let (a, b) = trim_span(&s, 0, s.len());
    proof {
        assert(s@.subrange(0, s.len() as int) =~= value@);
    }
    if a == b {
        return Err(Error::InvalidCookie(String::from_str("ponymail cookie value is empty")));
    }
    if span_contains(&s, a, b, ';') || span_contains(&s, a, b, '\n') || span_contains(&s, a, b, '\r') {
        return Err(Error::InvalidCookie(String::from_str("ponymail cookie value contains invalid characters")));
    }
    Ok(span_string(value, &s, a, b))
}

proof fn lemma_check_ok_is_valid(x: Seq<char>)
    ensures
        cookie_value_check(x) matches Ok(c) ==> is_valid_cookie_value(c),
{
    lemma_trim_idempotent(x);
}

proof fn lemma_netscape_is_valid(lines: Seq<Seq<char>>)
    ensures
        netscape_cookie(lines) matches Some(c) ==> is_valid_cookie_value(c),
    decreases lines.len(),
{
    if lines.len() > 0 {
        match netscape_line_value(lines[0]) {
            Some(v) => lemma_check_ok_is_valid(v),
            None => lemma_netscape_is_valid(lines.drop_first()),
        }
    }
}

/// Law: every cookie that parsing accepts is a valid value: trimmed, not
/// empty, and free of `;`, `\n` and `\r`, so it can stand in a `Cookie` header.
pub proof fn law_accepted_cookie_is_valid(input: Seq<char>)
    ensures
        spec_parse_ponymail_cookie(input) matches Ok(v) ==> is_valid_cookie_value(v),
{
    lemma_netscape_is_valid(split(input, '\n'));
    match ponymail_pair(split(header_body(input), ';')) {
        Some(v) => lemma_check_ok_is_valid(trim(v)),
        None => lemma_check_ok_is_valid(input),
    }
}

proof fn lemma_concat_lacks(a: Seq<char>, b: Seq<char>, c: char)
    requires
        !a.contains(c),
        !b.contains(c),
    ensures
        !(a + b).contains(c),
{
    if (a + b).contains(c) {
        let k = choose|k: int| 0 <= k < (a + b).len() && (a + b)[k] == c;
        if k < a.len() {
            assert(a[k] == c);
        } else {
            assert(b[k - a.len()] == c);
        }
    }
}

/// A cookies.txt scan of a single line whose first character is not `.`,
/// `#` or whitespace and differs from `l` finds nothing.
proof fn lemma_netscape_single_line(s: Seq<char>)
    requires
        trim(s) == s,
        s.len() > 0,
        s[0] != 'l',
        s[0] != '.',
        s[0] != '\t',
    ensures
        netscape_cookie(seq![s]) is None,
{
    reveal_strlit("lists.apache.org");
    let f = split(s, '\t');
    lemma_index_of_bounds(s, '\t');
    let i = index_of(s, '\t');
    assert(i > 0);
    if i < s.len() {
        assert(f[0] == s.take(i as int));
    } else {
        assert(f[0] == s);
    }
    assert(f[0][0] == s[0]);
    assert(trim_start_char(f[0], '.') == f[0]);
    assert(trim_start_char(f[0], '.')[0] != "lists.apache.org"@[0]);
    assert(netscape_line_value(s) is None);
    assert(seq![s].drop_first() =~= Seq::<Seq<char>>::empty());
    assert(netscape_cookie(Seq::<Seq<char>>::empty()) is None);
    assert(seq![s][0] == s);
}

/// Law: pasting `ponymail=<value>` gives back the value, for every valid value.
pub proof fn law_pair_round_trip(v: Seq<char>)
    requires
        is_valid_cookie_value(v),
    ensures
        spec_parse_ponymail_cookie("ponymail="@ + v) == Ok::<Seq<char>, Seq<char>>(v),
{
    reveal_strlit("ponymail=");
    reveal_strlit("ponymail");
    reveal_strlit("Cookie:");
    reveal_strlit("cookie:");
    let p = "ponymail="@;
    let s = p + v;
    lemma_trimmed_ends(v);
    assert(s[0] == 'p');
    assert(s.last() == v.last());
    lemma_trim_fixed(s);
    assert(!p.contains('\n'));
    assert(!p.contains(';'));
    lemma_concat_lacks(p, v, '\n');
    lemma_concat_lacks(p, v, ';');
    lemma_split_without_sep(s, '\n');
    lemma_netscape_single_line(s);
    assert(s.take(7)[0] != "Cookie:"@[0]);
    assert(s.take(7)[0] != "cookie:"@[0]);
    assert(header_body(s) == s);
    lemma_split_without_sep(s, ';');
    lemma_index_of_is(s, '=', 8);
    assert(s.take(8) =~= "ponymail"@);
    assert(s.skip(9) =~= v);
    lemma_trim_fixed("ponymail"@);
    assert(name_value(s) == Some(("ponymail"@, v)));
    assert(seq![s].drop_first() =~= Seq::<Seq<char>>::empty());
    assert(ponymail_pair(split(header_body(s), ';')) == Some(v));
}

/// Law: pasting a bare value that holds no `=` and no whitespace, and does not
/// begin with a `Cookie:` prefix, gives back the value.
pub proof fn law_raw_value_round_trip(v: Seq<char>)
    requires
        is_valid_cookie_value(v),
        !v.contains('='),
        forall|k: int| 0 <= k < v.len() ==> !is_ws(#[trigger] v[k]),
        !starts_with(v, "Cookie:"@),
        !starts_with(v, "cookie:"@),
    ensures
        spec_parse_ponymail_cookie(v) == Ok::<Seq<char>, Seq<char>>(v),
{
    lemma_split_without_sep(v, '\n');
    assert(!v.contains('\t')) by {
        if v.contains('\t') {
            let k = choose|k: int| 0 <= k < v.len() && v[k] == '\t';
            assert(is_ws(v[k]));
        }
    }
    lemma_split_without_sep(v, '\t');
    assert(netscape_line_value(v) is None);
    assert(seq![v].drop_first() =~= Seq::<Seq<char>>::empty());
    assert(netscape_cookie(Seq::<Seq<char>>::empty()) is None);
    assert(seq![v][0] == v);
    assert(netscape_cookie(split(v, '\n')) is None);
    assert(header_body(v) == v);
    lemma_split_without_sep(v, ';');
    assert forall|k: int| 0 <= k < v.len() implies v[k] != '=' by {
        if v[k] == '=' {
            assert(v.contains('='));
        }
    }
    lemma_index_of_is(v, '=', v.len() as int);
    assert(name_value(v) is None);
    assert(ponymail_pair(Seq::<Seq<char>>::empty()) is None);
    assert(ponymail_pair(split(header_body(v), ';')) is None);
    assert(is_raw_value(v));
    assert(cookie_value_check(v) == Ok::<Seq<char>, Seq<char>>(v));
}

/// Law: a refused input is answered with one of three fixed messages, so no
/// part of the pasted text, which may hold a secret, reaches the error.
pub proof fn law_cookie_errors_hide_input(input: Seq<char>)
    ensures
        spec_parse_ponymail_cookie(input) matches Err(m) ==> m == empty_value_message() || m == bad_value_message()
            || m == not_found_message(),
{
}

} // verus!
