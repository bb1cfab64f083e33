//! The stable data model of archived mail: sessions, list addresses, the
//! session's preferences, email summaries, emails and threads.
use vstd::prelude::*;

use crate::error::Error;
use crate::external::{format_utc_minute, utc_minute_text};
use crate::text::{
    chars_of, contains_str, find_char, index_of, lemma_index_of_bounds, lemma_index_of_is, span_contains,
    span_string, str_eq, trim, trim_span,
};

verus! {

/// A Pony Mail session: the value of the `ponymail` cookie.
#[derive(Debug, Clone)]
pub struct Session {
    pub ponymail: String,
}

/// Where the session cookie is kept.
#[derive(Debug, Clone, Copy, PartialEq, Eq, Structural)]
pub enum SessionStore {
    Keyring,
    File,
}

/// A mailing list address, `list@domain`.
#[derive(Debug, Clone)]
pub struct ListAddress {
    pub list: String,
    pub domain: String,
}

/// The `list` and `domain` that `list@domain` names: the input holds exactly
/// one `@`, with text on both sides of it.
pub open spec fn spec_parse_list_address(s: Seq<char>) -> Option<(Seq<char>, Seq<char>)> {
    let i = index_of(s, '@');
    if 0 < i && i + 1 < s.len() && !s.skip((i + 1) as int).contains('@') {
        Some((s.take(i as int), s.skip((i + 1) as int)))
    } else {
        None
    }
}

/// The text of an address: `list@domain`.
pub open spec fn address_text(list: Seq<char>, domain: Seq<char>) -> Seq<char> {
    list + seq!['@'] + domain
}

/// An address whose parts are not empty and hold no `@`.
pub open spec fn is_valid_address(list: Seq<char>, domain: Seq<char>) -> bool {
    list.len() > 0 && domain.len() > 0 && !list.contains('@') && !domain.contains('@')
}

impl ListAddress {
    /// Parses `list@domain`.
    pub fn parse(input: &str) -> (r: Result<ListAddress, Error>)
        ensures
            match r {
                Ok(a) => spec_parse_list_address(input@) == Some((a.list@, a.domain@)),
                Err(Error::InvalidListAddress(m)) => spec_parse_list_address(input@) is None && m@ == input@,
                Err(_) => false,
            },
    {
        let s = chars_of(input);
        let n = s.len();
        let i = find_char(&s, 0, n, '@');
        proof {
            assert(s@.subrange(0, n as int) =~= input@);
            lemma_index_of_bounds(input@, '@');
            assert(input@.skip(i + 1) =~= s@.subrange(i + 1, n as int));
        }
        if i == n || i == 0 || i + 1 == n || span_contains(&s, i + 1, n, '@') {
            return Err(Error::InvalidListAddress(String::from_str(input)));
        }
        proof {
            assert(input@.take(i as int) =~= s@.subrange(0, i as int));
        }
        Ok(ListAddress { list: span_string(input, &s, 0, i), domain: span_string(input, &s, i + 1, n) })
    }

    /// The address as text, `list@domain`.
    pub fn to_text(&self) -> (r: String)
        ensures
            r@ == address_text(self.list@, self.domain@),
    {
        let mut r = self.list.clone();
        r.append("@");
        r.append(self.domain.as_str());
        proof {
            reveal_strlit("@");
        }
        r
    }
}

/// Law: an address that parsing accepts is valid, and its text is the input.
pub proof fn law_list_address_parse_text(s: Seq<char>)
    ensures
        spec_parse_list_address(s) matches Some((l, d)) ==> is_valid_address(l, d) && address_text(l, d) == s,
{
    lemma_index_of_bounds(s, '@');
    let i = index_of(s, '@');
    if let Some((l, d)) = spec_parse_list_address(s) {
        if l.contains('@') {
            let k = choose|k: int| 0 <= k < l.len() && l[k] == '@';
            assert(s[k] == '@');
        }
        assert(address_text(l, d) =~= s);
    }
}

/// Law: the text of a valid address parses back to the same address.
pub proof fn law_list_address_text_parse(l: Seq<char>, d: Seq<char>)
    requires
        is_valid_address(l, d),
    ensures
        spec_parse_list_address(address_text(l, d)) == Some((l, d)),
{
    let s = address_text(l, d);
    assert forall|k: int| 0 <= k < l.len() implies s[k] != '@' by {
        if s[k] == '@' {
            assert(l[k] == '@');
        }
    }
    lemma_index_of_is(s, '@', l.len() as int);
    assert(s.take(l.len() as int) =~= l);
    assert(s.skip((l.len() + 1) as int) =~= d);
}

/// What the archive says of the session: who is logged in, and which lists the
/// session can see, grouped by domain (domain, then the names of its lists).
#[derive(Debug, Clone)]
pub struct Preferences {
    pub login: Login,
    pub lists: Vec<(String, Vec<String>)>,
}

/// Whether no two of the strings are equal.
pub open spec fn distinct_strings(s: Seq<String>) -> bool {
    forall|a: int, b: int| 0 <= a < b < s.len() ==> (#[trigger] s[a])@ != (#[trigger] s[b])@
}

/// Whether one of the strings is `x`.
pub open spec fn holds_string(s: Seq<String>, x: Seq<char>) -> bool {
    exists|b: int| 0 <= b < s.len() && (#[trigger] s[b])@ == x
}

impl Preferences {
    /// What the archive's map of lists guarantees: no domain occurs twice,
    /// and no list name occurs twice within a domain.
    pub open spec fn well_formed(&self) -> bool {
        &&& forall|i: int, j: int| 0 <= i < j < self.lists@.len() ==> (#[trigger] self.lists@[i]).0@ != (#[trigger] self.lists@[j]).0@
        &&& forall|i: int| 0 <= i < self.lists@.len() ==> distinct_strings(#[trigger] self.lists@[i].1@)
    }
}

/// The login part of the preferences; no credentials means no valid session.
#[derive(Debug, Clone)]
pub struct Login {
    pub credentials: Option<LoginCredentials>,
}

/// The identity of a logged-in user.
#[derive(Debug, Clone)]
pub struct LoginCredentials {
    pub uid: String,
    pub fullname: Option<String>,
    pub name: Option<String>,
    pub email: Option<String>,
}

/// Whether the preferences show the list among the lists of its domain.
pub open spec fn spec_has_list_access(lists: Seq<(String, Vec<String>)>, list: Seq<char>, domain: Seq<char>) -> bool {
    exists|i: int, j: int|
        0 <= i < lists.len() && 0 <= j < lists[i].1.len() && #[trigger] lists[i].0@ == domain
            && #[trigger] lists[i].1@[j]@ == list
}

impl Preferences {
    /// Whether the session can see the list.
    pub fn has_list_access(&self, list: &ListAddress) -> (r: bool)
        ensures
            r == spec_has_list_access(self.lists@, list.list@, list.domain@),
    {
        let mut i: usize = 0;
        while i < self.lists.len()
            invariant
                0 <= i <= self.lists.len(),
                forall|a: int, b: int|
                    0 <= a < i && 0 <= b < self.lists@[a].1.len() ==> !(#[trigger] self.lists@[a].0@ == list.domain@
                        && #[trigger] self.lists@[a].1@[b]@ == list.list@),
            decreases self.lists.len() - i,
        {
            if str_eq(self.lists[i].0.as_str(), list.domain.as_str()) {
                let names = &self.lists[i].1;
                let mut j: usize = 0;
                while j < names.len()
                    invariant
                        0 <= i < self.lists.len(),
                        names == self.lists@[i as int].1,
                        self.lists@[i as int].0@ == list.domain@,
                        0 <= j <= names.len(),
                        forall|b: int| 0 <= b < j ==> !(#[trigger] names@[b]@ == list.list@),
                    decreases names.len() - j,
                {
                    if str_eq(names[j].as_str(), list.list.as_str()) {
                        return true;
                    }
                    j = j + 1;
                }
            }
            i = i + 1;
        }
        false
    }
}

/// Whether some list of the first `k` groups of the domain `d` is named `l`.
pub open spec fn listed_before(lists: Seq<(String, Vec<String>)>, k: int, l: Seq<char>, d: Seq<char>) -> bool {
    exists|i: int, j: int|
        0 <= i < k && 0 <= j < lists[i].1.len() && #[trigger] lists[i].0@ == d && #[trigger] lists[i].1@[j]@ == l
}

/// Whether one of the groups is that of the domain `d`.
fn has_domain(groups: &Vec<(String, Vec<String>)>, d: &str) -> (r: bool)
    ensures
        r == exists|k: int| 0 <= k < groups.len() && (#[trigger] groups@[k]).0@ == d@,
{
    let mut k: usize = 0;
    while k < groups.len()
        invariant
            0 <= k <= groups.len(),
            forall|a: int| 0 <= a < k ==> (#[trigger] groups@[a]).0@ != d@,
        decreases groups.len() - k,
    {
        if str_eq(groups[k].0.as_str(), d) {
            return true;
        }
        k = k + 1;
    }
    false
}

/// The names of the lists of the domain `d`, gathered from every group of
/// that domain, each once, in the order they first come.
fn names_of_domain(lists: &Vec<(String, Vec<String>)>, d: &str) -> (r: Vec<String>)
    ensures
        distinct_strings(r@),
        forall|l: Seq<char>| #[trigger] holds_string(r@, l) == spec_has_list_access(lists@, l, d@),
{
    let mut out: Vec<String> = Vec::new();
    let mut i: usize = 0;
    while i < lists.len()
        invariant
            0 <= i <= lists.len(),
            distinct_strings(out@),
            forall|l: Seq<char>| #[trigger] holds_string(out@, l) == listed_before(lists@, i as int, l, d@),
        decreases lists.len() - i,
    {
        if str_eq(lists[i].0.as_str(), d) {
            let names = &lists[i].1;
            let mut j: usize = 0;
            while j < names.len()
                invariant
                    0 <= i < lists.len(),
                    names == lists@[i as int].1,
                    lists@[i as int].0@ == d@,
                    0 <= j <= names.len(),
                    distinct_strings(out@),
                    forall|l: Seq<char>| #[trigger] holds_string(out@, l) == (listed_before(lists@, i as int, l, d@)
                        || exists|b: int| 0 <= b < j && (#[trigger] names@[b])@ == l),
                decreases names.len() - j,
            {
                let ghost before = out@;
                if !contains_str(&out, names[j].as_str()) {
                    out.push(names[j].clone());
                }
                proof {
                    assert forall|l: Seq<char>| #[trigger] holds_string(out@, l) == (listed_before(lists@, i as int, l, d@)
                        || exists|b: int| 0 <= b < j + 1 && (#[trigger] names@[b])@ == l) by {
                        if holds_string(out@, l) {
                            let b = choose|b: int| 0 <= b < out@.len() && (#[trigger] out@[b])@ == l;
                            if b < before.len() {
                                assert(holds_string(before, l));
                            } else {
                                assert(names@[j as int]@ == l);
                            }
                        }
                        if exists|b: int| 0 <= b < j + 1 && (#[trigger] names@[b])@ == l {
                            let b = choose|b: int| 0 <= b < j + 1 && (#[trigger] names@[b])@ == l;
                            if b < j {
                                assert(holds_string(before, l));
                                let c = choose|c: int| 0 <= c < before.len() && (#[trigger] before[c])@ == l;
                                assert(out@[c] == before[c]);
                            } else if out@.len() > before.len() {
                                assert(out@[before.len() as int]@ == l);
                            } else {
                                let c = choose|c: int| 0 <= c < out@.len() && (#[trigger] out@[c])@ == names@[j as int]@;
                                assert(out@[c]@ == l);
                            }
                        }
                        if listed_before(lists@, i as int, l, d@) {
                            assert(holds_string(before, l));
                            let c = choose|c: int| 0 <= c < before.len() && (#[trigger] before[c])@ == l;
                            assert(out@[c] == before[c]);
                        }
                    }
                }
                j = j + 1;
            }
            proof {
                assert forall|l: Seq<char>| #[trigger] holds_string(out@, l) == listed_before(lists@, i + 1, l, d@) by {
                    if listed_before(lists@, i + 1, l, d@) {
                        let (a, b) = choose|a: int, b: int|
                            0 <= a < i + 1 && 0 <= b < lists@[a].1.len() && #[trigger] lists@[a].0@ == d@
                                && #[trigger] lists@[a].1@[b]@ == l;
                        if a < i {
                            assert(listed_before(lists@, i as int, l, d@));
                        } else {
                            assert(names@[b]@ == l);
                        }
                    }
                    if exists|b: int| 0 <= b < names.len() && (#[trigger] names@[b])@ == l {
                        let b = choose|b: int| 0 <= b < names.len() && (#[trigger] names@[b])@ == l;
                        assert(lists@[i as int].1@[b]@ == l);
                    }
                    if listed_before(lists@, i as int, l, d@) {
                        let (a, b) = choose|a: int, b: int|
                            0 <= a < i && 0 <= b < lists@[a].1.len() && #[trigger] lists@[a].0@ == d@
                                && #[trigger] lists@[a].1@[b]@ == l;
                        assert(lists@[a].0@ == d@ && lists@[a].1@[b]@ == l);
                    }
                }
            }
        } else {
            proof {
                assert forall|l: Seq<char>| #[trigger] holds_string(out@, l) == listed_before(lists@, i + 1, l, d@) by {
                    if listed_before(lists@, i + 1, l, d@) {
                        let (a, b) = choose|a: int, b: int|
                            0 <= a < i + 1 && 0 <= b < lists@[a].1.len() && #[trigger] lists@[a].0@ == d@
                                && #[trigger] lists@[a].1@[b]@ == l;
                        assert(a < i);
                        assert(listed_before(lists@, i as int, l, d@));
                    }
                    if listed_before(lists@, i as int, l, d@) {
                        let (a, b) = choose|a: int, b: int|
                            0 <= a < i && 0 <= b < lists@[a].1.len() && #[trigger] lists@[a].0@ == d@
                                && #[trigger] lists@[a].1@[b]@ == l;
                        assert(lists@[a].0@ == d@ && lists@[a].1@[b]@ == l);
                    }
                }
            }
        }
        i = i + 1;
    }
    proof {
        assert forall|l: Seq<char>| #[trigger] holds_string(out@, l) == spec_has_list_access(lists@, l, d@) by {
            if spec_has_list_access(lists@, l, d@) {
                let (a, b) = choose|a: int, b: int|
                    0 <= a < lists@.len() && 0 <= b < lists@[a].1.len() && #[trigger] lists@[a].0@ == d@
                        && #[trigger] lists@[a].1@[b]@ == l;
                assert(listed_before(lists@, lists@.len() as int, l, d@));
            }
            if listed_before(lists@, lists@.len() as int, l, d@) {
                let (a, b) = choose|a: int, b: int|
                    0 <= a < lists@.len() && 0 <= b < lists@[a].1.len() && #[trigger] lists@[a].0@ == d@
                        && #[trigger] lists@[a].1@[b]@ == l;
                assert(spec_has_list_access(lists@, l, d@));
            }
        }
    }
    out
}

impl Preferences {
    /// Preferences from the login and the lists grouped by domain as they
    /// came: groups of one domain are merged into one, and a list named twice
    /// in a domain is kept once, so that no domain and no list of a domain
    /// occurs twice. The session sees exactly the lists it saw before.
    pub fn new(login: Login, lists: Vec<(String, Vec<String>)>) -> (r: Preferences)
        ensures
            r.login == login,
            r.well_formed(),
            forall|l: Seq<char>, d: Seq<char>|
                #[trigger] spec_has_list_access(r.lists@, l, d) == spec_has_list_access(lists@, l, d),
    {
        let mut out: Vec<(String, Vec<String>)> = Vec::new();
        let mut i: usize = 0;
        while i < lists.len()
            invariant
                0 <= i <= lists.len(),
                forall|a: int, b: int| 0 <= a < b < out@.len() ==> (#[trigger] out@[a]).0@ != (#[trigger] out@[b]).0@,
                forall|k: int| 0 <= k < out@.len() ==> distinct_strings(#[trigger] out@[k].1@),
                forall|k: int, l: Seq<char>|
                    0 <= k < out@.len() ==> #[trigger] holds_string(out@[k].1@, l) == spec_has_list_access(
                        lists@,
                        l,
                        out@[k].0@,
                    ),
                forall|t: int| 0 <= t < i ==> exists|k: int| 0 <= k < out@.len() && (#[trigger] out@[k]).0@ == (
                    #[trigger] lists@[t]).0@,
            decreases lists.len() - i,
        {
            let d = &lists[i].0;
            let ghost before = out@;
            if !has_domain(&out, d.as_str()) {
                let names = names_of_domain(&lists, d.as_str());
                out.push((d.clone(), names));
                proof {
                    assert(out@[before.len() as int].0@ == d@);
                    assert forall|t: int| 0 <= t < i + 1 implies exists|k: int|
                        0 <= k < out@.len() && (#[trigger] out@[k]).0@ == (#[trigger] lists@[t]).0@ by {
                        if t < i {
                            let k = choose|k: int| 0 <= k < before.len() && (#[trigger] before[k]).0@ == lists@[t].0@;
                            assert(out@[k] == before[k]);
                        } else {
                            assert(out@[before.len() as int].0@ == lists@[t].0@);
                        }
                    }
                }
            } else {
                proof {
                    let k = choose|k: int| 0 <= k < out@.len() && (#[trigger] out@[k]).0@ == d@;
                    assert(out@[k].0@ == lists@[i as int].0@);
                }
            }
            i = i + 1;
        }
        proof {
            assert forall|l: Seq<char>, d: Seq<char>|
                #[trigger] spec_has_list_access(out@, l, d) == spec_has_list_access(lists@, l, d) by {
                if spec_has_list_access(out@, l, d) {
                    let (k, b) = choose|k: int, b: int|
                        0 <= k < out@.len() && 0 <= b < out@[k].1.len() && #[trigger] out@[k].0@ == d
                            && #[trigger] out@[k].1@[b]@ == l;
                    assert(holds_string(out@[k].1@, l));
                }
                if spec_has_list_access(lists@, l, d) {
                    let (a, b) = choose|a: int, b: int|
                        0 <= a < lists@.len() && 0 <= b < lists@[a].1.len() && #[trigger] lists@[a].0@ == d
                            && #[trigger] lists@[a].1@[b]@ == l;
                    let k = choose|k: int| 0 <= k < out@.len() && (#[trigger] out@[k]).0@ == (#[trigger] lists@[a]).0@;
                    assert(holds_string(out@[k].1@, l));
                    let c = choose|c: int| 0 <= c < out@[k].1@.len() && (#[trigger] out@[k].1@[c])@ == l;
                    assert(out@[k].0@ == d && out@[k].1@[c]@ == l);
                }
            }
        }
        Preferences { login, lists: out }
    }
}

/// The `emails` part of a `stats.lua` answer.
#[derive(Debug, Clone)]
pub struct StatsResponse {
    pub emails: Vec<EmailSummary>,
}

/// One email of a list or search result.
#[derive(Debug, Clone)]
pub struct EmailSummary {
    pub id: String,
    pub mid: Option<String>,
    pub subject: String,
    pub from: String,
    pub epoch: Option<i64>,
    pub list_name: Option<String>,
}

/// One archived email.
#[derive(Debug, Clone)]
pub struct Email {
    pub id: String,
    pub mid: Option<String>,
    pub subject: String,
    pub from: String,
    pub date: Option<String>,
    pub epoch: Option<i64>,
    pub list_name: Option<String>,
    pub body: String,
    pub message_id: Option<String>,
    pub in_reply_to: Option<String>,
    pub references: Option<String>,
}

/// A thread: its root email and the emails it holds.
#[derive(Debug, Clone)]
pub struct ThreadResponse {
    pub thread: Email,
    pub emails: Vec<Email>,
}

/// The Pony Mail id: the `mid` field when there is one, else `id`.
pub open spec fn spec_mid(id: String, mid: Option<String>) -> Seq<char> {
    match mid {
        Some(m) => m@,
        None => id@,
    }
}

/// A header value as a lookup key: trimmed, and absent when empty.
pub open spec fn spec_key(v: Option<String>) -> Option<Seq<char>> {
    match v {
        Some(s) => if trim(s@).len() > 0 {
            Some(trim(s@))
        } else {
            None
        },
        None => None,
    }
}

/// A timestamp as `YYYY-MM-DD HH:MM` in UTC, or `-` when there is none or it
/// is out of range.
pub open spec fn epoch_text(epoch: Option<i64>) -> Seq<char> {
    match epoch {
        Some(e) => match utc_minute_text(e) {
            Some(t) => t,
            None => "-"@,
        },
        None => "-"@,
    }
}

/// The date an email shows: its `date` field, else its timestamp.
pub open spec fn email_date_text(e: Email) -> Seq<char> {
    match e.date {
        Some(d) => d@,
        None => epoch_text(e.epoch),
    }
}

/// An optional string as an optional character sequence.
pub open spec fn opt_view(o: Option<&str>) -> Option<Seq<char>> {
    match o {
        Some(s) => Some(s@),
        None => None,
    }
}

impl EmailSummary {
    /// The Pony Mail id.
    pub fn mid(&self) -> (r: &str)
        ensures
            r@ == spec_mid(self.id, self.mid),
    {
        match &self.mid {
            Some(m) => m.as_str(),
            None => self.id.as_str(),
        }
    }

    /// The date, as `YYYY-MM-DD HH:MM` or `-`.
    pub fn formatted_date(&self) -> (r: String)
        ensures
            r@ == epoch_text(self.epoch),
    {
        format_epoch(self.epoch)
    }
}

impl Email {
    /// The Pony Mail id.
    pub fn mid(&self) -> (r: &str)
        ensures
            r@ == spec_mid(self.id, self.mid),
    {
        match &self.mid {
            Some(m) => m.as_str(),
            None => self.id.as_str(),
        }
    }

    /// The `Message-ID`, trimmed, when it is not empty.
    pub fn message_id_key(&self) -> (r: Option<&str>)
        ensures
            opt_view(r) == spec_key(self.message_id),
    {
        non_empty(&self.message_id)
    }

    /// The `In-Reply-To`, trimmed, when it is not empty.
    pub fn in_reply_to_key(&self) -> (r: Option<&str>)
        ensures
            opt_view(r) == spec_key(self.in_reply_to),
    {
        non_empty(&self.in_reply_to)
    }

    /// The date: the `date` field, else the timestamp as `YYYY-MM-DD HH:MM` or `-`.
    pub fn formatted_date(&self) -> (r: String)
        ensures
            r@ == email_date_text(*self),
    {
        match &self.date {
            Some(d) => d.clone(),
            None => format_epoch(self.epoch),
        }
    }
}

/// The trimmed value, when there is one and it is not empty.
fn non_empty(value: &Option<String>) -> (r: Option<&str>)
    ensures
        opt_view(r) == spec_key(*value),
{
    match value {
        Some(v) => {
            let s = v.as_str();
            let c = chars_of(s);
            let (a, b) = trim_span(&c, 0, c.len());
            proof {
                assert(c@.subrange(0, c.len() as int) =~= s@);
            }
            if a == b {
                None
            } else {
                Some(s.substring_char(a, b))
            }
        },
        None => None,
    }
}

/// A timestamp as `YYYY-MM-DD HH:MM` in UTC, or `-`.
pub fn format_epoch(epoch: Option<i64>) -> (r: String)
    ensures
        r@ == epoch_text(epoch),
{
    match epoch {
        Some(e) => date_or_dash(format_utc_minute(e)),
        None => date_or_dash(None),
    }
}

/// The text shown for a formatted time: the time itself, or `-` when there is none.
pub fn date_or_dash(formatted: Option<String>) -> (r: String)
    ensures
        r@ == match formatted {
            Some(t) => t@,
            None => "-"@,
        },
{
    match formatted {
        Some(t) => t,
        None => String::from_str("-"),
    }
}

} // verus!
