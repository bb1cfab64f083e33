//! The requests the Pony Mail API client makes, and what it does with the
//! answers: endpoints, query parameters, the request URL, the session cookie,
//! the result limit and the check that an email was found.
use vstd::prelude::*;

use crate::auth::check_list_access;
use crate::error::Error;
use crate::external::{join_url, joined_url, parse_url, parsed_url, url_error_text, url_with_params, url_with_query};
use crate::models::{address_text, spec_has_list_access, Email, EmailSummary, ListAddress, Preferences, Session};
use crate::text::str_eq;

verus! {

/// The archive the client reads.
pub const DEFAULT_BASE: &'static str = "https://lists.apache.org/";

/// One request to the API: the endpoint's name (for error messages), the URL
/// and the `Cookie` header, when there is a session.
#[derive(Debug)]
pub struct ApiRequest {
    pub endpoint: &'static str,
    pub url: String,
    pub cookie: Option<String>,
}

/// A Pony Mail API client: the base URL of the archive and the session, if any.
#[derive(Debug)]
pub struct PonyMailClient {
    pub base: String,
    pub session: Option<Session>,
}

/// The URL of a request: the path joined to the base, with the query pairs appended.
pub open spec fn request_url(base: Seq<char>, path: Seq<char>, params: Seq<(Seq<char>, Seq<char>)>) -> Option<Seq<char>> {
    match joined_url(base, path) {
        Some(j) => url_with_query(j, params),
        None => None,
    }
}

/// The `Cookie` header that carries a session.
pub open spec fn cookie_header(session: Option<Session>) -> Option<Seq<char>> {
    match session {
        Some(s) => Some("ponymail="@ + s.ponymail@),
        None => None,
    }
}

/// The short name of an API path, for messages.
pub open spec fn spec_endpoint_name(path: Seq<char>) -> Seq<char> {
    if path == "api/preferences.lua"@ {
        "preferences.lua"@
    } else if path == "api/stats.lua"@ {
        "stats.lua"@
    } else if path == "api/email.lua"@ {
        "email.lua"@
    } else if path == "api/thread.lua"@ {
        "thread.lua"@
    } else {
        "unknown endpoint"@
    }
}

/// The query pairs of a `stats.lua` request.
pub open spec fn spec_stats_params(list: Seq<char>, domain: Seq<char>, since: Seq<char>, query: Option<Seq<char>>) -> Seq<(Seq<char>, Seq<char>)> {
    let base = seq![
        ("list"@, list),
        ("domain"@, domain),
        ("d"@, "lte="@ + since),
        ("emailsOnly"@, "true"@),
    ];
    match query {
        Some(q) => base.push(("q"@, q)),
        None => base,
    }
}

/// Whether a request is the one for a path and query pairs.
pub open spec fn request_is(
    r: Result<ApiRequest, Error>,
    c: PonyMailClient,
    path: Seq<char>,
    params: Seq<(Seq<char>, Seq<char>)>,
) -> bool {
    match r {
        Ok(req) => {
            &&& request_url(c.base@, path, params) == Some(req.url@)
            &&& req.endpoint@ == spec_endpoint_name(path)
            &&& (match req.cookie {
                Some(h) => Some(h@),
                None => None,
            }) == cookie_header(c.session)
        },
        Err(Error::Url(_)) => request_url(c.base@, path, params) is None,
        Err(_) => false,
    }
}

/// The short name of an API path, for messages.
pub fn endpoint_name(path: &str) -> (r: &'static str)
    ensures
        r@ == spec_endpoint_name(path@),
{
    if str_eq(path, "api/preferences.lua") {
        "preferences.lua"
    } else if str_eq(path, "api/stats.lua") {
        "stats.lua"
    } else if str_eq(path, "api/email.lua") {
        "email.lua"
    } else if str_eq(path, "api/thread.lua") {
        "thread.lua"
    } else {
        "unknown endpoint"
    }
}

/// The query pairs of a `stats.lua` request: the list, its domain, the time
/// range `lte=<since>`, emails only, and the search query when there is one.
pub fn stats_params(list: &ListAddress, since: &str, query: Option<&str>) -> (r: Vec<(String, String)>)
    ensures
        r.deep_view() == spec_stats_params(list.list@, list.domain@, since@, match query {
            Some(q) => Some(q@),
            None => None,
        }),
{
    let d = String::from_str("lte=").concat(since);
    let mut params: Vec<(String, String)> = Vec::new();
    params.push((String::from_str("list"), list.list.clone()));
    params.push((String::from_str("domain"), list.domain.clone()));
    params.push((String::from_str("d"), d));
    params.push((String::from_str("emailsOnly"), String::from_str("true")));
    if let Some(q) = query {
        params.push((String::from_str("q"), String::from_str(q)));
    }
    proof {
        let expected = spec_stats_params(list.list@, list.domain@, since@, match query {
            Some(q) => Some(q@),
            None => None,
        });
        assert(params.deep_view() =~= expected);
    }
    params
}

/// At most the first `limit` results.
pub fn take_limit(emails: Vec<EmailSummary>, limit: usize) -> (r: Vec<EmailSummary>)
    ensures
        r@ == if limit <= emails.len() { emails@.take(limit as int) } else { emails@ },
{
    let mut emails = emails;
    emails.truncate(limit);
    emails
}

/// The email the archive answered for `mid`, unless the answer has no id, which
/// is how the archive says that there is no such email.
pub fn check_email_found(email: Email, mid: &str) -> (r: Result<Email, Error>)
    ensures
        match r {
            Ok(e) => e == email && email.id@.len() > 0,
            Err(Error::EmailNotFound(m)) => email.id@.len() == 0 && m@ == mid@,
            Err(_) => false,
        },
{
    if email.id.as_str().unicode_len() == 0 {
        return Err(Error::EmailNotFound(String::from_str(mid)));
    }
    Ok(email)
}

impl PonyMailClient {
    /// A client for the archive at lists.apache.org with an optional session.
    pub fn new(session: Option<Session>) -> (r: Result<PonyMailClient, Error>)
        ensures
            match r {
                Ok(c) => parsed_url(DEFAULT_BASE@) == Some(c.base@) && c.session == session,
                Err(Error::Url(_)) => parsed_url(DEFAULT_BASE@) is None,
                Err(_) => false,
            },
    {
        match parse_url(DEFAULT_BASE) {
            Ok(base) => Ok(PonyMailClient { base, session }),
            Err(e) => Err(Error::Url(url_error_text(&e))),
        }
    }

    /// The request for an API path with query pairs; the session, if any,
    /// goes in the `Cookie` header and never in the URL.
    fn request(&self, path: &str, params: &Vec<(String, String)>) -> (r: Result<ApiRequest, Error>)
        ensures
            request_is(r, *self, path@, params.deep_view()),
    {
        let joined = match join_url(self.base.as_str(), path) {
            Ok(j) => j,
            Err(e) => return Err(Error::Url(url_error_text(&e))),
        };
        let url = match url_with_params(joined.as_str(), params) {
            Ok(u) => u,
            Err(e) => return Err(Error::Url(url_error_text(&e))),
        };
        let cookie = match &self.session {
            Some(s) => Some(String::from_str("ponymail=").concat(s.ponymail.as_str())),
            None => None,
        };
        Ok(ApiRequest { endpoint: endpoint_name(path), url, cookie })
    }

    /// The request for the session's preferences.
    pub fn preferences_request(&self) -> (r: Result<ApiRequest, Error>)
        ensures
            request_is(r, *self, "api/preferences.lua"@, Seq::empty()),
    {
        let params: Vec<(String, String)> = Vec::new();
        proof {
            assert(params.deep_view() =~= Seq::<(Seq<char>, Seq<char>)>::empty());
        }
        self.request("api/preferences.lua", &params)
    }

    /// The request for recent emails of a list, or for those matching a query.
    pub fn stats_request(&self, list: &ListAddress, since: &str, query: Option<&str>) -> (r: Result<ApiRequest, Error>)
        ensures
            request_is(r, *self, "api/stats.lua"@, spec_stats_params(list.list@, list.domain@, since@, match query {
                Some(q) => Some(q@),
                None => None,
            })),
    {
        let params = stats_params(list, since, query);
        self.request("api/stats.lua", &params)
    }

    /// The request for recent emails of a list, or for those matching a query,
    /// made only when the preferences of the session show the list; otherwise
    /// the error that says why the list cannot be read.
    pub fn checked_stats_request(&self, prefs: &Preferences, list: &ListAddress, since: &str, query: Option<&str>) -> (r:
        Result<ApiRequest, Error>)
        ensures
            spec_has_list_access(prefs.lists@, list.list@, list.domain@) ==> request_is(
                r,
                *self,
                "api/stats.lua"@,
                spec_stats_params(list.list@, list.domain@, since@, match query {
                    Some(q) => Some(q@),
                    None => None,
                }),
            ),
            !spec_has_list_access(prefs.lists@, list.list@, list.domain@) ==> match r {
                Err(Error::NoSession) => list.list@ == "private"@ && prefs.login.credentials is None,
                Err(Error::NoListAccess(m)) => (list.list@ != "private"@ || prefs.login.credentials is Some)
                    && m@ == address_text(list.list@, list.domain@),
                _ => false,
            },
    {
        match check_list_access(prefs, list) {
            Ok(()) => self.stats_request(list, since, query),
            Err(e) => Err(e),
        }
    }

    /// The request for one email by its Pony Mail id.
    pub fn email_request(&self, mid: &str) -> (r: Result<ApiRequest, Error>)
        ensures
            request_is(r, *self, "api/email.lua"@, seq![("id"@, mid@)]),
    {
        let mut params: Vec<(String, String)> = Vec::new();
        params.push((String::from_str("id"), String::from_str(mid)));
        proof {
            assert(params.deep_view() =~= seq![("id"@, mid@)]);
        }
        self.request("api/email.lua", &params)
    }

    /// The request for the thread that holds an email, by its Pony Mail id.
    pub fn thread_request(&self, mid: &str) -> (r: Result<ApiRequest, Error>)
        ensures
            request_is(r, *self, "api/thread.lua"@, seq![("id"@, mid@)]),
    {
        let mut params: Vec<(String, String)> = Vec::new();
        params.push((String::from_str("id"), String::from_str(mid)));
        proof {
            assert(params.deep_view() =~= seq![("id"@, mid@)]);
        }
        self.request("api/thread.lua", &params)
    }
}

/// Law: the query pairs of a `stats.lua` request, for every list, time range
/// and query: the list's name, its domain, the range as `lte=` followed by
/// exactly the `since` value the caller gave, emails only, and the search
/// query last when there is one.
pub proof fn law_stats_params_carry_the_arguments(
    list: Seq<char>,
    domain: Seq<char>,
    since: Seq<char>,
    query: Option<Seq<char>>,
)
    ensures
        spec_stats_params(list, domain, since, query).len() == (if query is Some { 5int } else { 4int }),
        spec_stats_params(list, domain, since, query)[0] == ("list"@, list),
        spec_stats_params(list, domain, since, query)[1] == ("domain"@, domain),
        spec_stats_params(list, domain, since, query)[2] == ("d"@, "lte="@ + since),
        spec_stats_params(list, domain, since, query)[3] == ("emailsOnly"@, "true"@),
        query matches Some(q) ==> spec_stats_params(list, domain, since, query)[4] == ("q"@, q),
{
}

/// Law: the session never reaches the URL of a request: two clients of the
/// same archive, whatever their sessions, ask for the same URL.
pub proof fn law_session_not_in_url(
    c1: PonyMailClient,
    c2: PonyMailClient,
    path: Seq<char>,
    params: Seq<(Seq<char>, Seq<char>)>,
    r1: Result<ApiRequest, Error>,
    r2: Result<ApiRequest, Error>,
)
    requires
        c1.base@ == c2.base@,
        request_is(r1, c1, path, params),
        request_is(r2, c2, path, params),
    ensures
        r1 is Ok <==> r2 is Ok,
        r1 matches Ok(q1) ==> (r2 matches Ok(q2) && q1.url@ == q2.url@),
{
}

} // verus!
