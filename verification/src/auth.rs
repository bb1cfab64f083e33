//! Session decisions: whether the archive accepts the session, who is logged
//! in, whether a list is visible, and which session store is used.
use vstd::prelude::*;

use crate::error::Error;
use crate::models::{
    address_text, spec_has_list_access, spec_parse_list_address, ListAddress, LoginCredentials,
    Preferences, Session, SessionStore,
};

verus! {

/// The name a user is shown by: the full name, else the name, else the uid.
pub open spec fn display_name(c: LoginCredentials) -> Seq<char> {
    match c.fullname {
        Some(f) => f@,
        None => match c.name {
            Some(n) => n@,
            None => c.uid@,
        },
    }
}

/// How a logged-in user is described: `name <email>`, or the name alone
/// when there is no email address.
pub open spec fn user_label(c: LoginCredentials) -> Seq<char> {
    match c.email {
        Some(e) => if e@.len() > 0 {
            display_name(c) + " <"@ + e@ + ">"@
        } else {
            display_name(c)
        },
        None => display_name(c),
    }
}

/// Checks the session against the preferences the archive returned for it:
/// without credentials the session is invalid; with a list, the list must be
/// visible to the session. Gives the description of the logged-in user.
pub fn validate_session(prefs: &Preferences, list: Option<&ListAddress>) -> (r: Result<String, Error>)
    ensures
        match r {
            Ok(u) => (prefs.login.credentials matches Some(c) && u@ == user_label(c)) && (list matches Some(l)
                ==> spec_has_list_access(prefs.lists@, l.list@, l.domain@)),
            Err(Error::InvalidSession) => prefs.login.credentials is None,
            Err(Error::NoListAccess(m)) => prefs.login.credentials is Some && (list matches Some(l)
                && !spec_has_list_access(prefs.lists@, l.list@, l.domain@) && m@ == address_text(l.list@, l.domain@)),
            Err(_) => false,
        },
{
    let login = match &prefs.login.credentials {
        Some(c) => c,
        None => return Err(Error::InvalidSession),
    };
    if let Some(list) = list {
        if !prefs.has_list_access(list) {
            return Err(Error::NoListAccess(list.to_text()));
        }
    }
    let name = match &login.fullname {
        Some(f) => f,
        None => match &login.name {
            Some(n) => n,
            None => &login.uid,
        },
    };
    let mut label = name.clone();
    match &login.email {
        Some(email) => {
            if email.as_str().unicode_len() > 0 {
                label.append(" <");
                label.append(email.as_str());
                label.append(">");
            }
        },
        None => {},
    }
    Ok(label)
}

/// The session to keep after it was set, with the description of its user:
/// a session is handed back for storing only when the archive accepts it.
pub fn accept_session(prefs: &Preferences, session: Session) -> (r: Result<(Session, String), Error>)
    ensures
        match r {
            Ok((s, u)) => s == session && (prefs.login.credentials matches Some(c) && u@ == user_label(c)),
            Err(Error::InvalidSession) => prefs.login.credentials is None,
            Err(_) => false,
        },
{
    match validate_session(prefs, None) {
        Ok(user) => Ok((session, user)),
        Err(e) => Err(e),
    }
}

/// Decides whether a list may be read with the session: it must be among the
/// lists the session sees. A hidden list named `private` asked for without a
/// login means that a session is needed; any other hidden list, and every
/// hidden list of a logged-in session, is reported as not visible.
pub fn check_list_access(prefs: &Preferences, list: &ListAddress) -> (r: Result<(), Error>)
    ensures
        match r {
            Ok(()) => spec_has_list_access(prefs.lists@, list.list@, list.domain@),
            Err(Error::NoSession) => !spec_has_list_access(prefs.lists@, list.list@, list.domain@)
                && list.list@ == "private"@ && prefs.login.credentials is None,
            Err(Error::NoListAccess(m)) => !spec_has_list_access(prefs.lists@, list.list@, list.domain@)
                && (list.list@ != "private"@ || prefs.login.credentials is Some)
                && m@ == address_text(list.list@, list.domain@),
            Err(_) => false,
        },
{
    if prefs.has_list_access(list) {
        return Ok(());
    }
    if prefs.login.credentials.is_none() && crate::text::str_eq(list.list.as_str(), "private") {
        return Err(Error::NoSession);
    }
    Err(Error::NoListAccess(list.to_text()))
}

/// Parses the list address that may come with a command.
pub fn parse_optional_list(list: Option<String>) -> (r: Result<Option<ListAddress>, Error>)
    ensures
        match list {
            None => r matches Ok(None),
            Some(s) => match r {
                Ok(Some(a)) => spec_parse_list_address(s@) == Some((a.list@, a.domain@)),
                Err(Error::InvalidListAddress(m)) => spec_parse_list_address(s@) is None && m@ == s@,
                _ => false,
            },
        },
{
    match list {
        None => Ok(None),
        Some(s) => match ListAddress::parse(s.as_str()) {
            Ok(a) => Ok(Some(a)),
            Err(e) => Err(e),
        },
    }
}

/// The store a name stands for: `keyring` or `file`.
pub open spec fn named_store(v: Option<&str>) -> Option<SessionStore> {
    match v {
        Some(v) => if v@ == "keyring"@ {
            Some(SessionStore::Keyring)
        } else if v@ == "file"@ {
            Some(SessionStore::File)
        } else {
            None
        },
        None => None,
    }
}

/// The store named by the `ASFML_SESSION_STORE` value: `keyring` or `file`.
pub fn store_from_env(value: Option<&str>) -> (r: Option<SessionStore>)
    ensures
        r == named_store(value),
{
    match value {
        Some(v) => if crate::text::str_eq(v, "keyring") {
            Some(SessionStore::Keyring)
        } else if crate::text::str_eq(v, "file") {
            Some(SessionStore::File)
        } else {
            None
        },
        None => None,
    }
}

/// The store used when none is asked for: the file store when the default
/// session file exists, else the keyring.
pub fn default_session_store(session_file_exists: bool) -> (r: SessionStore)
    ensures
        r == (if session_file_exists { SessionStore::File } else { SessionStore::Keyring }),
{
    if session_file_exists {
        SessionStore::File
    } else {
        SessionStore::Keyring
    }
}

/// The store a command uses: the one asked for on the command line, else the
/// one the environment names, else the default.
pub fn resolve_store(asked: Option<SessionStore>, env_value: Option<&str>, session_file_exists: bool) -> (r: SessionStore)
    ensures
        r == (match asked {
            Some(s) => s,
            None => match named_store(env_value) {
                Some(s) => s,
                None => if session_file_exists { SessionStore::File } else { SessionStore::Keyring },
            },
        }),
{
    match asked {
        Some(s) => s,
        None => match store_from_env(env_value) {
            Some(s) => s,
            None => default_session_store(session_file_exists),
        },
    }
}

/// The name of the temporary file a session file is first written to:
/// `.<file name>.tmp`, with `session.json` when the path has no usable name.
pub fn temp_session_file_name(file_name: Option<&str>) -> (r: String)
    ensures
        r@ == "."@ + (match file_name {
            Some(n) => n@,
            None => "session.json"@,
        }) + ".tmp"@,
{
    let mut r = String::from_str(".");
    match file_name {
        Some(n) => r.append(n),
        None => r.append("session.json"),
    }
    r.append(".tmp");
    r
}

} // verus!
