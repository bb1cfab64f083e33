//! What the command line shows: the text of an email, of a thread, of an
//! error, and the table of email summaries.
use vstd::prelude::*;

use crate::error::{error_message, Error};
use crate::external::{
    add_table_row, load_utf8_full_preset, new_table, rendered_utf8_full_table, set_table_header, table_contents,
    table_is_plain, table_text, table_uses_utf8_full,
};
use crate::models::{email_date_text, epoch_text, spec_key, spec_mid, Email, EmailSummary, ThreadResponse};
use crate::text::{decimal, decimal_text};

verus! {

/// How lists and search results are shown.
#[derive(Debug, Clone, Copy, PartialEq, Eq, Structural)]
pub enum TableFormat {
    Table,
    Json,
}

/// How emails and threads are shown.
#[derive(Debug, Clone, Copy, PartialEq, Eq, Structural)]
pub enum ReadFormat {
    Text,
    Json,
}

/// A `label value` line when there is a value, else nothing.
pub open spec fn opt_line(label: Seq<char>, v: Option<Seq<char>>) -> Seq<char> {
    match v {
        Some(x) => label + x + "\n"@,
        None => Seq::empty(),
    }
}

/// An optional string as an optional character sequence.
pub open spec fn opt_string(v: Option<String>) -> Option<Seq<char>> {
    match v {
        Some(s) => Some(s@),
        None => None,
    }
}

/// A body as printed: followed by a newline unless it already ends with one.
pub open spec fn body_text(body: Seq<char>) -> Seq<char> {
    if body.len() > 0 && body.last() == '\n' {
        body
    } else {
        body + "\n"@
    }
}

/// The text of an email: its headers, a blank line, and its body.
pub open spec fn spec_email_text(e: Email) -> Seq<char> {
    "Subject: "@ + e.subject@ + "\n"@
        + "From: "@ + e.from@ + "\n"@
        + "Date: "@ + email_date_text(e) + "\n"@
        + opt_line("List: "@, opt_string(e.list_name))
        + "MID: "@ + spec_mid(e.id, e.mid) + "\n"@
        + opt_line("Message-ID: "@, opt_string(e.message_id))
        + opt_line("In-Reply-To: "@, spec_key(e.in_reply_to))
        + "\n"@
        + body_text(e.body@)
}

/// The emails a thread shows: its listed emails, or its root email when none are listed.
pub open spec fn shown_emails(t: ThreadResponse) -> Seq<Email> {
    if t.emails@.len() == 0 {
        seq![t.thread]
    } else {
        t.emails@
    }
}

/// The text of the `i`-th of `n` emails of a thread.
pub open spec fn thread_entry(e: Email, i: nat, n: nat) -> Seq<char> {
    "["@ + decimal(i + 1) + "/"@ + decimal(n) + "] "@ + email_date_text(e) + "  "@ + e.from@ + "\n"@
        + "Subject: "@ + e.subject@ + "\n"@
        + "MID: "@ + spec_mid(e.id, e.mid) + "\n"@
        + "\n"@
        + body_text(e.body@)
        + if i + 1 != n { "\n"@ } else { Seq::empty() }
}

/// The texts of the first `k` of the emails, each numbered out of `n`.
pub open spec fn thread_entries(es: Seq<Email>, k: nat, n: nat) -> Seq<char>
    decreases k,
{
    if k == 0 {
        Seq::empty()
    } else {
        thread_entries(es, (k - 1) as nat, n) + thread_entry(es[k - 1], (k - 1) as nat, n)
    }
}

/// The text of a thread: its subject, the number of emails, and each email.
pub open spec fn spec_thread_text(t: ThreadResponse) -> Seq<char> {
    let es = shown_emails(t);
    "Thread: "@ + t.thread.subject@ + "\n"@
        + "Messages: "@ + decimal(es.len()) + "\n"@
        + "\n"@
        + thread_entries(es, es.len(), es.len())
}

/// What is printed for an error: a hint for the errors a user can act on,
/// else the error's message.
pub open spec fn spec_error_report(e: Error) -> Seq<char> {
    match e {
        Error::NoSession => "No session found.\n"@
            + "Run `asfml auth set` and paste your lists.apache.org ponymail cookie.\n"@,
        Error::InvalidSession => "Session expired or invalid.\n"@
            + "Run `asfml auth set` with a fresh cookie from lists.apache.org.\n"@,
        Error::NoListAccess(l) => "Logged in, but "@ + l@ + " is not visible to this session.\n"@,
        Error::ParentNotFound { in_reply_to } => "Parent not found in archive.\n"@
            + if in_reply_to@.len() > 0 { "In-Reply-To: "@ + in_reply_to@ + "\n"@ } else { Seq::empty() },
        Error::ApiShapeChanged { endpoint, .. } => "Pony Mail API response changed while reading "@ + endpoint@
            + ".\n"@ + "Run with `--debug` to save the raw response.\n"@,
        _ => error_message(e) + "\n"@,
    }
}

/// Appends `label value\n` when there is a value.
fn push_opt_line(out: &mut String, label: &str, v: Option<&str>)
    ensures
        final(out)@ == old(out)@ + opt_line(label@, match v {
            Some(s) => Some(s@),
            None => None,
        }),
{
    match v {
        Some(s) => {
            out.append(label);
            out.append(s);
            out.append("\n");
        },
        None => {
            assert(old(out)@ + Seq::<char>::empty() =~= old(out)@);
        },
    }
}

/// Appends a body, followed by a newline unless it already ends with one.
fn push_body(out: &mut String, body: &String)
    ensures
        final(out)@ == old(out)@ + body_text(body@),
{
    out.append(body.as_str());
    let n = body.as_str().unicode_len();
    if n == 0 || body.as_str().get_char(n - 1) != '\n' {
        out.append("\n");
    }
}

/// The text of an email: subject, sender, date, list, ids, and the body.
pub fn email_text(email: &Email) -> (r: String)
    ensures
        r@ == spec_email_text(*email),
{
    let mut out = String::from_str("Subject: ");
    out.append(email.subject.as_str());
    out.append("\nFrom: ");
    out.append(email.from.as_str());
    out.append("\nDate: ");
    let date = email.formatted_date();
    out.append(date.as_str());
    out.append("\n");
    proof {
        reveal_strlit("\nFrom: ");
        reveal_strlit("\nDate: ");
        reveal_strlit("\n");
        reveal_strlit("From: ");
        reveal_strlit("Date: ");
    }
    push_opt_line(&mut out, "List: ", match &email.list_name {
        Some(l) => Some(l.as_str()),
        None => None,
    });
    out.append("MID: ");
    out.append(email.mid());
    out.append("\n");
    push_opt_line(&mut out, "Message-ID: ", match &email.message_id {
        Some(m) => Some(m.as_str()),
        None => None,
    });
    push_opt_line(&mut out, "In-Reply-To: ", email.in_reply_to_key());
    out.append("\n");
    push_body(&mut out, &email.body);
    proof {
        assert(out@ =~= spec_email_text(*email));
    }
    out
}

/// The text of the `i`-th of `n` emails of a thread.
fn thread_entry_text(e: &Email, i: usize, n: usize) -> (r: String)
    requires
        i < n,
    ensures
        r@ == thread_entry(*e, i as nat, n as nat),
{
    let mut out = String::from_str("[");
    let number = decimal_text(i + 1);
    out.append(number.as_str());
    out.append("/");
    let total = decimal_text(n);
    out.append(total.as_str());
    out.append("] ");
    let date = e.formatted_date();
    out.append(date.as_str());
    out.append("  ");
    out.append(e.from.as_str());
    out.append("\n");
    out.append("Subject: ");
    out.append(e.subject.as_str());
    out.append("\n");
    out.append("MID: ");
    out.append(e.mid());
    out.append("\n");
    out.append("\n");
    push_body(&mut out, &e.body);
    if i + 1 != n {
        out.append("\n");
    } else {
        assert(out@ + Seq::<char>::empty() =~= out@);
    }
    proof {
        assert(out@ =~= thread_entry(*e, i as nat, n as nat));
    }
    out
}

/// The text of a thread: its subject, the number of emails, and each email numbered.
pub fn thread_text(thread: &ThreadResponse) -> (r: String)
    ensures
        r@ == spec_thread_text(*thread),
{
    let single = thread.emails.len() == 0;
    let n: usize = if single { 1 } else { thread.emails.len() };
    let ghost es = shown_emails(*thread);
    let mut out = String::from_str("Thread: ");
    out.append(thread.thread.subject.as_str());
    out.append("\nMessages: ");
    let count = decimal_text(n);
    out.append(count.as_str());
    out.append("\n\n");
    proof {
        reveal_strlit("\nMessages: ");
        reveal_strlit("Messages: ");
        reveal_strlit("\n\n");
        reveal_strlit("\n");
        assert(out@ =~= "Thread: "@ + thread.thread.subject@ + "\n"@ + "Messages: "@ + decimal(es.len()) + "\n"@ + "\n"@);
    }
    let ghost head = out@;
    let mut i: usize = 0;
    while i < n
        invariant
            es == shown_emails(*thread),
            n == es.len(),
            single == (thread.emails.len() == 0),
            0 <= i <= n,
            out@ == head + thread_entries(es, i as nat, n as nat),
        decreases n - i,
    {
        let e: &Email = if single { &thread.thread } else { &thread.emails[i] };
        proof {
            assert(*e == es[i as int]);
        }
        let entry = thread_entry_text(e, i, n);
        out.append(entry.as_str());
        proof {
            assert(thread_entries(es, (i + 1) as nat, n as nat) == thread_entries(es, i as nat, n as nat)
                + thread_entry(es[i as int], i as nat, n as nat));
        }
        i = i + 1;
    }
    proof {
        assert(out@ =~= spec_thread_text(*thread));
    }
    out
}

/// Whether two emails agree on everything but their bodies.
pub open spec fn same_but_body(a: Email, b: Email) -> bool {
    &&& a.id == b.id
    &&& a.mid == b.mid
    &&& a.subject == b.subject
    &&& a.from == b.from
    &&& a.date == b.date
    &&& a.epoch == b.epoch
    &&& a.list_name == b.list_name
    &&& a.message_id == b.message_id
    &&& a.in_reply_to == b.in_reply_to
    &&& a.references == b.references
}

/// What follows a body when it is shown: a newline, unless the body already
/// ends with one.
pub open spec fn closing_newline(body: Seq<char>) -> Seq<char> {
    if body.len() > 0 && body[body.len() - 1] == '\n' {
        Seq::empty()
    } else {
        seq!['\n']
    }
}

proof fn lemma_body_text(body: Seq<char>)
    ensures
        body_text(body) == body + closing_newline(body),
{
    reveal_strlit("\n");
    if body.len() > 0 && body.last() == '\n' {
        assert(body + Seq::<char>::empty() =~= body);
    } else {
        assert("\n"@ =~= seq!['\n']);
    }
}

/// Law: the text of an email ends with its whole body after a blank line,
/// followed by a newline only when the body does not end with one; two emails
/// that differ only in their bodies are shown with the same text before it.
pub proof fn law_email_text_shows_whole_body(e1: Email, e2: Email)
    requires
        same_but_body(e1, e2),
    ensures
        exists|h: Seq<char>| {
            &&& spec_email_text(e1) == h + "\n"@ + e1.body@ + closing_newline(e1.body@)
            &&& spec_email_text(e2) == h + "\n"@ + e2.body@ + closing_newline(e2.body@)
        },
{
    let h = "Subject: "@ + e1.subject@ + "\n"@
        + "From: "@ + e1.from@ + "\n"@
        + "Date: "@ + email_date_text(e1) + "\n"@
        + opt_line("List: "@, opt_string(e1.list_name))
        + "MID: "@ + spec_mid(e1.id, e1.mid) + "\n"@
        + opt_line("Message-ID: "@, opt_string(e1.message_id))
        + opt_line("In-Reply-To: "@, spec_key(e1.in_reply_to));
    lemma_body_text(e1.body@);
    lemma_body_text(e2.body@);
    assert(spec_email_text(e1) =~= h + "\n"@ + e1.body@ + closing_newline(e1.body@));
    assert(spec_email_text(e2) =~= h + "\n"@ + e2.body@ + closing_newline(e2.body@));
}

/// Law: each entry of a thread shows the email's whole body right after its
/// `MID:` line and a blank line, closed by a newline when the body lacks one,
/// and then the blank line that separates it from the next entry; two emails
/// that differ only in their bodies get the same text before the body.
pub proof fn law_thread_entry_shows_whole_body(e1: Email, e2: Email, i: nat, n: nat)
    requires
        same_but_body(e1, e2),
    ensures
        exists|h: Seq<char>| {
            &&& thread_entry(e1, i, n) == h + "MID: "@ + spec_mid(e1.id, e1.mid) + "\n\n"@ + e1.body@
                + closing_newline(e1.body@) + (if i + 1 != n { "\n"@ } else { Seq::empty() })
            &&& thread_entry(e2, i, n) == h + "MID: "@ + spec_mid(e2.id, e2.mid) + "\n\n"@ + e2.body@
                + closing_newline(e2.body@) + (if i + 1 != n { "\n"@ } else { Seq::empty() })
        },
{
    let h = "["@ + decimal(i + 1) + "/"@ + decimal(n) + "] "@ + email_date_text(e1) + "  "@ + e1.from@ + "\n"@
        + "Subject: "@ + e1.subject@ + "\n"@;
    reveal_strlit("\n\n");
    reveal_strlit("\n");
    assert("\n\n"@ =~= "\n"@ + "\n"@);
    lemma_body_text(e1.body@);
    lemma_body_text(e2.body@);
    let sep = if i + 1 != n { "\n"@ } else { Seq::<char>::empty() };
    assert(thread_entry(e1, i, n) =~= h + "MID: "@ + spec_mid(e1.id, e1.mid) + "\n\n"@ + e1.body@
        + closing_newline(e1.body@) + sep);
    assert(thread_entry(e2, i, n) =~= h + "MID: "@ + spec_mid(e2.id, e2.mid) + "\n\n"@ + e2.body@
        + closing_newline(e2.body@) + sep);
}

/// The entries from the `k`-th on extend those before it, starting with the `k`-th.
proof fn lemma_entries_extend(es: Seq<Email>, k: nat, m: nat, n: nat)
    requires
        k < m,
    ensures
        exists|b: Seq<char>| thread_entries(es, m, n) == thread_entries(es, k, n) + thread_entry(es[k as int], k, n) + b,
    decreases m,
{
    if m == k + 1 {
        assert(thread_entries(es, m, n) =~= thread_entries(es, k, n) + thread_entry(es[k as int], k, n) + Seq::<char>::empty());
    } else {
        lemma_entries_extend(es, k, (m - 1) as nat, n);
        let b = choose|b: Seq<char>| thread_entries(es, (m - 1) as nat, n) == thread_entries(es, k, n) + thread_entry(es[k as int], k, n) + b;
        let b2 = b + thread_entry(es[m - 1], (m - 1) as nat, n);
        assert(thread_entries(es, m, n) =~= thread_entries(es, k, n) + thread_entry(es[k as int], k, n) + b2);
    }
}

/// Law: the text of a thread starts with its subject and the number of
/// emails it shows, and holds the entry of every one of those emails,
/// numbered by its place, each after the entries of the emails before it.
pub proof fn law_thread_text_shows_every_email(t: ThreadResponse, k: nat)
    requires
        k < shown_emails(t).len(),
    ensures
        exists|a: Seq<char>, b: Seq<char>| {
            &&& spec_thread_text(t) == a + thread_entry(shown_emails(t)[k as int], k, shown_emails(t).len()) + b
            &&& a == "Thread: "@ + t.thread.subject@ + "\n"@ + "Messages: "@ + decimal(shown_emails(t).len()) + "\n"@ + "\n"@
                + thread_entries(shown_emails(t), k, shown_emails(t).len())
        },
{
    let es = shown_emails(t);
    let n = es.len();
    lemma_entries_extend(es, k, n, n);
    let b = choose|b: Seq<char>| thread_entries(es, n, n) == thread_entries(es, k, n) + thread_entry(es[k as int], k, n) + b;
    let a = "Thread: "@ + t.thread.subject@ + "\n"@ + "Messages: "@ + decimal(n) + "\n"@ + "\n"@ + thread_entries(es, k, n);
    assert(spec_thread_text(t) =~= a + thread_entry(es[k as int], k, n) + b);
}

/// What is printed for an error.
pub fn error_report(error: &Error) -> (r: String)
    ensures
        r@ == spec_error_report(*error),
{
    match error {
        Error::NoSession => String::from_str("No session found.\n").concat(
            "Run `asfml auth set` and paste your lists.apache.org ponymail cookie.\n",
        ),
        Error::InvalidSession => String::from_str("Session expired or invalid.\n").concat(
            "Run `asfml auth set` with a fresh cookie from lists.apache.org.\n",
        ),
        Error::NoListAccess(list) => {
            let mut r = String::from_str("Logged in, but ");
            r.append(list.as_str());
            r.append(" is not visible to this session.\n");
            r
        },
        Error::ParentNotFound { in_reply_to } => {
            let mut r = String::from_str("Parent not found in archive.\n");
            if in_reply_to.as_str().unicode_len() > 0 {
                r.append("In-Reply-To: ");
                r.append(in_reply_to.as_str());
                r.append("\n");
            } else {
                assert(r@ + Seq::<char>::empty() =~= r@);
            }
            r
        },
        Error::ApiShapeChanged { endpoint, .. } => {
            let mut r = String::from_str("Pony Mail API response changed while reading ");
            r.append(endpoint);
            r.append(".\n");
            r.append("Run with `--debug` to save the raw response.\n");
            r
        },
        _ => {
            let m = error.message();
            m.concat("\n")
        },
    }
}

/// The header of the summaries table.
pub open spec fn summary_header() -> Seq<Seq<char>> {
    seq!["DATE"@, "MID"@, "SUBJECT"@]
}

/// The row of a summary: its date, its Pony Mail id and its subject.
pub open spec fn summary_row(e: EmailSummary) -> Seq<Seq<char>> {
    seq![epoch_text(e.epoch), spec_mid(e.id, e.mid), e.subject@]
}

/// The table of summaries: one row for each, in order, under the header
/// `DATE`, `MID`, `SUBJECT`, drawn in the `UTF8_FULL` style.
pub fn summaries_table(emails: &Vec<EmailSummary>) -> (r: String)
    ensures
        r@ == rendered_utf8_full_table(Some(summary_header()), emails@.map_values(|e: EmailSummary| summary_row(e))),
{
    let mut table = new_table();
    load_utf8_full_preset(&mut table);
    let header = vec![String::from_str("DATE"), String::from_str("MID"), String::from_str("SUBJECT")];
    proof {
        assert(header.deep_view() =~= summary_header());
    }
    set_table_header(&mut table, header);
    let mut i: usize = 0;
    while i < emails.len()
        invariant
            0 <= i <= emails.len(),
            table_uses_utf8_full(table),
            table_is_plain(table),
            table_contents(table) == (Some(summary_header()), emails@.take(i as int).map_values(|e: EmailSummary| summary_row(e))),
        decreases emails.len() - i,
    {
        let e = &emails[i];
        let row = vec![e.formatted_date(), String::from_str(e.mid()), e.subject.clone()];
        proof {
            assert(row.deep_view() =~= summary_row(emails@[i as int]));
        }
        add_table_row(&mut table, row);
        proof {
            assert(emails@.take(i + 1).map_values(|e: EmailSummary| summary_row(e)) =~= emails@.take(i as int).map_values(
                |e: EmailSummary| summary_row(e),
            ).push(summary_row(emails@[i as int])));
        }
        i = i + 1;
    }
    proof {
        assert(emails@.take(emails.len() as int) =~= emails@);
    }
    table_text(&table)
}

/// Law: the table has the columns `DATE`, `MID` and `SUBJECT`, in that
/// order, and each cell of a row is the value its column names: the date of
/// the email under `DATE`, its Pony Mail id under `MID`, its subject under
/// `SUBJECT`.
pub proof fn law_summary_cells_under_their_headers(e: EmailSummary)
    ensures
        summary_header() == seq!["DATE"@, "MID"@, "SUBJECT"@],
        summary_row(e).len() == summary_header().len(),
        forall|k: int|
            0 <= k < summary_header().len() ==> {
                &&& summary_header()[k] == "DATE"@ ==> #[trigger] summary_row(e)[k] == epoch_text(e.epoch)
                &&& summary_header()[k] == "MID"@ ==> summary_row(e)[k] == spec_mid(e.id, e.mid)
                &&& summary_header()[k] == "SUBJECT"@ ==> summary_row(e)[k] == e.subject@
            },
{
    reveal_strlit("DATE");
    reveal_strlit("MID");
    reveal_strlit("SUBJECT");
    assert("DATE"@ != "MID"@) by {
        assert("DATE"@[0] != "MID"@[0]);
    }
    assert("DATE"@ != "SUBJECT"@) by {
        assert("DATE"@[0] != "SUBJECT"@[0]);
    }
    assert("MID"@ != "SUBJECT"@) by {
        assert("MID"@[0] != "SUBJECT"@[0]);
    }
}

} // verus!
