//! Relations inside a thread: finding an email by its Pony Mail id, the
//! message-id index, the direct parent, and the root reached by following
//! `In-Reply-To` links.
use vstd::prelude::*;

use crate::error::Error;
use crate::models::{opt_view, spec_key, Email, ThreadResponse};
use crate::text::{contains_str, str_eq};

verus! {

/// Whether an email answers to a Pony Mail id, by its `id` or its `mid`.
pub open spec fn matches_mid(e: Email, mid: Seq<char>) -> bool {
    e.id@ == mid || (e.mid matches Some(m) && m@ == mid)
}

/// The first email of the list that answers to the id.
pub open spec fn first_matching(es: Seq<Email>, mid: Seq<char>) -> Option<Email>
    decreases es.len(),
{
    if es.len() == 0 {
        None
    } else if matches_mid(es[0], mid) {
        Some(es[0])
    } else {
        first_matching(es.drop_first(), mid)
    }
}

/// The email that a Pony Mail id names in a thread: the first of the thread's
/// emails that answers to it, else the thread's root email if that does.
pub open spec fn spec_find_email(t: ThreadResponse, mid: Seq<char>) -> Option<Email> {
    match first_matching(t.emails@, mid) {
        Some(e) => Some(e),
        None => if matches_mid(t.thread, mid) {
            Some(t.thread)
        } else {
            None
        },
    }
}

/// All emails of a thread: the root email, then the listed emails.
pub open spec fn thread_emails(t: ThreadResponse) -> Seq<Email> {
    seq![t.thread] + t.emails@
}

/// Whether an email is one of the thread's emails.
pub open spec fn in_thread(t: ThreadResponse, e: Email) -> bool {
    thread_emails(t).contains(e)
}

/// The message-id map over a list of emails, each inserted in order over `base`.
pub open spec fn index_emails(es: Seq<Email>, base: Map<Seq<char>, Email>) -> Map<Seq<char>, Email>
    decreases es.len(),
{
    if es.len() == 0 {
        base
    } else {
        let m = index_emails(es.drop_last(), base);
        match spec_key(es.last().message_id) {
            Some(k) => m.insert(k, es.last()),
            None => m,
        }
    }
}

/// The `Message-ID -> email` map of a thread: the root email first, then
/// every listed email in order, so a later email wins a shared id.
pub open spec fn message_index(t: ThreadResponse) -> Map<Seq<char>, Email> {
    let base = match spec_key(t.thread.message_id) {
        Some(k) => Map::<Seq<char>, Email>::empty().insert(k, t.thread),
        None => Map::<Seq<char>, Email>::empty(),
    };
    index_emails(t.emails@, base)
}

/// The parent of an email: the email whose `Message-ID` is its `In-Reply-To`.
pub open spec fn parent_of(t: ThreadResponse, e: Email) -> Option<Email> {
    match spec_key(e.in_reply_to) {
        Some(k) => if message_index(t).contains_key(k) {
            Some(message_index(t)[k])
        } else {
            None
        },
        None => None,
    }
}

/// The `n`-th ancestor of an email, following parent links.
pub open spec fn ancestor(t: ThreadResponse, e: Email, n: nat) -> Option<Email>
    decreases n,
{
    if n == 0 {
        Some(e)
    } else {
        match ancestor(t, e, (n - 1) as nat) {
            Some(a) => parent_of(t, a),
            None => None,
        }
    }
}

/// Whether the `j`-th ancestor replies to `k`.
pub open spec fn replies_to(t: ThreadResponse, e: Email, j: nat, k: Seq<char>) -> bool {
    match ancestor(t, e, j) {
        Some(a) => spec_key(a.in_reply_to) == Some(k),
        None => false,
    }
}

/// Whether one of the first `n` ancestors replies to `k`.
pub open spec fn seen_before(t: ThreadResponse, e: Email, n: nat, k: Seq<char>) -> bool {
    exists|j: nat| j < n && #[trigger] replies_to(t, e, j, k)
}

/// Whether the walk up from `e` stops at its `n`-th ancestor: that ancestor
/// replies to nothing, or to a message an earlier step already followed, or
/// to a message missing from the archive.
pub open spec fn chain_stops(t: ThreadResponse, e: Email, n: nat) -> bool {
    match ancestor(t, e, n) {
        Some(a) => match spec_key(a.in_reply_to) {
            Some(k) => seen_before(t, e, n, k) || !message_index(t).contains_key(k),
            None => true,
        },
        None => false,
    }
}

/// Whether the walk up from `e` stops at step `n` and at no earlier step.
pub open spec fn first_stop(t: ThreadResponse, e: Email, n: nat) -> bool {
    chain_stops(t, e, n) && forall|j: nat| j < n ==> !#[trigger] chain_stops(t, e, j)
}

/// What a lookup in a thread gives.
pub enum Relation {
    /// The email that was looked for.
    Found(Email),
    /// No email answers to the id.
    NotFound,
    /// The parent is not in the archive; the `In-Reply-To` it was looked up by.
    ParentMissing(Seq<char>),
}

/// What the walk gives when it stops at step `n`: the ancestor there, except
/// that a missing parent of an email answering to `mid` is reported.
pub open spec fn chain_outcome(t: ThreadResponse, mid: Seq<char>, e: Email, n: nat) -> Relation {
    match ancestor(t, e, n) {
        Some(a) => match spec_key(a.in_reply_to) {
            Some(k) => if !seen_before(t, e, n, k) && !message_index(t).contains_key(k) && matches_mid(a, mid) {
                Relation::ParentMissing(k)
            } else {
                Relation::Found(a)
            },
            None => Relation::Found(a),
        },
        None => Relation::NotFound,
    }
}

/// The direct parent of the email that `mid` names.
pub open spec fn spec_direct_parent(t: ThreadResponse, mid: Seq<char>) -> Relation {
    match spec_find_email(t, mid) {
        None => Relation::NotFound,
        Some(e) => match spec_key(e.in_reply_to) {
            None => Relation::ParentMissing(Seq::empty()),
            Some(k) => if message_index(t).contains_key(k) {
                Relation::Found(message_index(t)[k])
            } else {
                Relation::ParentMissing(k)
            },
        },
    }
}

/// The earliest available ancestor of the email that `mid` names: where the
/// walk up its parent links first stops.
pub open spec fn spec_root_parent(t: ThreadResponse, mid: Seq<char>) -> Relation {
    match spec_find_email(t, mid) {
        None => Relation::NotFound,
        Some(e) => chain_outcome(t, mid, e, choose|n: nat| first_stop(t, e, n)),
    }
}

/// Whether an exec answer is the one a relation describes.
pub open spec fn relation_result_is(r: Result<&Email, Error>, mid: Seq<char>, s: Relation) -> bool {
    match r {
        Ok(e) => s == Relation::Found(*e),
        Err(Error::EmailNotFound(m)) => s == Relation::NotFound && m@ == mid,
        Err(Error::ParentNotFound { in_reply_to }) => s == Relation::ParentMissing(in_reply_to@),
        Err(_) => false,
    }
}

/// Number of emails of the list that reply to a message not among `keys`.
pub open spec fn unseen(es: Seq<Email>, keys: Seq<Seq<char>>) -> nat
    decreases es.len(),
{
    if es.len() == 0 {
        0
    } else {
        unseen(es.drop_last(), keys) + match spec_key(es.last().in_reply_to) {
            Some(k) => if keys.contains(k) {
                0nat
            } else {
                1nat
            },
            None => 0nat,
        }
    }
}

proof fn lemma_unseen_shrinks(es: Seq<Email>, keys: Seq<Seq<char>>, k: Seq<char>)
    ensures
        unseen(es, keys.push(k)) <= unseen(es, keys),
        !keys.contains(k) && (exists|i: int| 0 <= i < es.len() && spec_key((#[trigger] es[i]).in_reply_to) == Some(k))
            ==> unseen(es, keys.push(k)) < unseen(es, keys),
    decreases es.len(),
{
    if es.len() > 0 {
        lemma_unseen_shrinks(es.drop_last(), keys, k);
        assert forall|x: Seq<char>| keys.contains(x) implies keys.push(k).contains(x) by {
            let j = choose|j: int| 0 <= j < keys.len() && keys[j] == x;
            assert(keys.push(k)[j] == x);
        }
        assert(keys.push(k).contains(k)) by {
            assert(keys.push(k)[keys.len() as int] == k);
        }
        if !keys.contains(k) && (exists|i: int| 0 <= i < es.len() && spec_key((#[trigger] es[i]).in_reply_to) == Some(k)) {
            let i = choose|i: int| 0 <= i < es.len() && spec_key((#[trigger] es[i]).in_reply_to) == Some(k);
            if i < es.len() - 1 {
                assert(es.drop_last()[i] == es[i]);
            }
        }
    }
}

proof fn lemma_index_emails_values(es: Seq<Email>, base: Map<Seq<char>, Email>, k: Seq<char>)
    requires
        index_emails(es, base).contains_key(k),
    ensures
        (base.contains_key(k) && index_emails(es, base)[k] == base[k]) || es.contains(index_emails(es, base)[k]),
        (forall|x: Seq<char>| #[trigger] base.contains_key(x) ==> spec_key(base[x].message_id) == Some(x))
            ==> spec_key(index_emails(es, base)[k].message_id) == Some(k),
    decreases es.len(),
{
    if es.len() > 0 {
        let m = index_emails(es.drop_last(), base);
        if spec_key(es.last().message_id) == Some(k) {
            assert(es[es.len() - 1] == es.last());
        } else {
            lemma_index_emails_values(es.drop_last(), base, k);
            if es.drop_last().contains(index_emails(es, base)[k]) {
                let j = choose|j: int| 0 <= j < es.drop_last().len() && es.drop_last()[j] == index_emails(es, base)[k];
                assert(es[j] == es.drop_last()[j]);
            }
        }
    }
}

/// Law: every entry of the message-id index is an email of the thread whose
/// `Message-ID` is the entry's key.
pub proof fn law_index_entries(t: ThreadResponse, k: Seq<char>)
    requires
        message_index(t).contains_key(k),
    ensures
        in_thread(t, message_index(t)[k]),
        spec_key(message_index(t)[k].message_id) == Some(k),
{
    let base = match spec_key(t.thread.message_id) {
        Some(x) => Map::<Seq<char>, Email>::empty().insert(x, t.thread),
        None => Map::<Seq<char>, Email>::empty(),
    };
    lemma_index_emails_values(t.emails@, base, k);
    let v = message_index(t)[k];
    if base.contains_key(k) && v == base[k] {
        assert(thread_emails(t)[0] == v);
    } else {
        let j = choose|j: int| 0 <= j < t.emails@.len() && t.emails@[j] == v;
        assert(thread_emails(t)[j + 1] == v);
    }
}

/// Keys not given to any of the later emails keep what the earlier part of the list gave them.
proof fn lemma_index_emails_prefix(es: Seq<Email>, base: Map<Seq<char>, Email>, k: Seq<char>, i: int)
    requires
        0 <= i <= es.len(),
        forall|j: int| i <= j < es.len() ==> spec_key((#[trigger] es[j]).message_id) != Some(k),
    ensures
        index_emails(es, base).contains_key(k) == index_emails(es.take(i), base).contains_key(k),
        index_emails(es, base).contains_key(k) ==> index_emails(es, base)[k] == index_emails(es.take(i), base)[k],
    decreases es.len(),
{
    if es.len() > i {
        assert(es.drop_last().take(i) =~= es.take(i));
        assert forall|j: int| i <= j < es.drop_last().len() implies spec_key((#[trigger] es.drop_last()[j]).message_id) != Some(k) by {
            assert(es.drop_last()[j] == es[j]);
        }
        lemma_index_emails_prefix(es.drop_last(), base, k, i);
        assert(es.last() == es[es.len() - 1]);
    } else {
        assert(es.take(i) =~= es);
    }
}

impl ThreadResponse {
    /// The email of the thread that a Pony Mail id names.
    pub fn find_email(&self, mid: &str) -> (r: Option<&Email>)
        ensures
            match r {
                Some(e) => spec_find_email(*self, mid@) == Some(*e),
                None => spec_find_email(*self, mid@) is None,
            },
    {
        let mut i: usize = 0;
        proof {
            assert(self.emails@.skip(0) =~= self.emails@);
        }
        while i < self.emails.len()
            invariant
                0 <= i <= self.emails.len(),
                first_matching(self.emails@, mid@) == first_matching(self.emails@.skip(i as int), mid@),
            decreases self.emails.len() - i,
        {
            proof {
                assert(self.emails@.skip(i as int)[0] == self.emails@[i as int]);
                assert(self.emails@.skip(i as int).drop_first() =~= self.emails@.skip(i + 1));
            }
            if email_matches(&self.emails[i], mid) {
                return Some(&self.emails[i]);
            }
            i = i + 1;
        }
        if email_matches(&self.thread, mid) {
            Some(&self.thread)
        } else {
            None
        }
    }

    /// The email that the message-id index gives a key.
    fn by_message_id(&self, key: &str) -> (r: Option<&Email>)
        ensures
            match r {
                Some(e) => message_index(*self).contains_key(key@) && message_index(*self)[key@] == *e,
                None => !message_index(*self).contains_key(key@),
            },
    {
        let ghost es = self.emails@;
        let ghost base = match spec_key(self.thread.message_id) {
            Some(x) => Map::<Seq<char>, Email>::empty().insert(x, self.thread),
            None => Map::<Seq<char>, Email>::empty(),
        };
        let mut i: usize = self.emails.len();
        while i > 0
            invariant
                0 <= i <= self.emails.len(),
                es == self.emails@,
                message_index(*self) == index_emails(es, base),
                forall|j: int| i <= j < es.len() ==> spec_key((#[trigger] es[j]).message_id) != Some(key@),
            decreases i,
        {
            let k = self.emails[i - 1].message_id_key();
            let hit = match k {
                Some(k) => str_eq(k, key),
                None => false,
            };
            if hit {
                proof {
                    assert(es[i - 1] == self.emails[i - 1]);
                    assert(spec_key(es[i - 1].message_id) == Some(key@));
                    lemma_index_emails_prefix(es, base, key@, i as int);
                    assert(es.take(i as int).drop_last() =~= es.take(i - 1));
                    assert(es.take(i as int).last() == es[i - 1]);
                    let m = index_emails(es.take(i as int), base);
                    assert(m == index_emails(es.take(i as int).drop_last(), base).insert(key@, es[i - 1]));
                    assert(m.contains_key(key@));
                }
                return Some(&self.emails[i - 1]);
            }
            i = i - 1;
        }
        proof {
            lemma_index_emails_prefix(es, base, key@, 0);
            assert(es.take(0) =~= Seq::<Email>::empty());
        }
        let k = self.thread.message_id_key();
        let hit = match k {
            Some(k) => str_eq(k, key),
            None => false,
        };
        if hit {
            Some(&self.thread)
        } else {
            None
        }
    }

    /// The direct parent of the email that `mid` names: the email of the
    /// thread whose `Message-ID` is its `In-Reply-To`.
    pub fn direct_parent(&self, mid: &str) -> (r: Result<&Email, Error>)
        ensures
            relation_result_is(r, mid@, spec_direct_parent(*self, mid@)),
    {
        let target = match self.find_email(mid) {
            Some(t) => t,
            None => return Err(Error::EmailNotFound(String::from_str(mid))),
        };
        let in_reply_to = match target.in_reply_to_key() {
            Some(k) => k,
            None => return Err(Error::ParentNotFound { in_reply_to: String::new() }),
        };
        match self.by_message_id(in_reply_to) {
            Some(parent) => Ok(parent),
            None => Err(Error::ParentNotFound { in_reply_to: String::from_str(in_reply_to) }),
        }
    }

    /// The root of the email that `mid` names: its parent links are followed
    /// until an email replies to nothing, to a message missing from the
    /// archive, or to a message already followed. A missing parent of the
    /// named email itself is reported as an error.
    pub fn root_parent(&self, mid: &str) -> (r: Result<&Email, Error>)
        ensures
            relation_result_is(r, mid@, spec_root_parent(*self, mid@)),
    {
        let target = match self.find_email(mid) {
            Some(t) => t,
            None => return Err(Error::EmailNotFound(String::from_str(mid))),
        };
        let ghost t = *self;
        let ghost e = *target;
        proof {
            law_found_email_answers(t, mid@);
        }
        let mut current = target;
        let mut seen: Vec<String> = Vec::new();
        let ghost mut n: nat = 0;
        let ghost mut keys: Seq<Seq<char>> = Seq::empty();
        loop
            invariant
                t == *self,
                spec_find_email(t, mid@) == Some(e),
                ancestor(t, e, n) == Some(*current),
                in_thread(t, *current),
                forall|j: nat| j < n ==> !#[trigger] chain_stops(t, e, j),
                seen.len() == n,
                keys.len() == n,
                forall|j: int| 0 <= j < n ==> (#[trigger] seen@[j])@ == keys[j],
                forall|j: nat| j < n ==> #[trigger] replies_to(t, e, j, keys[j as int]),
            decreases unseen(thread_emails(t), keys),
        {
            let k = match current.in_reply_to_key() {
                Some(k) => k,
                None => {
                    proof {
                        lemma_first_stop_is_chosen(t, e, n);
                    }
                    return Ok(current);
                },
            };
            let ghost cur = *current;
            let already = contains_str(&seen, k);
            proof {
                lemma_seen_is_keys(t, e, n, keys, k@);
                if already {
                    let j = choose|j: int| 0 <= j < seen.len() && (#[trigger] seen@[j])@ == k@;
                    assert(keys[j] == k@);
                } else {
                    assert forall|j: int| 0 <= j < keys.len() implies keys[j] != k@ by {
                        assert(seen@[j]@ == keys[j]);
                    }
                }
                assert(already == keys.contains(k@));
                assert(spec_key(cur.in_reply_to) == Some(k@));
            }
            if already {
                proof {
                    lemma_first_stop_is_chosen(t, e, n);
                }
                return Ok(current);
            }
            match self.by_message_id(k) {
                None => {
                    proof {
                        lemma_first_stop_is_chosen(t, e, n);
                    }
                    if email_matches(current, mid) {
                        return Err(Error::ParentNotFound { in_reply_to: String::from_str(k) });
                    }
                    return Ok(current);
                },
                Some(parent) => {
                    proof {
                        assert(!chain_stops(t, e, n));
                        assert forall|j: nat| j < n + 1 implies !#[trigger] chain_stops(t, e, j) by {
                            if j < n {
                            }
                        }
                        assert(ancestor(t, e, n + 1) == Some(*parent));
                        law_index_entries(t, k@);
                        let i = choose|i: int| 0 <= i < thread_emails(t).len() && thread_emails(t)[i] == cur;
                        assert(spec_key(thread_emails(t)[i].in_reply_to) == Some(k@));
                        lemma_unseen_shrinks(thread_emails(t), keys, k@);
                        assert forall|j: nat| j < n + 1 implies #[trigger] replies_to(t, e, j, keys.push(k@)[j as int]) by {
                            if j < n {
                            }
                        }
                    }
                    seen.push(String::from_str(k));
                    current = parent;
                    proof {
                        n = n + 1;
                        keys = keys.push(k@);
                    }
                },
            }
        }
    }
}

/// Law: the email that an id names is an email of the thread that answers to the id.
pub proof fn law_found_email_answers(t: ThreadResponse, mid: Seq<char>)
    ensures
        spec_find_email(t, mid) matches Some(e) ==> in_thread(t, e) && matches_mid(e, mid),
{
    lemma_first_matching(t.emails@, mid);
    if let Some(e) = spec_find_email(t, mid) {
        if let Some(x) = first_matching(t.emails@, mid) {
            let j = choose|j: int| 0 <= j < t.emails@.len() && t.emails@[j] == x;
            assert(thread_emails(t)[j + 1] == x);
        } else {
            assert(thread_emails(t)[0] == t.thread);
        }
    }
}

proof fn lemma_first_matching(es: Seq<Email>, mid: Seq<char>)
    ensures
        first_matching(es, mid) matches Some(e) ==> es.contains(e) && matches_mid(e, mid),
    decreases es.len(),
{
    if es.len() > 0 {
        if matches_mid(es[0], mid) {
            assert(es[0] == es[0]);
        } else {
            lemma_first_matching(es.drop_first(), mid);
            if let Some(e) = first_matching(es.drop_first(), mid) {
                let j = choose|j: int| 0 <= j < es.drop_first().len() && es.drop_first()[j] == e;
                assert(es[j + 1] == e);
            }
        }
    }
}

/// The key looked up at step `n` was seen before exactly when it is among the recorded keys.
proof fn lemma_seen_is_keys(t: ThreadResponse, e: Email, n: nat, keys: Seq<Seq<char>>, k: Seq<char>)
    requires
        keys.len() == n,
        forall|j: nat| j < n ==> #[trigger] replies_to(t, e, j, keys[j as int]),
    ensures
        seen_before(t, e, n, k) == keys.contains(k),
{
    if keys.contains(k) {
        let j = choose|j: int| 0 <= j < keys.len() && keys[j] == k;
        assert(replies_to(t, e, j as nat, keys[j]));
    }
    if seen_before(t, e, n, k) {
        let j = choose|j: nat| j < n && #[trigger] replies_to(t, e, j, k);
        assert(replies_to(t, e, j, keys[j as int]));
        assert(keys[j as int] == k);
    }
}

/// A step at which the walk stops, with no earlier stop, is the one `choose` picks.
proof fn lemma_first_stop_is_chosen(t: ThreadResponse, e: Email, n: nat)
    requires
        chain_stops(t, e, n),
        forall|j: nat| j < n ==> !#[trigger] chain_stops(t, e, j),
    ensures
        (choose|m: nat| first_stop(t, e, m)) == n,
{
    assert(first_stop(t, e, n));
    let m = choose|m: nat| first_stop(t, e, m);
    if m < n {
        assert(!chain_stops(t, e, m));
    } else if m > n {
        assert(!chain_stops(t, e, n));
    }
}

/// Every ancestor of an email of the thread is an email of the thread.
proof fn lemma_ancestor_in_thread(t: ThreadResponse, e: Email, n: nat)
    requires
        in_thread(t, e),
    ensures
        ancestor(t, e, n) matches Some(a) ==> in_thread(t, a),
    decreases n,
{
    if n > 0 {
        lemma_ancestor_in_thread(t, e, (n - 1) as nat);
        if let Some(a) = ancestor(t, e, (n - 1) as nat) {
            if let Some(k) = spec_key(a.in_reply_to) {
                if message_index(t).contains_key(k) {
                    law_index_entries(t, k);
                }
            }
        }
    }
}

/// From a step that has not stopped yet, with the keys followed so far
/// recorded, the walk stops at some later step.
proof fn lemma_walk_stops(t: ThreadResponse, e: Email, n: nat, keys: Seq<Seq<char>>)
    requires
        in_thread(t, e),
        ancestor(t, e, n) is Some,
        keys.len() == n,
        forall|j: nat| j < n ==> #[trigger] replies_to(t, e, j, keys[j as int]),
        forall|j: nat| j < n ==> !#[trigger] chain_stops(t, e, j),
    ensures
        exists|m: nat| chain_stops(t, e, m),
    decreases unseen(thread_emails(t), keys),
{
    if !chain_stops(t, e, n) {
        let a = ancestor(t, e, n).unwrap();
        let k = spec_key(a.in_reply_to).unwrap();
        lemma_seen_is_keys(t, e, n, keys, k);
        lemma_ancestor_in_thread(t, e, n);
        let i = choose|i: int| 0 <= i < thread_emails(t).len() && thread_emails(t)[i] == a;
        assert(spec_key(thread_emails(t)[i].in_reply_to) == Some(k));
        lemma_unseen_shrinks(thread_emails(t), keys, k);
        assert(ancestor(t, e, n + 1) == parent_of(t, a));
        assert forall|j: nat| j < n + 1 implies #[trigger] replies_to(t, e, j, keys.push(k)[j as int]) by {
            if j < n {
            }
        }
        assert forall|j: nat| j < n + 1 implies !#[trigger] chain_stops(t, e, j) by {
            if j < n {
            }
        }
        lemma_walk_stops(t, e, n + 1, keys.push(k));
    }
}

/// When some step stops the walk, a first one does.
proof fn lemma_first_stop_exists(t: ThreadResponse, e: Email, m: nat)
    requires
        chain_stops(t, e, m),
    ensures
        exists|n: nat| first_stop(t, e, n),
    decreases m,
{
    if exists|j: nat| j < m && #[trigger] chain_stops(t, e, j) {
        let j = choose|j: nat| j < m && #[trigger] chain_stops(t, e, j);
        lemma_first_stop_exists(t, e, j);
    } else {
        assert(first_stop(t, e, m));
    }
}

/// The walk up from an email of the thread stops, and the step `choose` picks is its first stop.
proof fn lemma_root_walk_stops(t: ThreadResponse, e: Email)
    requires
        in_thread(t, e),
    ensures
        first_stop(t, e, choose|n: nat| first_stop(t, e, n)),
{
    lemma_walk_stops(t, e, 0, Seq::empty());
    let m = choose|m: nat| chain_stops(t, e, m);
    lemma_first_stop_exists(t, e, m);
}

/// Law: a direct parent that is found is an email of the thread whose
/// `Message-ID` is the `In-Reply-To` of the email that `mid` names, and it is
/// the first step of the walk towards the root.
pub proof fn law_direct_parent_is_replied_message(t: ThreadResponse, mid: Seq<char>)
    ensures
        spec_direct_parent(t, mid) matches Relation::Found(p) ==> {
            &&& in_thread(t, p)
            &&& spec_find_email(t, mid) matches Some(e)
            &&& spec_key(e.in_reply_to) is Some
            &&& spec_key(p.message_id) == spec_key(e.in_reply_to)
            &&& ancestor(t, e, 1) == Some(p)
            &&& !chain_stops(t, e, 0)
        },
{
    if let Relation::Found(p) = spec_direct_parent(t, mid) {
        let e = spec_find_email(t, mid).unwrap();
        let k = spec_key(e.in_reply_to).unwrap();
        law_index_entries(t, k);
        assert(ancestor(t, e, 0) == Some(e));
        assert(!seen_before(t, e, 0, k));
    }
}

/// A key that the root email or one of the listed emails carries as its
/// `Message-ID` is in the index built over them.
proof fn lemma_index_emails_has(es: Seq<Email>, base: Map<Seq<char>, Email>, k: Seq<char>)
    requires
        base.contains_key(k) || exists|i: int| 0 <= i < es.len() && spec_key((#[trigger] es[i]).message_id) == Some(k),
    ensures
        index_emails(es, base).contains_key(k),
    decreases es.len(),
{
    if es.len() > 0 {
        if spec_key(es.last().message_id) != Some(k) {
            if !base.contains_key(k) {
                let i = choose|i: int| 0 <= i < es.len() && spec_key((#[trigger] es[i]).message_id) == Some(k);
                assert(i != es.len() - 1);
                assert(es.drop_last()[i] == es[i]);
            }
            lemma_index_emails_has(es.drop_last(), base, k);
        }
    }
}

/// Law: when the email that `mid` names replies to a message that an email
/// of the thread carries as its `Message-ID`, the direct parent is found, and
/// it is the email the message-id index gives that key: an email of the
/// thread with that `Message-ID`. Nothing else, such as the emails' dates,
/// decides it.
pub proof fn law_direct_parent_found_when_archived(t: ThreadResponse, mid: Seq<char>, k: Seq<char>)
    requires
        spec_find_email(t, mid) matches Some(e) && spec_key(e.in_reply_to) == Some(k),
        exists|i: int| 0 <= i < thread_emails(t).len() && spec_key((#[trigger] thread_emails(t)[i]).message_id) == Some(k),
    ensures
        message_index(t).contains_key(k),
        spec_direct_parent(t, mid) == Relation::Found(message_index(t)[k]),
        in_thread(t, message_index(t)[k]),
        spec_key(message_index(t)[k].message_id) == Some(k),
{
    let base = match spec_key(t.thread.message_id) {
        Some(x) => Map::<Seq<char>, Email>::empty().insert(x, t.thread),
        None => Map::<Seq<char>, Email>::empty(),
    };
    let i = choose|i: int| 0 <= i < thread_emails(t).len() && spec_key((#[trigger] thread_emails(t)[i]).message_id) == Some(k);
    if i == 0 {
        assert(thread_emails(t)[0] == t.thread);
        assert(base.contains_key(k));
    } else {
        assert(t.emails@[i - 1] == thread_emails(t)[i]);
    }
    lemma_index_emails_has(t.emails@, base, k);
    law_index_entries(t, k);
}

/// Law: the root is an email of the thread reached from the email that `mid`
/// names by following parent links, and it has no parent in the archive
/// unless that parent's message was already followed on the way (a cycle).
pub proof fn law_root_is_earliest_ancestor(t: ThreadResponse, mid: Seq<char>)
    ensures
        spec_root_parent(t, mid) matches Relation::Found(r) ==> {
            &&& in_thread(t, r)
            &&& spec_find_email(t, mid) matches Some(e)
            &&& exists|n: nat| {
                &&& #[trigger] ancestor(t, e, n) == Some(r)
                &&& (parent_of(t, r) is None || seen_before(t, e, n, spec_key(r.in_reply_to).unwrap()))
            }
        },
{
    law_found_email_answers(t, mid);
    if let Some(e) = spec_find_email(t, mid) {
        lemma_root_walk_stops(t, e);
        let n = choose|n: nat| first_stop(t, e, n);
        lemma_ancestor_in_thread(t, e, n);
        if let Relation::Found(r) = spec_root_parent(t, mid) {
            assert(ancestor(t, e, n) == Some(r));
        }
    }
}

/// Law: when the `In-Reply-To` of the email that `mid` names points to a
/// message missing from the archive, both the parent and the root lookups
/// report that missing parent, with its `In-Reply-To`.
pub proof fn law_missing_parent_reported(t: ThreadResponse, mid: Seq<char>)
    requires
        spec_find_email(t, mid) matches Some(e) && spec_key(e.in_reply_to) matches Some(k)
            && !message_index(t).contains_key(k),
    ensures
        spec_direct_parent(t, mid) == Relation::ParentMissing(spec_key(spec_find_email(t, mid).unwrap().in_reply_to).unwrap()),
        spec_root_parent(t, mid) == Relation::ParentMissing(spec_key(spec_find_email(t, mid).unwrap().in_reply_to).unwrap()),
{
    law_found_email_answers(t, mid);
    let e = spec_find_email(t, mid).unwrap();
    let k = spec_key(e.in_reply_to).unwrap();
    assert(ancestor(t, e, 0) == Some(e));
    assert(!seen_before(t, e, 0, k));
    assert(chain_stops(t, e, 0));
    lemma_first_stop_is_chosen(t, e, 0);
}

/// Law: an email that replies to nothing is its own root, and has no parent.
pub proof fn law_parentless_is_own_root(t: ThreadResponse, mid: Seq<char>)
    requires
        spec_find_email(t, mid) matches Some(e) && spec_key(e.in_reply_to) is None,
    ensures
        spec_root_parent(t, mid) == Relation::Found(spec_find_email(t, mid).unwrap()),
        spec_direct_parent(t, mid) == Relation::ParentMissing(Seq::empty()),
{
    let e = spec_find_email(t, mid).unwrap();
    assert(ancestor(t, e, 0) == Some(e));
    assert(chain_stops(t, e, 0));
    lemma_first_stop_is_chosen(t, e, 0);
}

/// Whether an email answers to a Pony Mail id.
fn email_matches(e: &Email, mid: &str) -> (r: bool)
    ensures
        r == matches_mid(*e, mid@),
{
    if str_eq(e.id.as_str(), mid) {
        return true;
    }
    match &e.mid {
        Some(m) => str_eq(m.as_str(), mid),
        None => false,
    }
}

} // verus!
