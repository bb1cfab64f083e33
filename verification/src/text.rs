//! Character-level text primitives: the whitespace of `char::is_whitespace`,
//! trimming, splitting at a separator, and the exec helpers that work on the
//! characters of a string by index.
use vstd::prelude::*;

verus! {

/// Unicode `White_Space`, the set that `char::is_whitespace` and `str::trim` use.
pub open spec fn is_ws(c: char) -> bool {
    ||| ('\t' <= c && c <= '\r')
    ||| c == ' '
    ||| c == '\u{85}'
    ||| c == '\u{a0}'
    ||| c == '\u{1680}'
    ||| ('\u{2000}' <= c && c <= '\u{200a}')
    ||| c == '\u{2028}'
    ||| c == '\u{2029}'
    ||| c == '\u{202f}'
    ||| c == '\u{205f}'
    ||| c == '\u{3000}'
}

/// `s` without its leading whitespace.
pub open spec fn trim_start(s: Seq<char>) -> Seq<char>
    decreases s.len(),
{
    if s.len() > 0 && is_ws(s[0]) {
        trim_start(s.drop_first())
    } else {
        s
    }
}

/// `s` without its trailing whitespace.
pub open spec fn trim_end(s: Seq<char>) -> Seq<char>
    decreases s.len(),
{
    if s.len() > 0 && is_ws(s.last()) {
        trim_end(s.drop_last())
    } else {
        s
    }
}

/// `s` without leading and trailing whitespace, as `str::trim` gives it.
pub open spec fn trim(s: Seq<char>) -> Seq<char> {
    trim_end(trim_start(s))
}

/// `s` without its leading copies of `c`, as `str::trim_start_matches(c)` gives it.
pub open spec fn trim_start_char(s: Seq<char>, c: char) -> Seq<char>
    decreases s.len(),
{
    if s.len() > 0 && s[0] == c {
        trim_start_char(s.drop_first(), c)
    } else {
        s
    }
}

/// Index of the first `c` in `s`, or `s.len()` when `s` holds no `c`.
pub open spec fn index_of(s: Seq<char>, c: char) -> nat
    decreases s.len(),
{
    if s.len() == 0 {
        0
    } else if s[0] == c {
        0
    } else {
        1 + index_of(s.drop_first(), c)
    }
}

/// The pieces of `s` between the occurrences of `sep`, as `str::split(sep)`
/// yields them: never empty, and empty pieces are kept.
pub open spec fn split(s: Seq<char>, sep: char) -> Seq<Seq<char>>
    decreases s.len(),
{
    let i = index_of(s, sep);
    if i >= s.len() {
        seq![s]
    } else {
        seq![s.take(i as int)] + split(s.skip((i + 1) as int), sep)
    }
}

/// Whether `s` begins with `p`.
pub open spec fn starts_with(s: Seq<char>, p: Seq<char>) -> bool {
    p.len() <= s.len() && s.take(p.len() as int) == p
}

/// The pieces of `s` that a list of index ranges picks out.
pub open spec fn span_seqs(s: Seq<char>, spans: Seq<(usize, usize)>) -> Seq<Seq<char>> {
    spans.map_values(|p: (usize, usize)| s.subrange(p.0 as int, p.1 as int))
}

/// Decimal digits of `n`, most significant first, with no leading zero.
pub open spec fn decimal(n: nat) -> Seq<char>
    decreases n,
{
    if n < 10 {
        seq![digit_char(n)]
    } else {
        decimal(n / 10) + seq![digit_char(n % 10)]
    }
}

/// The digit character for a value below ten.
pub open spec fn digit_char(d: nat) -> char {
    if d == 0 { '0' }
    else if d == 1 { '1' }
    else if d == 2 { '2' }
    else if d == 3 { '3' }
    else if d == 4 { '4' }
    else if d == 5 { '5' }
    else if d == 6 { '6' }
    else if d == 7 { '7' }
    else if d == 8 { '8' }
    else { '9' }
}

pub proof fn lemma_index_of_bounds(s: Seq<char>, c: char)
    ensures
        index_of(s, c) <= s.len(),
        index_of(s, c) < s.len() ==> s[index_of(s, c) as int] == c,
        forall|k: int| 0 <= k < index_of(s, c) ==> s[k] != c,
    decreases s.len(),
{
    if s.len() > 0 && s[0] != c {
        lemma_index_of_bounds(s.drop_first(), c);
        assert forall|k: int| 0 <= k < index_of(s, c) implies s[k] != c by {
            if k > 0 {
                assert(s[k] == s.drop_first()[k - 1]);
            }
        }
    }
}

/// The first `c` of `s` is at `n` when no `c` comes before `n` and `n` ends `s` or holds `c`.
pub proof fn lemma_index_of_is(s: Seq<char>, c: char, n: int)
    requires
        0 <= n <= s.len(),
        forall|k: int| 0 <= k < n ==> s[k] != c,
        n == s.len() || s[n] == c,
    ensures
        index_of(s, c) == n,
    decreases s.len(),
{
    if s.len() > 0 && n > 0 {
        assert forall|k: int| 0 <= k < n - 1 implies s.drop_first()[k] != c by {
            assert(s.drop_first()[k] == s[k + 1]);
        }
        lemma_index_of_is(s.drop_first(), c, n - 1);
    }
}

pub proof fn lemma_trim_start_len(s: Seq<char>)
    ensures
        trim_start(s).len() <= s.len(),
        s.len() > 0 && is_ws(s[0]) ==> trim_start(s).len() < s.len(),
    decreases s.len(),
{
    if s.len() > 0 && is_ws(s[0]) {
        lemma_trim_start_len(s.drop_first());
    }
}

pub proof fn lemma_trim_end_len(s: Seq<char>)
    ensures
        trim_end(s).len() <= s.len(),
        s.len() > 0 && is_ws(s.last()) ==> trim_end(s).len() < s.len(),
    decreases s.len(),
{
    if s.len() > 0 && is_ws(s.last()) {
        lemma_trim_end_len(s.drop_last());
    }
}

/// A string that trimming leaves alone neither starts nor ends with whitespace.
pub proof fn lemma_trimmed_ends(v: Seq<char>)
    requires
        trim(v) == v,
        v.len() > 0,
    ensures
        !is_ws(v[0]),
        !is_ws(v.last()),
{
    lemma_trim_start_len(v);
    lemma_trim_end_len(trim_start(v));
    if !is_ws(v[0]) {
        assert(trim_start(v) == v);
        lemma_trim_end_len(v);
    }
}

/// A string that neither starts nor ends with whitespace is its own trim.
pub proof fn lemma_trim_fixed(v: Seq<char>)
    requires
        v.len() > 0,
        !is_ws(v[0]),
        !is_ws(v.last()),
    ensures
        trim(v) == v,
{
    assert(trim_start(v) == v);
    assert(trim_end(v) == v);
}

/// A string without `sep` splits into itself alone.
pub proof fn lemma_split_without_sep(s: Seq<char>, sep: char)
    requires
        !s.contains(sep),
    ensures
        split(s, sep) == seq![s],
{
    assert forall|k: int| 0 <= k < s.len() implies s[k] != sep by {
        if s[k] == sep {
            assert(s.contains(sep));
        }
    }
    lemma_index_of_is(s, sep, s.len() as int);
}

/// The characters of `s`, in order.
pub fn chars_of(s: &str) -> (v: Vec<char>)
    ensures
        v@ == s@,
{
    let mut v: Vec<char> = Vec::new();
    for c in it: s.chars()
        invariant
            v@ == it.seq().take(it.index() as int),
            it.seq() == s@,
    {
        v.push(c);
    }
    v
}

/// Whether `c` is whitespace.
pub fn is_whitespace(c: char) -> (r: bool)
    ensures
        r == is_ws(c),
{
    ('\t' <= c && c <= '\r') || c == ' ' || c == '\u{85}' || c == '\u{a0}' || c == '\u{1680}'
        || ('\u{2000}' <= c && c <= '\u{200a}') || c == '\u{2028}' || c == '\u{2029}'
        || c == '\u{202f}' || c == '\u{205f}' || c == '\u{3000}'
}

/// Whether two strings hold the same characters.
pub fn str_eq(a: &str, b: &str) -> (r: bool)
    ensures
        r == (a@ == b@),
{
    let va = chars_of(a);
    let vb = chars_of(b);
    if va.len() != vb.len() {
        return false;
    }
    let mut i: usize = 0;
    while i < va.len()
        invariant
            va@ == a@,
            vb@ == b@,
            va.len() == vb.len(),
            i <= va.len(),
            forall|k: int| 0 <= k < i ==> va@[k] == vb@[k],
        decreases va.len() - i,
    {
        if va[i] != vb[i] {
            return false;
        }
        i = i + 1;
    }
    assert(va@ =~= vb@);
    true
}

/// The range of `s[lo..hi]` that is left after trimming whitespace at both ends.
pub fn trim_span(s: &Vec<char>, lo: usize, hi: usize) -> (r: (usize, usize))
    requires
        lo <= hi <= s.len(),
    ensures
        lo <= r.0 <= r.1 <= hi,
        s@.subrange(r.0 as int, r.1 as int) == trim(s@.subrange(lo as int, hi as int)),
{
    let mut a = lo;
    while a < hi && is_whitespace(s[a])
        invariant
            lo <= a <= hi <= s.len(),
            trim_start(s@.subrange(lo as int, hi as int)) == trim_start(s@.subrange(a as int, hi as int)),
        decreases hi - a,
    {
        assert(s@.subrange(a as int, hi as int).drop_first() =~= s@.subrange(a + 1, hi as int));
        a = a + 1;
    }
    let mut b = hi;
    while b > a && is_whitespace(s[b - 1])
        invariant
            lo <= a <= b <= hi <= s.len(),
            trim_start(s@.subrange(lo as int, hi as int)) == s@.subrange(a as int, hi as int),
            trim(s@.subrange(lo as int, hi as int)) == trim_end(s@.subrange(a as int, b as int)),
        decreases b - a,
    {
        assert(s@.subrange(a as int, b as int).drop_last() =~= s@.subrange(a as int, b - 1));
        b = b - 1;
    }
    (a, b)
}

/// The range of `s[lo..hi]` that is left after dropping its leading copies of `c`.
pub fn trim_start_char_span(s: &Vec<char>, lo: usize, hi: usize, c: char) -> (a: usize)
    requires
        lo <= hi <= s.len(),
    ensures
        lo <= a <= hi,
        s@.subrange(a as int, hi as int) == trim_start_char(s@.subrange(lo as int, hi as int), c),
{
    let mut a = lo;
    while a < hi && s[a] == c
        invariant
            lo <= a <= hi <= s.len(),
            trim_start_char(s@.subrange(lo as int, hi as int), c) == trim_start_char(s@.subrange(a as int, hi as int), c),
        decreases hi - a,
    {
        assert(s@.subrange(a as int, hi as int).drop_first() =~= s@.subrange(a + 1, hi as int));
        a = a + 1;
    }
    a
}

/// Position of the first `c` in `s[lo..hi]`, or `hi` when there is none.
pub fn find_char(s: &Vec<char>, lo: usize, hi: usize, c: char) -> (r: usize)
    requires
        lo <= hi <= s.len(),
    ensures
        lo <= r <= hi,
        r - lo == index_of(s@.subrange(lo as int, hi as int), c),
{
    let mut j = lo;
    while j < hi && s[j] != c
        invariant
            lo <= j <= hi <= s.len(),
            forall|k: int| lo <= k < j ==> s@[k] != c,
        decreases hi - j,
    {
        j = j + 1;
    }
    proof {
        let t = s@.subrange(lo as int, hi as int);
        assert forall|k: int| 0 <= k < j - lo implies t[k] != c by {
            assert(t[k] == s@[lo + k]);
        }
        lemma_index_of_is(t, c, j - lo);
    }
    j
}

/// Whether `s[lo..hi]` holds `c`.
pub fn span_contains(s: &Vec<char>, lo: usize, hi: usize, c: char) -> (r: bool)
    requires
        lo <= hi <= s.len(),
    ensures
        r == s@.subrange(lo as int, hi as int).contains(c),
{
    let j = find_char(s, lo, hi, c);
    proof {
        let t = s@.subrange(lo as int, hi as int);
        lemma_index_of_bounds(t, c);
        if j < hi {
            assert(t[j - lo] == c);
        } else {
            assert forall|k: int| 0 <= k < t.len() implies t[k] != c by {}
        }
    }
    j < hi
}

/// Whether `s[lo..hi]` holds exactly the characters of `lit`.
pub fn span_eq(s: &Vec<char>, lo: usize, hi: usize, lit: &str) -> (r: bool)
    requires
        lo <= hi <= s.len(),
    ensures
        r == (s@.subrange(lo as int, hi as int) == lit@),
{
    let l = chars_of(lit);
    if hi - lo != l.len() {
        return false;
    }
    let mut i: usize = 0;
    while i < l.len()
        invariant
            lo <= hi <= s.len(),
            hi - lo == l.len(),
            l@ == lit@,
            i <= l.len(),
            forall|k: int| 0 <= k < i ==> s@[lo + k] == l@[k],
        decreases l.len() - i,
    {
        if s[lo + i] != l[i] {
            assert(s@.subrange(lo as int, hi as int)[i as int] != lit@[i as int]);
            return false;
        }
        i = i + 1;
    }
    assert(s@.subrange(lo as int, hi as int) =~= lit@);
    true
}

/// Whether `s[lo..hi]` begins with the characters of `lit`.
pub fn span_starts_with(s: &Vec<char>, lo: usize, hi: usize, lit: &str) -> (r: bool)
    requires
        lo <= hi <= s.len(),
    ensures
        r == starts_with(s@.subrange(lo as int, hi as int), lit@),
{
    let n = lit.unicode_len();
    if hi - lo < n {
        return false;
    }
    let r = span_eq(s, lo, lo + n, lit);
    assert(s@.subrange(lo as int, hi as int).take(n as int) =~= s@.subrange(lo as int, lo + n));
    r
}

/// The pieces of `s[lo..hi]` between the occurrences of `sep`, as index ranges.
pub fn split_spans(s: &Vec<char>, lo: usize, hi: usize, sep: char) -> (r: Vec<(usize, usize)>)
    requires
        lo <= hi <= s.len(),
    ensures
        span_seqs(s@, r@) == split(s@.subrange(lo as int, hi as int), sep),
        forall|i: int| 0 <= i < r.len() ==> lo <= (#[trigger] r@[i]).0 <= r@[i].1 <= hi,
{
    let mut r: Vec<(usize, usize)> = Vec::new();
    let mut start = lo;
    let mut j = lo;
    while j < hi
        invariant
            lo <= start <= j <= hi <= s.len(),
            forall|k: int| start <= k < j ==> s@[k] != sep,
            split(s@.subrange(lo as int, hi as int), sep) == span_seqs(s@, r@) + split(s@.subrange(start as int, hi as int), sep),
            forall|i: int| 0 <= i < r.len() ==> lo <= (#[trigger] r@[i]).0 <= r@[i].1 <= hi,
        decreases hi - j,
    {
        if s[j] == sep {
            proof {
                let t = s@.subrange(start as int, hi as int);
                assert forall|k: int| 0 <= k < j - start implies t[k] != sep by {
                    assert(t[k] == s@[start + k]);
                }
                lemma_index_of_is(t, sep, j - start);
                assert(t.take(j - start) =~= s@.subrange(start as int, j as int));
                assert(t.skip(j - start + 1) =~= s@.subrange(j + 1, hi as int));
                assert(span_seqs(s@, r@.push((start, j))) =~= span_seqs(s@, r@).push(s@.subrange(start as int, j as int)));
            }
            r.push((start, j));
            start = j + 1;
        }
        j = j + 1;
    }
    proof {
        let t = s@.subrange(start as int, hi as int);
        assert forall|k: int| 0 <= k < hi - start implies t[k] != sep by {
            assert(t[k] == s@[start + k]);
        }
        lemma_index_of_is(t, sep, hi - start);
        assert(span_seqs(s@, r@.push((start, hi))) =~= span_seqs(s@, r@).push(t));
    }
    r.push((start, hi));
    r
}

/// A new string holding `s[lo..hi]`, where `chars` are the characters of `s`.
pub fn span_string(s: &str, chars: &Vec<char>, lo: usize, hi: usize) -> (r: String)
    requires
        chars@ == s@,
        lo <= hi <= chars.len(),
    ensures
        r@ == s@.subrange(lo as int, hi as int),
{
    String::from_str(s.substring_char(lo, hi))
}

/// The decimal text of `n`.
pub fn decimal_text(n: usize) -> (r: String)
    ensures
        r@ == decimal(n as nat),
    decreases n,
{
    let d = n % 10;
    let digit = if d == 0 { "0" } else if d == 1 { "1" } else if d == 2 { "2" } else if d == 3 { "3" }
        else if d == 4 { "4" } else if d == 5 { "5" } else if d == 6 { "6" } else if d == 7 { "7" }
        else if d == 8 { "8" } else { "9" };
    proof {
        reveal_strlit("0");
        reveal_strlit("1");
        reveal_strlit("2");
        reveal_strlit("3");
        reveal_strlit("4");
        reveal_strlit("5");
        reveal_strlit("6");
        reveal_strlit("7");
        reveal_strlit("8");
        reveal_strlit("9");
        assert(digit@ =~= seq![digit_char(d as nat)]);
    }
    if n < 10 {
        String::from_str(digit)
    } else {
        let mut head = decimal_text(n / 10);
        head.append(digit);
        head
    }
}

/// Whether one of the strings holds the characters of `k`.
pub fn contains_str(v: &Vec<String>, k: &str) -> (r: bool)
    ensures
        r == exists|j: int| 0 <= j < v.len() && (#[trigger] v@[j])@ == k@,
{
    let mut i: usize = 0;
    while i < v.len()
        invariant
            0 <= i <= v.len(),
            forall|j: int| 0 <= j < i ==> (#[trigger] v@[j])@ != k@,
        decreases v.len() - i,
    {
        if str_eq(v[i].as_str(), k) {
            return true;
        }
        i = i + 1;
    }
    false
}

} // verus!
