//! Character-level helpers: Unicode character classes, the characters of a
//! string as a vector, and counting rules used by the scoring engine.

use vstd::prelude::*;

verus! {

/// Whether Unicode classifies `c` as alphanumeric. The classification is
/// `char::is_alphanumeric`'s; it depends on the character alone.
pub uninterp spec fn char_alphanumeric(c: char) -> bool;

/// Whether Unicode classifies `c` as whitespace. The classification is
/// `char::is_whitespace`'s; it depends on the character alone.
pub uninterp spec fn char_whitespace(c: char) -> bool;

/// Relies on `char::is_alphanumeric`: classifies a single character, from the
/// character alone.
#[verifier::external_body]
pub(crate) fn is_alphanumeric_char(c: char) -> (r: bool)
    ensures
        r == char_alphanumeric(c),
{
    c.is_alphanumeric()
}

/// Relies on `char::is_whitespace`: classifies a single character, from the
/// character alone.
#[verifier::external_body]
pub(crate) fn is_whitespace_char(c: char) -> (r: bool)
    ensures
        r == char_whitespace(c),
{
    c.is_whitespace()
}

/// The characters of `s`, collected into a vector.
pub fn chars_of(s: &str) -> (v: Vec<char>)
    ensures
        v@ == s@,
{
    let mut v: Vec<char> = Vec::new();
    for c in it: s.chars()
        invariant
            v@ == it.seq().take(it.index() as int),
    {
        v.push(c);
    }
    proof {
        assert(v@ =~= s@);
    }
    v
}

/// How many characters of `s` are alphanumeric.
pub open spec fn alnum_count(s: Seq<char>) -> nat
    decreases s.len(),
{
    if s.len() == 0 {
        0
    } else {
        alnum_count(s.drop_last()) + if char_alphanumeric(s.last()) {
            1nat
        } else {
            0nat
        }
    }
}

/// Counts the alphanumeric characters of `v`.
pub fn count_alphanumeric(v: &Vec<char>) -> (n: usize)
    ensures
        n == alnum_count(v@),
{
    let mut n: usize = 0;
    let mut i: usize = 0;
    while i < v.len()
        invariant
            i <= v.len(),
            n <= i,
            n == alnum_count(v@.take(i as int)),
        decreases v.len() - i,
    {
        proof {
            assert(v@.take(i as int + 1).drop_last() =~= v@.take(i as int));
            assert(v@.take(i as int + 1).last() == v@[i as int]);
        }
        if is_alphanumeric_char(v[i]) {
            n = n + 1;
        }
        i = i + 1;
    }
    proof {
        assert(v@.take(v@.len() as int) =~= v@);
    }
    n
}

/// At most how many characters of `s` are alphanumeric: all of them.
pub proof fn lemma_alnum_count_le(s: Seq<char>)
    ensures
        alnum_count(s) <= s.len(),
    decreases s.len(),
{
    if s.len() > 0 {
        lemma_alnum_count_le(s.drop_last());
    }
}

/// How many leading characters of `s` are whitespace.
pub open spec fn leading_ws(s: Seq<char>) -> int
    decreases s.len(),
{
    if s.len() == 0 {
        0
    } else if !char_whitespace(s[0]) {
        0
    } else {
        1 + leading_ws(s.skip(1))
    }
}

/// How many trailing characters of `s` are whitespace.
pub open spec fn trailing_ws(s: Seq<char>) -> int
    decreases s.len(),
{
    if s.len() == 0 {
        0
    } else if !char_whitespace(s.last()) {
        0
    } else {
        1 + trailing_ws(s.drop_last())
    }
}

/// `s` with leading and trailing whitespace removed.
pub open spec fn trimmed(s: Seq<char>) -> Seq<char> {
    if leading_ws(s) == s.len() {
        Seq::empty()
    } else {
        s.subrange(leading_ws(s), s.len() - trailing_ws(s))
    }
}

/// A prefix of whitespace that ends at the first non-whitespace character
/// is exactly the leading whitespace.
pub proof fn lemma_leading_ws_unique(s: Seq<char>, i: int)
    requires
        0 <= i <= s.len(),
        forall|k: int| 0 <= k < i ==> char_whitespace(#[trigger] s[k]),
        i < s.len() ==> !char_whitespace(s[i]),
    ensures
        i == leading_ws(s),
    decreases s.len(),
{
    if s.len() == 0 {
    } else if !char_whitespace(s[0]) {
        assert(i == 0);
    } else {
        assert(i >= 1);
        assert forall|k: int| 0 <= k < i - 1 implies char_whitespace(#[trigger] s.skip(1)[k]) by {
            assert(s.skip(1)[k] == s[k + 1]);
        }
        if i - 1 < s.skip(1).len() {
            assert(s.skip(1)[i - 1] == s[i]);
        }
        lemma_leading_ws_unique(s.skip(1), i - 1);
    }
}

/// A suffix of whitespace that starts just after the last non-whitespace
/// character is exactly the trailing whitespace.
pub proof fn lemma_trailing_ws_unique(s: Seq<char>, t: int)
    requires
        0 <= t <= s.len(),
        forall|k: int| s.len() - t <= k < s.len() ==> char_whitespace(#[trigger] s[k]),
        t < s.len() ==> !char_whitespace(s[s.len() - t - 1]),
    ensures
        t == trailing_ws(s),
    decreases s.len(),
{
    if s.len() == 0 {
    } else if !char_whitespace(s.last()) {
        assert(t == 0);
    } else {
        assert(t >= 1);
        let d = s.drop_last();
        assert forall|k: int| d.len() - (t - 1) <= k < d.len() implies char_whitespace(
            #[trigger] d[k],
        ) by {
            assert(d[k] == s[k]);
        }
        if t - 1 < d.len() {
            assert(d[d.len() - (t - 1) - 1] == s[s.len() - t - 1]);
        }
        lemma_trailing_ws_unique(d, t - 1);
    }
}

/// Counts the characters that remain after trimming leading and trailing
/// whitespace from `v`.
pub fn trimmed_count(v: &Vec<char>) -> (n: usize)
    ensures
        n == trimmed(v@).len(),
{
    let len = v.len();
    let mut i: usize = 0;
    while i < len && is_whitespace_char(v[i])
        invariant
            0 <= i <= len == v@.len(),
            forall|k: int| 0 <= k < i ==> char_whitespace(#[trigger] v@[k]),
        decreases len - i,
    {
        i = i + 1;
    }
    proof {
        lemma_leading_ws_unique(v@, i as int);
    }
    if i == len {
        proof {
            assert(trimmed(v@) =~= Seq::<char>::empty());
        }
        return 0;
    }
    let mut j: usize = len;
    while is_whitespace_char(v[j - 1])
        invariant
            i < j <= len == v@.len(),
            !char_whitespace(v@[i as int]),
            forall|k: int| j <= k < len ==> char_whitespace(#[trigger] v@[k]),
        decreases j,
    {
        j = j - 1;
    }
    proof {
        lemma_trailing_ws_unique(v@, len - j);
        assert(trimmed(v@) =~= v@.subrange(i as int, j as int));
    }
    j - i
}

} // verus!
