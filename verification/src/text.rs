//! Text comparison: case-insensitive equality, Levenshtein edit distance,
//! and the fuzzy similarity score derived from it.

use vstd::prelude::*;

use crate::trusted::{lower_of, lowercase};
use crate::CONF_SCALE;

verus! {

/// Smallest of three values.
pub open spec fn min3(x: int, y: int, z: int) -> int {
    if x <= y && x <= z {
        x
    } else if y <= z {
        y
    } else {
        z
    }
}

/// Classic Levenshtein edit distance between two character sequences: the
/// least number of single-character insertions, deletions and
/// substitutions turning one into the other.
pub open spec fn edit_dist(a: Seq<char>, b: Seq<char>) -> int
    decreases a.len() + b.len(),
{
    if a.len() == 0 {
        b.len() as int
    } else if b.len() == 0 {
        a.len() as int
    } else {
        let tail_cost: int = if a.last() == b.last() {
            0
        } else {
            1
        };
        min3(
            edit_dist(a.drop_last(), b) + 1,
            edit_dist(a, b.drop_last()) + 1,
            edit_dist(a.drop_last(), b.drop_last()) + tail_cost,
        )
    }
}

/// The edit distance never exceeds the longer sequence's length.
pub proof fn lemma_edit_dist_le_max(a: Seq<char>, b: Seq<char>)
    ensures
        0 <= edit_dist(a, b),
        edit_dist(a, b) <= a.len() || edit_dist(a, b) <= b.len(),
        edit_dist(a, b) <= a.len() + b.len(),
    decreases a.len() + b.len(),
{
    if a.len() == 0 || b.len() == 0 {
    } else {
        lemma_edit_dist_le_max(a.drop_last(), b);
        lemma_edit_dist_le_max(a, b.drop_last());
        lemma_edit_dist_le_max(a.drop_last(), b.drop_last());
    }
}

/// Collect the characters of a string into a vector.
fn chars_of(s: &str) -> (r: Vec<char>)
    ensures
        r@ == s@,
{
    let n = s.unicode_len();
    let mut r: Vec<char> = Vec::new();
    for i in 0..n
        invariant
            n == s@.len(),
            r@ =~= s@.take(i as int),
    {
        r.push(s.get_char(i));
        assert(r@ =~= s@.take(i + 1));
    }
    assert(r@ =~= s@);
    r
}

/// Levenshtein distance between two strings, computed over characters.
///
/// The length bound only excludes strings too large to exist in memory:
/// the dynamic-programming rows hold one entry per character plus one.
pub fn levenshtein_distance(s1: &str, s2: &str) -> (d: usize)
    requires
        s1@.len() < usize::MAX,
        s2@.len() < usize::MAX,
    ensures
        d == edit_dist(s1@, s2@),
{
    let a = chars_of(s1);
    let b = chars_of(s2);
    let len1 = a.len();
    let len2 = b.len();

    // Row 0: distance from the empty prefix of `a` to each prefix of `b`.
    let mut prev: Vec<usize> = Vec::new();
    for j in 0..len2 + 1
        invariant
            len2 == s2@.len() < usize::MAX,
            prev@.len() == j,
            forall|k: int| 0 <= k < j ==> prev@[k] == edit_dist(s1@.take(0), s2@.take(k)),
    {
        prev.push(j);
        assert(s1@.take(0) =~= Seq::<char>::empty());
        assert(edit_dist(s1@.take(0), s2@.take(j as int)) == j);
    }

    let mut i: usize = 1;
    while i <= len1
        invariant
            1 <= i <= len1 + 1,
            len1 == s1@.len() < usize::MAX,
            len2 == s2@.len() < usize::MAX,
            a@ == s1@,
            b@ == s2@,
            prev@.len() == len2 + 1,
            forall|k: int|
                0 <= k <= len2 ==> prev@[k] == edit_dist(s1@.take(i - 1), s2@.take(k)),
        decreases len1 + 1 - i,
    {
        let mut cur: Vec<usize> = Vec::new();
        cur.push(i);
        assert(s2@.take(0) =~= Seq::<char>::empty());
        assert(edit_dist(s1@.take(i as int), s2@.take(0)) == i);
        let mut j: usize = 1;
        while j <= len2
            invariant
                1 <= i <= len1,
                1 <= j <= len2 + 1,
                len1 == s1@.len() < usize::MAX,
                len2 == s2@.len() < usize::MAX,
                a@ == s1@,
                b@ == s2@,
                prev@.len() == len2 + 1,
                forall|k: int|
                    0 <= k <= len2 ==> prev@[k] == edit_dist(s1@.take(i - 1), s2@.take(k)),
                cur@.len() == j,
                forall|k: int|
                    0 <= k < j ==> cur@[k] == edit_dist(s1@.take(i as int), s2@.take(k)),
            decreases len2 + 1 - j,
        {
            let cost: usize = if a[i - 1] == b[j - 1] {
                0
            } else {
                1
            };
            proof {
                lemma_edit_dist_le_max(s1@.take(i - 1), s2@.take(j as int));
                lemma_edit_dist_le_max(s1@.take(i as int), s2@.take(j - 1));
                lemma_edit_dist_le_max(s1@.take(i - 1), s2@.take(j - 1));
            }
            let del = prev[j] + 1;
            let ins = cur[j - 1] + 1;
            let sub = prev[j - 1] + cost;
            let best = if del <= ins && del <= sub {
                del
            } else if ins <= sub {
                ins
            } else {
                sub
            };
            proof {
                let ai = s1@.take(i as int);
                let bj = s2@.take(j as int);
                assert(ai.len() == i && bj.len() == j);
                assert(ai.drop_last() =~= s1@.take(i - 1));
                assert(bj.drop_last() =~= s2@.take(j - 1));
                assert(ai.last() == s1@[i - 1]);
                assert(bj.last() == s2@[j - 1]);
                assert(edit_dist(ai, bj) == min3(
                    edit_dist(s1@.take(i - 1), bj) + 1,
                    edit_dist(ai, s2@.take(j - 1)) + 1,
                    edit_dist(s1@.take(i - 1), s2@.take(j - 1)) + (if s1@[i - 1] == s2@[j - 1] {
                        0int
                    } else {
                        1int
                    }),
                ));
                assert(best == edit_dist(ai, bj));
            }
            cur.push(best);
            j += 1;
        }
        prev = cur;
        i += 1;
    }
    assert(s1@.take(len1 as int) =~= s1@);
    assert(s2@.take(len2 as int) =~= s2@);
    prev[len2]
}

/// Fuzzy similarity of two strings after lowercasing, as a fixed-point
/// confidence: `1 - editDistance / max(len1, len2)`, and exactly 1 when
/// the lowercase forms are equal.  Strings of `usize::MAX` characters
/// cannot exist in memory; they are assigned similarity 0 so that the
/// function stays total.
pub open spec fn spec_fuzzy_sim(a: Seq<char>, b: Seq<char>) -> int {
    let la = lower_of(a);
    let lb = lower_of(b);
    if la == lb {
        CONF_SCALE as int
    } else if la.len() >= usize::MAX || lb.len() >= usize::MAX {
        0
    } else {
        let m: int = if la.len() >= lb.len() {
            la.len() as int
        } else {
            lb.len() as int
        };
        CONF_SCALE - edit_dist(la, lb) * CONF_SCALE / m
    }
}

/// The fuzzy similarity is a valid confidence.
pub proof fn lemma_fuzzy_sim_range(a: Seq<char>, b: Seq<char>)
    ensures
        0 <= spec_fuzzy_sim(a, b) <= CONF_SCALE,
{
    let la = lower_of(a);
    let lb = lower_of(b);
    if la == lb {
    } else if la.len() >= usize::MAX || lb.len() >= usize::MAX {
    } else {
        let m: int = if la.len() >= lb.len() {
            la.len() as int
        } else {
            lb.len() as int
        };
        if m == 0 {
            assert(la =~= lb);
        }
        lemma_edit_dist_le_max(la, lb);
        let d = edit_dist(la, lb);
        vstd::arithmetic::mul::lemma_mul_inequality(d, m, CONF_SCALE as int);
        vstd::arithmetic::div_mod::lemma_div_is_ordered(
            d * CONF_SCALE,
            m * CONF_SCALE,
            m,
        );
        vstd::arithmetic::div_mod::lemma_div_multiples_vanish(CONF_SCALE as int, m);
        assert(m * CONF_SCALE / m == CONF_SCALE);
        vstd::arithmetic::div_mod::lemma_div_pos_is_pos(d * CONF_SCALE, m);
        vstd::arithmetic::mul::lemma_mul_nonnegative(d, CONF_SCALE as int);
    }
}

/// Whether two strings hold the same characters.
pub fn str_eq(a: &str, b: &str) -> (r: bool)
    ensures
        r == (a@ == b@),
{
    let sa = a.to_owned();
    let sb = b.to_owned();
    sa.eq(&sb)
}

/// The needle occurs as a contiguous run of characters in the haystack.
pub open spec fn seq_contains_sub(hay: Seq<char>, needle: Seq<char>) -> bool {
    exists|i: int|
        0 <= i && i + needle.len() <= hay.len() && #[trigger] hay.subrange(i, i + needle.len())
            == needle
}

/// Substring search over characters.
pub fn str_contains(hay: &str, needle: &str) -> (r: bool)
    ensures
        r == seq_contains_sub(hay@, needle@),
{
    let h = chars_of(hay);
    let n = chars_of(needle);
    let hl = h.len();
    let nl = n.len();
    if nl > hl {
        proof {
            if seq_contains_sub(hay@, needle@) {
                let i = choose|i: int|
                    0 <= i && i + needle@.len() <= hay@.len() && #[trigger] hay@.subrange(
                        i,
                        i + needle@.len(),
                    ) == needle@;
            }
        }
        return false;
    }
    let mut i: usize = 0;
    while i <= hl - nl
        invariant
            h@ == hay@,
            n@ == needle@,
            hl == hay@.len(),
            nl == needle@.len(),
            nl <= hl,
            i <= hl - nl + 1,
            forall|x: int|
                0 <= x < i ==> #[trigger] hay@.subrange(x, x + needle@.len()) != needle@,
        decreases hl - nl + 1 - i,
    {
        let mut j: usize = 0;
        let mut all = true;
        while j < nl
            invariant
                h@ == hay@,
                n@ == needle@,
                hl == hay@.len(),
                nl == needle@.len(),
                i + nl <= hl,
                j <= nl,
                all == (forall|y: int| 0 <= y < j ==> hay@[i + y] == needle@[y]),
            decreases nl - j,
        {
            if h[i + j] != n[j] {
                all = false;
            }
            j += 1;
        }
        if all {
            proof {
                assert(hay@.subrange(i as int, i + needle@.len()) =~= needle@);
            }
            return true;
        }
        proof {
            let y = choose|y: int| !(0 <= y < nl ==> hay@[i + y] == needle@[y]);
            assert(hay@.subrange(i as int, i + needle@.len())[y] == hay@[i + y]);
            assert(hay@.subrange(i as int, i + needle@.len()) != needle@);
        }
        i += 1;
    }
    proof {
        if seq_contains_sub(hay@, needle@) {
            let x = choose|x: int|
                0 <= x && x + needle@.len() <= hay@.len() && #[trigger] hay@.subrange(
                    x,
                    x + needle@.len(),
                ) == needle@;
            assert(x < i);
        }
    }
    false
}

/// Whether two strings are equal once lowercased.
pub fn names_equal_ci(x: &str, y: &str) -> (r: bool)
    ensures
        r == (lower_of(x@) == lower_of(y@)),
{
    let lx = lowercase(x);
    let ly = lowercase(y);
    lx == ly
}

/// Fuzzy similarity of two strings, lowercased before comparison.
pub fn fuzzy_similarity(x: &str, y: &str) -> (r: u64)
    ensures
        r == spec_fuzzy_sim(x@, y@),
        r <= CONF_SCALE,
{
    proof {
        lemma_fuzzy_sim_range(x@, y@);
    }
    let lx = lowercase(x);
    let ly = lowercase(y);
    if lx == ly {
        return CONF_SCALE;
    }
    let n1 = lx.as_str().unicode_len();
    let n2 = ly.as_str().unicode_len();
    if n1 == usize::MAX || n2 == usize::MAX {
        return 0;
    }
    let d = levenshtein_distance(lx.as_str(), ly.as_str());
    let m = if n1 >= n2 {
        n1
    } else {
        n2
    };
    proof {
        if m == 0 {
            assert(lower_of(x@) =~= lower_of(y@));
        }
        let di = d as int;
        let mi = m as int;
        lemma_edit_dist_le_max(lower_of(x@), lower_of(y@));
        vstd::arithmetic::mul::lemma_mul_inequality(di, mi, CONF_SCALE as int);
        vstd::arithmetic::div_mod::lemma_div_is_ordered(
            di * CONF_SCALE,
            mi * CONF_SCALE,
            mi,
        );
        vstd::arithmetic::div_mod::lemma_div_multiples_vanish(CONF_SCALE as int, mi);
        vstd::arithmetic::div_mod::lemma_div_pos_is_pos(di * CONF_SCALE, mi);
        vstd::arithmetic::mul::lemma_mul_nonnegative(di, CONF_SCALE as int);
    }
    let q: u64 = ((d as u128) * (CONF_SCALE as u128) / (m as u128)) as u64;
    CONF_SCALE - q
}

} // verus!
