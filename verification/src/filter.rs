//! Scoring and ranking strings against a search input.
//!
//! [`Levenshtein`] computes the classic edit distance, normalized by the
//! longer input to a rational in [0, 1]. Any [`StrMetric`] can rank an
//! arbitrary candidate list through [`sort_with`], and a boolean
//! [`StrFilter`] acts as a 0/1-valued metric.

use vstd::prelude::*;
use vstd::string::*;
use vstd::pervasive::VecAdditionalExecFns;
use vstd::slice::slice_subrange;
use itertools::Itertools;
use crate::chars::{chars_eq, compare_char, lower_of, str_to_lowercase};

verus! {

/// The smallest of three values.
pub open spec fn min3(a: int, b: int, c: int) -> int {
    if a <= b && a <= c {
        a
    } else if b <= c {
        b
    } else {
        c
    }
}

/// The classic edit distance between two character sequences: the least
/// number of single-character insertions, deletions and substitutions
/// that turns one into the other, comparing characters with [`chars_eq`].
pub open spec fn edit_dist(a: Seq<char>, b: Seq<char>, ignore_case: bool) -> nat
    decreases a.len() + b.len(),
{
    if a.len() == 0 {
        b.len()
    } else if b.len() == 0 {
        a.len()
    } else if chars_eq(a[0], b[0], ignore_case) {
        edit_dist(a.skip(1), b.skip(1), ignore_case)
    } else {
        (1 + min3(
            edit_dist(a.skip(1), b, ignore_case) as int,
            edit_dist(a, b.skip(1), ignore_case) as int,
            edit_dist(a.skip(1), b.skip(1), ignore_case) as int,
        )) as nat
    }
}

/// The edit distance never exceeds the longer input: substituting along
/// the shorter input and inserting or deleting the rest always suffices.
pub proof fn lemma_edit_dist_le_max(a: Seq<char>, b: Seq<char>, ignore_case: bool)
    ensures
        edit_dist(a, b, ignore_case) <= if a.len() >= b.len() {
            a.len()
        } else {
            b.len()
        },
    decreases a.len() + b.len(),
{
    if a.len() == 0 {
    } else if b.len() == 0 {
    } else if chars_eq(a[0], b[0], ignore_case) {
        lemma_edit_dist_le_max(a.skip(1), b.skip(1), ignore_case);
    } else {
        lemma_edit_dist_le_max(a.skip(1), b, ignore_case);
        lemma_edit_dist_le_max(a, b.skip(1), ignore_case);
        lemma_edit_dist_le_max(a.skip(1), b.skip(1), ignore_case);
    }
}

/// Identical sequences have edit distance zero.
pub proof fn lemma_edit_dist_same(a: Seq<char>, ignore_case: bool)
    ensures
        edit_dist(a, a, ignore_case) == 0,
    decreases a.len(),
{
    if a.len() > 0 {
        lemma_edit_dist_same(a.skip(1), ignore_case);
    }
}

/// The edit distance is symmetric in its two inputs.
pub proof fn lemma_edit_dist_sym(a: Seq<char>, b: Seq<char>, ignore_case: bool)
    ensures
        edit_dist(a, b, ignore_case) == edit_dist(b, a, ignore_case),
    decreases a.len() + b.len(),
{
    if a.len() == 0 {
    } else if b.len() == 0 {
    } else if chars_eq(a[0], b[0], ignore_case) {
        lemma_edit_dist_sym(a.skip(1), b.skip(1), ignore_case);
    } else {
        lemma_edit_dist_sym(a.skip(1), b, ignore_case);
        lemma_edit_dist_sym(a, b.skip(1), ignore_case);
        lemma_edit_dist_sym(a.skip(1), b.skip(1), ignore_case);
    }
}

/// A relative distance between two words as an exact rational number
/// `num / den`, with `1 <= den` and `num <= den`.
#[derive(Debug, Clone, Copy, PartialEq, Eq, Structural)]
pub struct Distance {
    /// The numerator.
    pub num: usize,
    /// The denominator; never zero.
    pub den: usize,
}

impl Distance {
    /// Whether this distance is at most `other`, as rational numbers.
    pub open spec fn spec_le(self, other: Distance) -> bool {
        self.num * other.den <= other.num * self.den
    }

    /// Compares two distances as rational numbers, by cross-multiplying.
    pub fn le(&self, other: &Distance) -> (r: bool)
        ensures
            r == self.spec_le(*other),
    {
        proof {
            assert((self.num as u128) * (other.den as u128) == self.num * other.den
                && (other.num as u128) * (self.den as u128) == other.num * self.den
                && self.num * other.den <= u128::MAX && other.num * self.den <= u128::MAX)
                by (nonlinear_arith);
        }
        (self.num as u128) * (other.den as u128) <= (other.num as u128) * (self.den as u128)
    }
}

/// An implementation of Levenshtein's edit-distance algorithm.
#[derive(Debug, Clone, Copy)]
pub struct Levenshtein {
    /// Whether characters are compared up to ASCII case.
    pub ignore_case: bool,
}

impl Levenshtein {
    /// Creates the metric; `ignore_case` selects case-insensitive
    /// character comparison.
    pub fn new(ignore_case: bool) -> (r: Self)
        ensures
            r.ignore_case == ignore_case,
    {
        Self { ignore_case }
    }

    /// The edit distance, computed by direct recursion.
    pub fn recursive_distance(self, a: &[char], b: &[char]) -> (r: usize)
        ensures
            r == edit_dist(a@, b@, self.ignore_case),
        decreases a@.len() + b@.len(),
    {
        if a.len() == 0 {
            b.len()
        } else if b.len() == 0 {
            a.len()
        } else if compare_char(a[0], b[0], self.ignore_case) {
            let r = self.recursive_distance(
                slice_subrange(a, 1, a.len()),
                slice_subrange(b, 1, b.len()),
            );
            proof {
                assert(a@.subrange(1, a@.len() as int) =~= a@.skip(1));
                assert(b@.subrange(1, b@.len() as int) =~= b@.skip(1));
            }
            r
        } else {
            let ta = slice_subrange(a, 1, a.len());
            let tb = slice_subrange(b, 1, b.len());
            proof {
                assert(a@.subrange(1, a@.len() as int) =~= a@.skip(1));
                assert(b@.subrange(1, b@.len() as int) =~= b@.skip(1));
            }
            let s1 = self.recursive_distance(ta, b);
            let s2 = self.recursive_distance(a, tb);
            let s3 = self.recursive_distance(ta, tb);
            proof {
                lemma_edit_dist_le_max(a@.skip(1), b@.skip(1), self.ignore_case);
            }
            1 + min3_usize(s1, s2, s3)
        }
    }

    /// The edit distance, computed row by row with two buffers.
    pub fn dynamic_distance(self, s: &[char], t: &[char]) -> (r: usize)
        ensures
            r == edit_dist(s@, t@, self.ignore_case),
    {
        let ic = self.ignore_case;
        let m = s.len();
        let n = t.len();
        // the bottom row: distances from an empty rest of `s` to each
        // rest of `t`
        let mut v0: Vec<usize> = Vec::new();
        let mut j: usize = 0;
        while j < n
            invariant
                j <= n,
                n == t@.len(),
                v0@.len() == j,
                forall|k: int| 0 <= k < j ==> v0@[k] == t@.len() - k,
            decreases n - j,
        {
            v0.push(n - j);
            j += 1;
        }
        v0.push(0);
        proof {
            assert forall|k: int| 0 <= k <= n implies v0@[k] == edit_dist(
                s@.skip(m as int),
                t@.skip(k),
                ic,
            ) by {
                assert(s@.skip(m as int) =~= Seq::<char>::empty());
                assert(t@.skip(k).len() == t@.len() - k);
            }
        }
        let mut i = m;
        while i > 0
            invariant
                i <= m,
                m == s@.len(),
                n == t@.len(),
                v0@.len() == n + 1,
                forall|k: int| 0 <= k <= n ==> v0@[k] == edit_dist(
                    s@.skip(i as int),
                    t@.skip(k),
                    ic,
                ),
            decreases i,
        {
            i -= 1;
            let mut v1: Vec<usize> = Vec::new();
            let mut k: usize = 0;
            while k < n
                invariant
                    k <= n,
                    v1@.len() == k,
                decreases n - k,
            {
                v1.push(0);
                k += 1;
            }
            v1.push(0);
            v1.set(n, m - i);
            proof {
                assert(t@.skip(n as int) =~= Seq::<char>::empty());
                assert(s@.skip(i as int).len() == m - i);
            }
            let mut j = n;
            while j > 0
                invariant
                    j <= n,
                    i < m,
                    m == s@.len(),
                    n == t@.len(),
                    v0@.len() == n + 1,
                    v1@.len() == n + 1,
                    forall|k: int| 0 <= k <= n ==> v0@[k] == edit_dist(
                        s@.skip(i + 1),
                        t@.skip(k),
                        ic,
                    ),
                    forall|k: int| j <= k <= n ==> v1@[k] == edit_dist(
                        s@.skip(i as int),
                        t@.skip(k),
                        ic,
                    ),
                decreases j,
            {
                j -= 1;
                let ghost a = s@.skip(i as int);
                let ghost b = t@.skip(j as int);
                proof {
                    assert(a.len() > 0 && b.len() > 0);
                    assert(a[0] == s@[i as int]);
                    assert(b[0] == t@[j as int]);
                    assert(a.skip(1) =~= s@.skip(i + 1));
                    assert(b.skip(1) =~= t@.skip(j + 1));
                }
                let val = if compare_char(s[i], t[j], ic) {
                    v0[j + 1]
                } else {
                    proof {
                        lemma_edit_dist_le_max(a.skip(1), b.skip(1), ic);
                    }
                    1 + min3_usize(v0[j], v1[j + 1], v0[j + 1])
                };
                v1.set(j, val);
            }
            v0 = v1;
        }
        proof {
            assert(s@.skip(0) =~= s@);
            assert(t@.skip(0) =~= t@);
        }
        v0[0]
    }
}

/// The smallest of three values.
fn min3_usize(a: usize, b: usize, c: usize) -> (r: usize)
    ensures
        r == min3(a as int, b as int, c as int),
{
    if a <= b && a <= c {
        a
    } else if b <= c {
        b
    } else {
        c
    }
}

/// Whether `p` is a prefix of `s`.
pub open spec fn is_prefix_of(p: Seq<char>, s: Seq<char>) -> bool {
    p.len() <= s.len() && s.take(p.len() as int) == p
}

/// A capability for scoring one string against another.
pub trait StrMetric {
    /// The distance as an exact rational: numerator and denominator.
    spec fn spec_distance(&self, option: Seq<char>, input: Seq<char>) -> (int, int);

    /// The relative distance between two words, between 0 and 1.
    /// 0 means the words are the same; 1 is the maximum distance.
    fn distance(&self, option: &str, input: &str) -> (r: Distance)
        ensures
            ({
                let d = self.spec_distance(option@, input@);
                r.num as int == d.0 && r.den as int == d.1
            }),
            1 <= r.den,
            r.num <= r.den,
    ;
}

/// A capability for filtering one string against another.
pub trait StrFilter {
    /// Whether the input matches the option.
    spec fn spec_filter(&self, option: Seq<char>, input: Seq<char>) -> bool;

    /// Returns true if `input` matches the `option`.
    fn filter(&self, option: &str, input: &str) -> (r: bool)
        ensures
            r == self.spec_filter(option@, input@),
    ;
}

/// Any filter is a metric: distance 0 if it matches and 1 if not.
impl<F: StrFilter> StrMetric for F {
    open spec fn spec_distance(&self, option: Seq<char>, input: Seq<char>) -> (int, int) {
        if self.spec_filter(option, input) {
            (0int, 1int)
        } else {
            (1int, 1int)
        }
    }

    fn distance(&self, option: &str, input: &str) -> (r: Distance) {
        if self.filter(option, input) {
            Distance { num: 0, den: 1 }
        } else {
            Distance { num: 1, den: 1 }
        }
    }
}

/// Filters a string by checking whether the search term is a prefix,
/// ignoring case.
#[derive(Debug, Clone, Copy)]
pub struct StartsWithIgnoreCase;

impl StrFilter for StartsWithIgnoreCase {
    open spec fn spec_filter(&self, option: Seq<char>, input: Seq<char>) -> bool {
        is_prefix_of(lower_of(input), lower_of(option))
    }

    fn filter(&self, option: &str, input: &str) -> (r: bool) {
        let lo = str_to_lowercase(option);
        let li = str_to_lowercase(input);
        str_starts_with(lo.as_str(), li.as_str())
    }
}

impl StrMetric for Levenshtein {
    open spec fn spec_distance(&self, option: Seq<char>, input: Seq<char>) -> (int, int) {
        let m = if option.len() >= input.len() {
            option.len() as int
        } else {
            input.len() as int
        };
        (edit_dist(option, input, self.ignore_case) as int, if m == 0 {
            1
        } else {
            m
        })
    }

    fn distance(&self, option: &str, input: &str) -> (r: Distance) {
        let oc = str_chars(option);
        let nc = str_chars(input);
        let lev = self.dynamic_distance(oc.as_slice(), nc.as_slice());
        let ol = oc.len();
        let il = nc.len();
        let mx = if ol >= il {
            ol
        } else {
            il
        };
        proof {
            lemma_edit_dist_le_max(option@, input@, self.ignore_case);
        }
        if mx == 0 {
            Distance { num: lev, den: 1 }
        } else {
            Distance { num: lev, den: mx }
        }
    }
}

/// Whether `p` comes first in the string `s`.
pub fn str_starts_with(s: &str, p: &str) -> (r: bool)
    ensures
        r == is_prefix_of(p@, s@),
{
    let sn = s.unicode_len();
    let pn = p.unicode_len();
    if pn > sn {
        return false;
    }
    let mut i: usize = 0;
    while i < pn
        invariant
            i <= pn,
            pn as int == p@.len(),
            sn as int == s@.len(),
            pn <= sn,
            forall|k: int| 0 <= k < i ==> s@[k] == p@[k],
        decreases pn - i,
    {
        if s.get_char(i) != p.get_char(i) {
            proof {
                assert(s@.take(pn as int)[i as int] == s@[i as int]);
            }
            return false;
        }
        i += 1;
    }
    proof {
        assert(s@.take(pn as int) =~= p@);
    }
    true
}

/// The length of the longest common prefix of `option` and `input`,
/// comparing characters with [`chars_eq`].
pub fn common_prefix_len(option: &str, input: &str, ignore_case: bool) -> (r: usize)
    ensures
        r <= option@.len(),
        r <= input@.len(),
        forall|i: int| 0 <= i < r ==> chars_eq(option@[i], input@[i], ignore_case),
        (r as int) < option@.len() && (r as int) < input@.len() ==> !chars_eq(
            option@[r as int],
            input@[r as int],
            ignore_case,
        ),
{
    let on = option.unicode_len();
    let inn = input.unicode_len();
    let n = if on <= inn {
        on
    } else {
        inn
    };
    let mut i: usize = 0;
    while i < n
        invariant
            i <= n,
            on as int == option@.len(),
            inn as int == input@.len(),
            n == (if on <= inn {
                on
            } else {
                inn
            }),
            forall|j: int| 0 <= j < i ==> chars_eq(option@[j], input@[j], ignore_case),
        decreases n - i,
    {
        if !compare_char(option.get_char(i), input.get_char(i), ignore_case) {
            return i;
        }
        i += 1;
    }
    n
}

/// Rational order on (numerator, denominator) pairs, by cross-multiplying.
pub open spec fn rational_le(a: (int, int), b: (int, int)) -> bool {
    a.0 * b.1 <= b.0 * a.1
}

/// Ranking order: by distance first; equal distances keep the earlier
/// candidate first.
pub open spec fn ranked_le(d1: (int, int), i1: int, d2: (int, int), i2: int) -> bool {
    rational_le(d1, d2) && (rational_le(d2, d1) ==> i1 <= i2)
}

/// Whether `r` is `v` reordered by the index permutation `perm`.
pub open spec fn is_reorder<T>(perm: Seq<int>, r: Seq<T>, v: Seq<T>) -> bool {
    &&& perm.len() == v.len()
    &&& r.len() == v.len()
    &&& forall|k: int| 0 <= k < perm.len() ==> 0 <= #[trigger] perm[k] < v.len()
    &&& forall|k1: int, k2: int| 0 <= k1 < k2 < perm.len() ==> perm[k1] != perm[k2]
    &&& forall|k: int| 0 <= k < r.len() ==> r[k] == v[#[trigger] perm[k]]
}

/// Candidate order during ranking: by distance, then by original position.
pub open spec fn triple_le(a: (String, Distance, usize), b: (String, Distance, usize)) -> bool {
    a.1.spec_le(b.1) && (b.1.spec_le(a.1) ==> a.2 <= b.2)
}

/// Strict candidate order during ranking.
pub open spec fn triple_lt(a: (String, Distance, usize), b: (String, Distance, usize)) -> bool {
    (a.1.spec_le(b.1) && !b.1.spec_le(a.1)) || (a.1.spec_le(b.1) && b.1.spec_le(a.1) && a.2
        < b.2)
}

/// Compares two ranking candidates: by distance, then by original
/// position.
fn cmp_triples(a: &(String, Distance, usize), b: &(String, Distance, usize)) -> (r:
    core::cmp::Ordering)
    ensures
        (r is Less) == triple_lt(*a, *b),
        (r is Greater) == triple_lt(*b, *a),
        (r is Equal) == (!triple_lt(*a, *b) && !triple_lt(*b, *a)),
{
    let ab = a.1.le(&b.1);
    let ba = b.1.le(&a.1);
    if ab && !ba {
        core::cmp::Ordering::Less
    } else if ba && !ab {
        core::cmp::Ordering::Greater
    } else if ab && ba {
        if a.2 < b.2 {
            core::cmp::Ordering::Less
        } else if b.2 < a.2 {
            core::cmp::Ordering::Greater
        } else {
            core::cmp::Ordering::Equal
        }
    } else {
        proof {
            assert(false);
        }
        core::cmp::Ordering::Equal
    }
}

/// Relies on itertools' `sorted_by`, which sorts with the standard
/// library's stable `Vec::sort_by`: the result is a permutation of the
/// input, ascending in the comparator's order. The comparator ranks by
/// distance, then original position, a total order since every
/// denominator is positive.
#[verifier::external_body]
fn sort_triples(v: Vec<(String, Distance, usize)>) -> (r: Vec<(String, Distance, usize)>)
    requires
        forall|k: int| 0 <= k < v@.len() ==> 1 <= #[trigger] v@[k].1.den,
    ensures
        exists|perm: Seq<int>| is_reorder(perm, r@, v@),
        forall|k1: int, k2: int| 0 <= k1 < k2 < r@.len() ==> triple_le(r@[k1], r@[k2]),
{
    v.into_iter().sorted_by(|a, b| cmp_triples(a, b)).collect()
}

/// Ranks the candidates by ascending distance to `input` under `metric`.
/// Candidates at equal distance keep their original relative order.
pub fn sort_with<M: StrMetric>(metric: &M, options: Vec<String>, input: &str) -> (r: Vec<String>)
    ensures
        r@.len() == options@.len(),
        exists|perm: Seq<int>| ({
            &&& is_reorder(perm, r@, options@)
            &&& forall|k1: int, k2: int|
                0 <= k1 < k2 < perm.len() ==> ranked_le(
                    metric.spec_distance(options@[perm[k1]]@, input@),
                    perm[k1],
                    metric.spec_distance(options@[perm[k2]]@, input@),
                    perm[k2],
                )
        }),
{
    let ghost opts = options@;
    let mut rest_in = options;
    let n_opts = rest_in.len();
    let mut triples: Vec<(String, Distance, usize)> = Vec::new();
    let mut idx: usize = 0;
    while rest_in.len() > 0
        invariant
            opts.len() == n_opts as int,
            idx as int == triples@.len(),
            triples@.len() + rest_in@.len() == opts.len(),
            rest_in@ =~= opts.skip(idx as int),
            forall|k: int|
                0 <= k < triples@.len() ==> ({
                    let d = metric.spec_distance(opts[k]@, input@);
                    &&& (#[trigger] triples@[k]).0 == opts[k]
                    &&& triples@[k].2 as int == k
                    &&& triples@[k].1.num as int == d.0
                    &&& triples@[k].1.den as int == d.1
                    &&& 1 <= triples@[k].1.den
                }),
        decreases rest_in@.len(),
    {
        let s = rest_in.remove(0);
        let d = metric.distance(s.as_str(), input);
        triples.push((s, d, idx));
        idx += 1;
    }
    let sorted = sort_triples(triples);
    let ghost triples0 = triples@;
    let ghost sorted0 = sorted@;
    let mut out: Vec<String> = Vec::new();
    let mut rest = sorted;
    while rest.len() > 0
        invariant
            out@.len() + rest@.len() == sorted0.len(),
            rest@ =~= sorted0.skip(out@.len() as int),
            forall|k: int| 0 <= k < out@.len() ==> out@[k] == (#[trigger] sorted0[k]).0,
        decreases rest@.len(),
    {
        let t = rest.remove(0);
        out.push(t.0);
    }
    proof {
        let perm = choose|perm: Seq<int>| is_reorder(perm, sorted0, triples0);
        assert(is_reorder(perm, out@, opts)) by {
            assert forall|k: int| 0 <= k < out@.len() implies out@[k] == opts[perm[k]] by {
                assert(sorted0[k] == triples0[perm[k]]);
            }
        }
        assert forall|k1: int, k2: int| 0 <= k1 < k2 < perm.len() implies ranked_le(
            metric.spec_distance(opts[perm[k1]]@, input@),
            perm[k1],
            metric.spec_distance(opts[perm[k2]]@, input@),
            perm[k2],
        ) by {
            assert(sorted0[k1] == triples0[perm[k1]]);
            assert(sorted0[k2] == triples0[perm[k2]]);
            assert(triple_le(sorted0[k1], sorted0[k2]));
        }
    }
    out
}

/// The characters of a string collected into a vector.
pub fn str_chars(s: &str) -> (r: Vec<char>)
    ensures
        r@ == s@,
{
    let n = s.unicode_len();
    let mut out: Vec<char> = Vec::new();
    let mut i: usize = 0;
    while i < n
        invariant
            i <= n,
            n as int == s@.len(),
            out@.len() == i,
            forall|k: int| 0 <= k < i ==> out@[k] == s@[k],
        decreases n - i,
    {
        out.push(s.get_char(i));
        i += 1;
    }
    proof {
        assert(out@ =~= s@);
    }
    out
}

} // verus!
