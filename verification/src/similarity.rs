//! Near-duplicate detection for captured outputs: the Jaro similarity
//! measure, computed exactly as a rational number, with a length-gap cutoff
//! that declares very differently sized outputs dissimilar outright.
//!
//! The measure is evaluated on the canonically ordered pair of arguments
//! (shorter first, ties broken bytewise), which makes it symmetric.

use vstd::prelude::*;

verus! {

/// The longest byte string the similarity measure accepts; keeps every
/// intermediate product of the exact rational arithmetic inside `u64`.
pub const MAX_SIM_LEN: usize = 1048576;

/// An exact rational similarity score: `num / den`, between 0 and 1, where 1
/// means identical.
#[derive(Clone, Copy, PartialEq, Eq, Structural, Debug)]
pub struct Similarity {
    /// Numerator.
    pub num: u64,
    /// Denominator; never zero.
    pub den: u64,
}

/// A similarity score as an unbounded rational, for specification.
pub ghost struct Frac {
    /// Numerator.
    pub num: nat,
    /// Denominator.
    pub den: nat,
}

/// An output is near-duplicate when its similarity to a pool member exceeds
/// 98/100; `num / den > 49 / 50`, compared exactly.
pub open spec fn spec_exceeds_threshold(num: nat, den: nat) -> bool {
    50 * num > 49 * den
}

/// Compares a similarity score against the near-duplicate threshold of 0.98,
/// exactly.
pub fn exceeds_threshold(s: Similarity) -> (r: bool)
    ensures
        r == spec_exceeds_threshold(s.num as nat, s.den as nat),
{
    50u128 * (s.num as u128) > 49u128 * (s.den as u128)
}

/// Strict ordering of byte strings by length, then bytewise: there is a first
/// position where they differ, and `a` holds the smaller byte there.
pub open spec fn bytes_lt(a: Seq<u8>, b: Seq<u8>) -> bool {
    if a.len() != b.len() {
        a.len() < b.len()
    } else {
        exists|k: int|
            0 <= k < a.len() && a[k] < b[k] && (forall|j: int| 0 <= j < k ==> a[j] == b[j])
    }
}

/// Two byte strings of equal length that neither order strictly below the
/// other are equal.
proof fn lemma_bytes_lt_total(a: Seq<u8>, b: Seq<u8>)
    requires
        a.len() == b.len(),
        !bytes_lt(a, b),
        !bytes_lt(b, a),
    ensures
        a == b,
{
    assert forall|i: int| 0 <= i < a.len() implies a[i] == b[i] by {
        lemma_bytes_agree_upto(a, b, i);
    }
    assert(a =~= b);
}

proof fn lemma_bytes_agree_upto(a: Seq<u8>, b: Seq<u8>, i: int)
    requires
        a.len() == b.len(),
        !bytes_lt(a, b),
        !bytes_lt(b, a),
        0 <= i < a.len(),
    ensures
        a[i] == b[i],
    decreases i,
{
    assert forall|j: int| 0 <= j < i implies a[j] == b[j] by {
        lemma_bytes_agree_upto(a, b, j);
    }
    if a[i] < b[i] {
        assert(bytes_lt(a, b));
    } else if b[i] < a[i] {
        assert(bytes_lt(b, a));
    }
}

/// Decides the canonical order of two byte strings.
fn bytes_below(a: &[u8], b: &[u8]) -> (r: bool)
    ensures
        r == bytes_lt(a@, b@),
{
    if a.len() != b.len() {
        return a.len() < b.len();
    }
    let mut i: usize = 0;
    while i < a.len()
        invariant
            i <= a.len(),
            a@.len() == b@.len(),
            forall|j: int| 0 <= j < i ==> a@[j] == b@[j],
        decreases a.len() - i,
    {
        if a[i] < b[i] {
            return true;
        }
        if a[i] != b[i] {
            proof {
                assert forall|k: int|
                    !(0 <= k < a@.len() && a@[k] < b@[k] && (forall|j: int|
                        0 <= j < k ==> a@[j] == b@[j])) by {
                    if i < k < a@.len() {
                        assert(a@[i as int] != b@[i as int]);
                    }
                }
            }
            return false;
        }
        i += 1;
    }
    proof {
        assert forall|k: int|
            !(0 <= k < a@.len() && a@[k] < b@[k] && (forall|j: int| 0 <= j < k ==> a@[j] == b@[j]))
        by {}
    }
    false
}

/// Bytewise equality of two byte strings.
pub fn bytes_equal(a: &[u8], b: &[u8]) -> (r: bool)
    ensures
        r == (a@ == b@),
{
    if a.len() != b.len() {
        return false;
    }
    let mut i: usize = 0;
    while i < a.len()
        invariant
            i <= a.len(),
            a@.len() == b@.len(),
            forall|k: int| 0 <= k < i ==> a@[k] == b@[k],
        decreases a.len() - i,
    {
        if a[i] != b[i] {
            return false;
        }
        i += 1;
    }
    proof {
        assert(a@ =~= b@);
    }
    true
}

/// The half-window around each position within which characters may match:
/// half the longer length, less one.
pub open spec fn search_range(la: nat, lb: nat) -> nat {
    let mx = if la >= lb { la } else { lb };
    if mx / 2 >= 1 { (mx / 2 - 1) as nat } else { 0 }
}

/// The smallest index in `[lo, hi]` holding an unconsumed occurrence of `c`
/// in `b`.
pub open spec fn first_match(c: u8, b: Seq<u8>, consumed: Seq<bool>, lo: int, hi: int) -> Option<
    int,
>
    decreases hi + 1 - lo,
{
    if lo > hi {
        None
    } else if 0 <= lo < b.len() && b[lo] == c && !consumed[lo] {
        Some(lo)
    } else {
        first_match(c, b, consumed, lo + 1, hi)
    }
}

/// The matching state after some prefix of the first string has been
/// processed: which characters of the second string are consumed, how many
/// matches and transpositions were counted, and the index of the last match.
pub ghost struct JaroState {
    /// Which positions of the second string are already matched.
    pub consumed: Seq<bool>,
    /// Number of matched characters.
    pub matches: nat,
    /// Number of matches that stepped backwards in the second string.
    pub transpositions: nat,
    /// Index in the second string of the most recent match.
    pub last: int,
}

/// One step of the greedy Jaro matching: character `i` of `a` claims the
/// first unconsumed equal character of `b` within the search window, if any.
pub open spec fn jaro_step(a: Seq<u8>, b: Seq<u8>, i: int, st: JaroState) -> JaroState {
    let sr = search_range(a.len(), b.len()) as int;
    let lo = if i > sr { i - sr } else { 0 };
    let hi = if b.len() - 1 <= i + sr { b.len() - 1 } else { i + sr };
    if lo > hi {
        st
    } else {
        match first_match(a[i], b, st.consumed, lo, hi) {
            None => st,
            Some(j) => JaroState {
                consumed: st.consumed.update(j, true),
                matches: st.matches + 1,
                transpositions: if j < st.last { st.transpositions + 1 } else { st.transpositions },
                last: j,
            },
        }
    }
}

/// The matching state after the first `i` characters of `a` were processed.
pub open spec fn jaro_loop(a: Seq<u8>, b: Seq<u8>, i: nat) -> JaroState
    decreases i,
{
    if i == 0 {
        JaroState { consumed: Seq::new(b.len(), |j: int| false), matches: 0, transpositions: 0, last: 0 }
    } else {
        jaro_step(a, b, i - 1, jaro_loop(a, b, (i - 1) as nat))
    }
}

/// The Jaro similarity of two byte strings, as an exact fraction: equal
/// strings score 1; if either is empty they score 0; otherwise the mean of
/// the matched share of each string and the share of matches in order.
pub open spec fn jaro_frac(a: Seq<u8>, b: Seq<u8>) -> Frac {
    if a == b {
        Frac { num: 1, den: 1 }
    } else if a.len() == 0 || b.len() == 0 {
        Frac { num: 0, den: 1 }
    } else {
        let st = jaro_loop(a, b, a.len());
        let m = st.matches;
        let t = st.transpositions;
        if m == 0 {
            Frac { num: 0, den: 1 }
        } else {
            Frac {
                num: m * m * b.len() + m * m * a.len() + ((m - t) as nat) * a.len() * b.len(),
                den: 3 * a.len() * b.len() * m,
            }
        }
    }
}

/// Skipping positions that hold no match does not change the first match.
proof fn lemma_first_match_skip(c: u8, b: Seq<u8>, consumed: Seq<bool>, lo: int, hi: int, j: int)
    requires
        lo <= j <= hi + 1,
        forall|k: int| lo <= k < j ==> !(0 <= k < b.len() && b[k] == c && !consumed[k]),
    ensures
        first_match(c, b, consumed, lo, hi) == first_match(c, b, consumed, j, hi),
    decreases j - lo,
{
    if lo < j {
        lemma_first_match_skip(c, b, consumed, lo + 1, hi, j);
    }
}

/// Computes the Jaro similarity of two byte strings, exactly.
pub fn jaro(a: &[u8], b: &[u8]) -> (r: Similarity)
    requires
        a@.len() <= MAX_SIM_LEN,
        b@.len() <= MAX_SIM_LEN,
    ensures
        r.num == jaro_frac(a@, b@).num,
        r.den == jaro_frac(a@, b@).den,
{
    if bytes_equal(a, b) {
        return Similarity { num: 1, den: 1 };
    }
    let a_len = a.len();
    let b_len = b.len();
    if a_len == 0 || b_len == 0 {
        return Similarity { num: 0, den: 1 };
    }

    let mx = if a_len >= b_len { a_len } else { b_len };
    let sr: usize = if mx / 2 >= 1 { mx / 2 - 1 } else { 0 };
    proof {
        assert(sr == search_range(a@.len(), b@.len()));
    }

    let mut consumed: Vec<bool> = Vec::new();
    let mut ci: usize = 0;
    while ci < b_len
        invariant
            ci <= b_len,
            b_len == b@.len(),
            consumed@.len() == ci,
            forall|k: int| 0 <= k < ci ==> !consumed@[k],
        decreases b_len - ci,
    {
        consumed.push(false);
        ci += 1;
    }
    proof {
        assert(consumed@ =~= jaro_loop(a@, b@, 0).consumed);
    }

    let mut matches: u64 = 0;
    let mut transpositions: u64 = 0;
    let mut last: usize = 0;

    let mut i: usize = 0;
    while i < a_len
        invariant
            i <= a_len,
            a_len == a@.len(),
            b_len == b@.len(),
            1 <= b_len <= MAX_SIM_LEN,
            1 <= a_len <= MAX_SIM_LEN,
            sr == search_range(a@.len(), b@.len()),
            consumed@ == jaro_loop(a@, b@, i as nat).consumed,
            matches == jaro_loop(a@, b@, i as nat).matches,
            transpositions == jaro_loop(a@, b@, i as nat).transpositions,
            last == jaro_loop(a@, b@, i as nat).last,
            matches <= i,
            transpositions <= matches,
            last < b_len,
            consumed@.len() == b_len,
        decreases a_len - i,
    {
        let ghost st = jaro_loop(a@, b@, i as nat);
        let lo: usize = if i > sr { i - sr } else { 0 };
        let hi: usize = if b_len - 1 <= i + sr { b_len - 1 } else { i + sr };

        if lo <= hi {
            let c = a[i];
            let mut j: usize = lo;
            let mut found: bool = false;
            while j <= hi && !found
                invariant
                    lo <= j <= hi + 1,
                    hi < b_len,
                    b_len == b@.len(),
                    consumed@.len() == b_len,
                    c == a@[i as int],
                    !found ==> forall|k: int|
                        lo <= k < j ==> !(b@[k] == c && !consumed@[k]),
                    found ==> lo <= j <= hi && b@[j as int] == c && !consumed@[j as int]
                        && first_match(c, b@, consumed@, lo as int, hi as int) == Some(j as int),
                decreases hi + 1 - j + (if found { 0int } else { 1int }),
            {
                if b[j] == c && !consumed[j] {
                    found = true;
                    proof {
                        lemma_first_match_skip(c, b@, consumed@, lo as int, hi as int, j as int);
                    }
                } else {
                    j += 1;
                }
            }
            proof {
                if !found {
                    lemma_first_match_skip(c, b@, consumed@, lo as int, hi as int, hi + 1);
                    assert(first_match(c, b@, consumed@, lo as int, hi as int) is None);
                }
            }
            if found {
                consumed.set(j, true);
                matches += 1;
                if j < last {
                    transpositions += 1;
                }
                last = j;
            }
            proof {
                assert(jaro_loop(a@, b@, (i + 1) as nat) == jaro_step(a@, b@, i as int, st));
            }
        } else {
            proof {
                assert(jaro_loop(a@, b@, (i + 1) as nat) == jaro_step(a@, b@, i as int, st));
            }
        }
        i += 1;
    }

    if matches == 0 {
        return Similarity { num: 0, den: 1 };
    }

    let m = matches;
    let t = transpositions;
    let la64 = a_len as u64;
    let lb64 = b_len as u64;
    proof {
        assert(m * m <= 0x10000000000 && m * m * lb64 <= 0x1000000000000000 && m * m * la64
            <= 0x1000000000000000 && (m - t) * la64 <= 0x10000000000 && (m - t) * la64 * lb64
            <= 0x1000000000000000 && 3 * la64 <= 0x400000 && 3 * la64 * lb64 <= 0x40000000000 && 3
            * la64 * lb64 * m <= 0x4000000000000000) by (nonlinear_arith)
            requires
                0 <= t <= m,
                0 < m <= 1048576,
                0 < la64 <= 1048576,
                0 < lb64 <= 1048576,
        ;
    }
    let num = m * m * lb64 + m * m * la64 + (m - t) * la64 * lb64;
    let den = 3 * la64 * lb64 * m;
    Similarity { num, den }
}

/// The symmetric length-gap rule and the canonical argument order for the
/// similarity of two captured outputs.
pub open spec fn spec_output_similarity(a: Seq<u8>, b: Seq<u8>) -> Frac {
    if a.len() > 2 * b.len() || b.len() > 2 * a.len() || ((a.len() > 512 || b.len() > 512)
        && a.len() != b.len()) {
        Frac { num: 0, den: 1 }
    } else if bytes_lt(b, a) {
        jaro_frac(b, a)
    } else {
        jaro_frac(a, b)
    }
}

/// The similarity of one captured output against another: 0 means unrelated,
/// 1 means identical. Outputs whose lengths differ by more than a factor of
/// two, and long outputs of unequal length, are unrelated outright.
pub fn output_similarity(this_output: &[u8], other_output: &[u8]) -> (r: Similarity)
    requires
        this_output@.len() <= MAX_SIM_LEN,
        other_output@.len() <= MAX_SIM_LEN,
    ensures
        r.num == spec_output_similarity(this_output@, other_output@).num,
        r.den == spec_output_similarity(this_output@, other_output@).den,
{
    let la = this_output.len();
    let lb = other_output.len();
    if la > 2 * lb || lb > 2 * la || ((la > 512 || lb > 512) && la != lb) {
        return Similarity { num: 0, den: 1 };
    }
    if bytes_below(other_output, this_output) {
        jaro(other_output, this_output)
    } else {
        jaro(this_output, other_output)
    }
}

/// Similarity is symmetric.
pub proof fn lemma_output_similarity_symmetric(a: Seq<u8>, b: Seq<u8>)
    ensures
        spec_output_similarity(a, b) == spec_output_similarity(b, a),
{
    if !(a.len() > 2 * b.len() || b.len() > 2 * a.len() || ((a.len() > 512 || b.len() > 512)
        && a.len() != b.len())) {
        if bytes_lt(b, a) {
            assert(!bytes_lt(a, b)) by {
                if bytes_lt(a, b) {
                    if a.len() == b.len() {
                        let k1 = choose|k: int|
                            0 <= k < b.len() && b[k] < a[k] && (forall|j: int|
                                0 <= j < k ==> b[j] == a[j]);
                        let k2 = choose|k: int|
                            0 <= k < a.len() && a[k] < b[k] && (forall|j: int|
                                0 <= j < k ==> a[j] == b[j]);
                        if k1 < k2 {
                            assert(a[k1] == b[k1]);
                        } else if k2 < k1 {
                            assert(b[k2] == a[k2]);
                        }
                    }
                }
            }
        } else if !bytes_lt(a, b) {
            if a.len() == b.len() {
                lemma_bytes_lt_total(a, b);
            }
        }
    }
}

/// Any output is perfectly similar to itself.
pub proof fn lemma_output_similarity_self(a: Seq<u8>)
    requires
        a.len() > 0,
    ensures
        spec_output_similarity(a, a) == (Frac { num: 1, den: 1 }),
{
}

/// Outputs whose lengths differ by more than a factor of two score zero.
pub proof fn lemma_output_similarity_length_gap(a: Seq<u8>, b: Seq<u8>)
    requires
        a.len() > 2 * b.len() || b.len() > 2 * a.len(),
    ensures
        spec_output_similarity(a, b) == (Frac { num: 0, den: 1 }),
{
}


/// How many positions of a consumption map are taken.
pub open spec fn count_true(s: Seq<bool>) -> nat
    decreases s.len(),
{
    if s.len() == 0 {
        0
    } else {
        count_true(s.drop_last()) + if s.last() {
            1nat
        } else {
            0nat
        }
    }
}

proof fn lemma_count_true_le_len(s: Seq<bool>)
    ensures
        count_true(s) <= s.len(),
    decreases s.len(),
{
    if s.len() > 0 {
        lemma_count_true_le_len(s.drop_last());
    }
}

proof fn lemma_count_true_all_false(s: Seq<bool>)
    requires
        forall|k: int| 0 <= k < s.len() ==> !s[k],
    ensures
        count_true(s) == 0,
    decreases s.len(),
{
    if s.len() > 0 {
        lemma_count_true_all_false(s.drop_last());
    }
}

proof fn lemma_count_true_update(s: Seq<bool>, j: int)
    requires
        0 <= j < s.len(),
        !s[j],
    ensures
        count_true(s.update(j, true)) == count_true(s) + 1,
    decreases s.len(),
{
    let u = s.update(j, true);
    if j == s.len() - 1 {
        assert(u.drop_last() =~= s.drop_last());
        assert(u.last());
        assert(!s.last());
    } else {
        assert(u.drop_last() =~= s.drop_last().update(j, true));
        assert(u.last() == s.last());
        lemma_count_true_update(s.drop_last(), j);
    }
}

proof fn lemma_first_match_props(c: u8, b: Seq<u8>, consumed: Seq<bool>, lo: int, hi: int)
    requires
        0 <= lo,
        hi < b.len(),
    ensures
        first_match(c, b, consumed, lo, hi) matches Some(j) ==> lo <= j <= hi && b[j] == c
            && !consumed[j],
    decreases hi + 1 - lo,
{
    if lo <= hi && !(b[lo] == c && !consumed[lo]) {
        lemma_first_match_props(c, b, consumed, lo + 1, hi);
    }
}

proof fn lemma_jaro_loop_bounds(a: Seq<u8>, b: Seq<u8>, i: nat)
    requires
        i <= a.len(),
        b.len() >= 1,
    ensures
        jaro_loop(a, b, i).consumed.len() == b.len(),
        count_true(jaro_loop(a, b, i).consumed) == jaro_loop(a, b, i).matches,
        jaro_loop(a, b, i).matches <= i,
        jaro_loop(a, b, i).matches <= b.len(),
        jaro_loop(a, b, i).transpositions <= jaro_loop(a, b, i).matches,
    decreases i,
{
    if i == 0 {
        lemma_count_true_all_false(jaro_loop(a, b, 0).consumed);
    } else {
        lemma_jaro_loop_bounds(a, b, (i - 1) as nat);
        let st = jaro_loop(a, b, (i - 1) as nat);
        let sr = search_range(a.len(), b.len()) as int;
        let pos = i - 1;
        let lo = if pos > sr { pos - sr } else { 0 };
        let hi = if b.len() - 1 <= pos + sr { b.len() - 1 } else { pos + sr };
        if lo <= hi {
            lemma_first_match_props(a[pos], b, st.consumed, lo, hi);
            match first_match(a[pos], b, st.consumed, lo, hi) {
                None => {},
                Some(j) => {
                    lemma_count_true_update(st.consumed, j);
                },
            }
        }
        lemma_count_true_le_len(jaro_loop(a, b, i).consumed);
    }
}

proof fn lemma_jaro_frac_bounds(a: Seq<u8>, b: Seq<u8>)
    ensures
        jaro_frac(a, b).den >= 1,
        jaro_frac(a, b).num <= jaro_frac(a, b).den,
{
    if a != b && a.len() != 0 && b.len() != 0 {
        lemma_jaro_loop_bounds(a, b, a.len());
        let st = jaro_loop(a, b, a.len());
        let m = st.matches;
        let t = st.transpositions;
        if m != 0 {
            let la = a.len();
            let lb = b.len();
            assert(m * m * lb + m * m * la + ((m - t) as nat) * la * lb <= 3 * la * lb * m && 3
                * la * lb * m >= 1) by (nonlinear_arith)
                requires
                    1 <= m <= la,
                    m <= lb,
                    t <= m,
                    1 <= la,
                    1 <= lb,
            ;
        }
    }
}

/// Similarity scores are proper fractions: at least zero, at most one.
pub proof fn lemma_output_similarity_in_range(a: Seq<u8>, b: Seq<u8>)
    ensures
        spec_output_similarity(a, b).den >= 1,
        spec_output_similarity(a, b).num <= spec_output_similarity(a, b).den,
{
    lemma_jaro_frac_bounds(a, b);
    lemma_jaro_frac_bounds(b, a);
}

} // verus!
