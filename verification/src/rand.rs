//! The exploration scheduler's randomness: a Romu-family pseudo-random
//! generator, unbiased bounded draws, and random sampling without
//! replacement.

use vstd::prelude::*;

use crate::clock::current_nanos;

verus! {

/// The multiplier of the Romu generator's x-update.
pub const ROMU_MUL: u64 = 15241094284759029579;

/// A left rotation of a 64-bit word by 27 positions.
pub open spec fn rotl27(x: u64) -> u64 {
    (x << 27u64) | (x >> 37u64)
}

/// A Romu-family pseudo-random generator over two 64-bit words of state.
#[derive(Clone, Copy, Debug)]
pub struct RomuRand {
    /// First word of state; its previous value is what a draw returns.
    pub x_state: u64,
    /// Second word of state.
    pub y_state: u64,
}

impl RomuRand {
    /// Seeds a fresh generator.
    pub fn new(seed: u64) -> (r: Self)
        ensures
            r.x_state == seed ^ 0x12345,
            r.y_state == seed ^ 0x6789A,
    {
        let mut rand = RomuRand { x_state: 0, y_state: 0 };
        rand.set_seed(seed);
        rand
    }

    /// Creates a generator pre-seeded with the current time in nanoseconds.
    pub fn preseeded() -> (r: Self)
        ensures
            r.x_state ^ r.y_state == 0x12345u64 ^ 0x6789Au64,
    {
        let r = Self::new(current_nanos());
        proof {
            assert forall|s: u64| (s ^ 0x12345) ^ (s ^ 0x6789A) == 0x12345u64 ^ 0x6789Au64 by {
                assert((s ^ 0x12345) ^ (s ^ 0x6789A) == 0x12345u64 ^ 0x6789Au64) by (bit_vector);
            }
        }
        r
    }

    fn set_seed(&mut self, seed: u64)
        ensures
            final(self).x_state == seed ^ 0x12345,
            final(self).y_state == seed ^ 0x6789A,
    {
        self.x_state = seed ^ 0x12345;
        self.y_state = seed ^ 0x6789A;
    }

    fn next(&mut self) -> (r: u64)
        ensures
            r == old(self).x_state,
            final(self).x_state == vstd::wrapping::u64_specs::wrapping_mul(
                ROMU_MUL,
                old(self).y_state,
            ),
            final(self).y_state == rotl27(
                vstd::wrapping::u64_specs::wrapping_sub(old(self).y_state, old(self).x_state),
            ),
    {
        let xp = self.x_state;
        self.x_state = ROMU_MUL.wrapping_mul(self.y_state);
        let w = self.y_state.wrapping_sub(xp);
        self.y_state = (w << 27u64) | (w >> 37u64);
        xp
    }

    /// Draws a value below the given bound. The draw rejects values from the
    /// biased tail of the 64-bit range; after 64 rejections in a row (an
    /// essentially impossible streak) it falls back to a plain reduction.
    pub fn below(&mut self, upper_bound_excl: u64) -> (r: u64)
        ensures
            upper_bound_excl <= 1 ==> r == 0,
            upper_bound_excl > 1 ==> r < upper_bound_excl,
    {
        if upper_bound_excl <= 1 {
            return 0;
        }

        let limit = u64::MAX - (u64::MAX % upper_bound_excl);
        let mut unbiased_rnd: u64 = self.next();
        let mut tries: u64 = 0;
        while unbiased_rnd >= limit && tries < 64
            invariant
                upper_bound_excl > 1,
            decreases 64 - tries,
        {
            unbiased_rnd = self.next();
            tries += 1;
        }

        unbiased_rnd % upper_bound_excl
    }
}

/// Strictly increasing sequence of indices.
pub open spec fn strictly_increasing(s: Seq<usize>) -> bool {
    forall|a: int, b: int| 0 <= a < b < s.len() ==> s[a] < s[b]
}

fn idx_contains(idxs: &Vec<usize>, v: usize) -> (r: bool)
    ensures
        r == idxs@.contains(v),
{
    let mut i: usize = 0;
    while i < idxs.len()
        invariant
            i <= idxs.len(),
            forall|k: int| 0 <= k < i ==> idxs@[k] != v,
        decreases idxs.len() - i,
    {
        if idxs[i] == v {
            return true;
        }
        i += 1;
    }
    false
}

fn insert_sorted(idxs: &mut Vec<usize>, v: usize, bound: usize)
    requires
        strictly_increasing(old(idxs)@),
        !old(idxs)@.contains(v),
        forall|k: int| 0 <= k < old(idxs)@.len() ==> old(idxs)@[k] < bound,
        v < bound,
        old(idxs)@.len() < usize::MAX,
    ensures
        strictly_increasing(final(idxs)@),
        final(idxs)@.len() == old(idxs)@.len() + 1,
        forall|k: int| 0 <= k < final(idxs)@.len() ==> final(idxs)@[k] < bound,
        forall|x: usize| final(idxs)@.contains(x) <==> old(idxs)@.contains(x) || x == v,
{
    let ghost orig = idxs@;
    let mut p: usize = 0;
    while p < idxs.len() && idxs[p] < v
        invariant
            p <= idxs@.len(),
            idxs@ == orig,
            forall|k: int| 0 <= k < p ==> idxs@[k] < v,
        decreases idxs.len() - p,
    {
        p += 1;
    }
    proof {
        assert forall|k: int| p <= k < orig.len() implies orig[k] > v by {
            if orig[k] == v {
                assert(orig.contains(v));
            }
            if p < orig.len() && orig[k] < orig[p as int] {
                assert(k < p);
            }
            if p < orig.len() && orig[k] == orig[p as int] && k != p {
                assert(false);
            }
        }
    }
    idxs.insert(p, v);
    proof {
        assert(idxs@ == orig.insert(p as int, v));
        assert forall|x: usize| idxs@.contains(x) implies orig.contains(x) || x == v by {
            let w = choose|w: int| 0 <= w < idxs@.len() && idxs@[w] == x;
            if w < p {
                assert(orig[w] == x);
            } else if w > p {
                assert(orig[w - 1] == x);
            }
        }
        assert forall|x: usize| orig.contains(x) || x == v implies idxs@.contains(x) by {
            if x == v {
                assert(idxs@[p as int] == x);
            } else {
                let w = choose|w: int| 0 <= w < orig.len() && orig[w] == x;
                if w < p {
                    assert(idxs@[w] == x);
                } else {
                    assert(idxs@[w + 1] == x);
                }
            }
        }
    }
}

/// Picks up to `count` elements of `input_vec` at random, without
/// replacement, in their original order. When the input holds no more than
/// `count` elements it is returned whole.
pub fn pick_random<T: Clone>(rand: &mut RomuRand, input_vec: &[T], count: usize) -> (r: Vec<T>)
    ensures
        input_vec@.len() <= count ==> r@.len() == input_vec@.len() && (forall|k: int|
            0 <= k < r@.len() ==> cloned(input_vec@[k], #[trigger] r@[k])),
        input_vec@.len() > count ==> r@.len() == count && (exists|idx: Seq<usize>|
            {
                &&& idx.len() == count
                &&& strictly_increasing(idx)
                &&& forall|k: int|
                    0 <= k < count ==> idx[k] < input_vec@.len() && cloned(
                        input_vec@[idx[k] as int],
                        #[trigger] r@[k],
                    )
            }),
{
    let len = input_vec.len();
    if len <= count {
        let mut whole: Vec<T> = Vec::new();
        let mut i: usize = 0;
        while i < len
            invariant
                i <= len,
                len == input_vec@.len(),
                whole@.len() == i,
                forall|k: int| 0 <= k < i ==> cloned(input_vec@[k], #[trigger] whole@[k]),
            decreases len - i,
        {
            whole.push(input_vec[i].clone());
            i += 1;
        }
        return whole;
    }

    let mut idxs: Vec<usize> = Vec::new();

    // Random draws, with a cap on futile repeats so the selection always
    // completes; the deterministic sweep below fills any remainder.
    let mut tries: usize = 0;
    let max_tries = if count <= usize::MAX / 128 {
        count * 128
    } else {
        usize::MAX
    };
    while idxs.len() < count && tries < max_tries
        invariant
            len == input_vec@.len(),
            len > count,
            strictly_increasing(idxs@),
            idxs@.len() <= count,
            forall|k: int| 0 <= k < idxs@.len() ==> idxs@[k] < len,
        decreases max_tries - tries,
    {
        let rand_index = rand.below(len as u64) as usize;
        if !idx_contains(&idxs, rand_index) {
            insert_sorted(&mut idxs, rand_index, len);
        }
        tries += 1;
    }

    if idxs.len() < count {
        // The random draws kept colliding; fall back to the first indices.
        let mut fill: Vec<usize> = Vec::new();
        let mut v: usize = 0;
        while v < count
            invariant
                v <= count,
                fill@.len() == v,
                forall|k: int| 0 <= k < v ==> fill@[k] == k,
            decreases count - v,
        {
            fill.push(v);
            v += 1;
        }
        idxs = fill;
    }

    let mut picked: Vec<T> = Vec::new();
    let mut i: usize = 0;
    while i < idxs.len()
        invariant
            len == input_vec@.len(),
            strictly_increasing(idxs@),
            forall|k: int| 0 <= k < idxs@.len() ==> idxs@[k] < len,
            i <= idxs@.len(),
            picked@.len() == i,
            forall|k: int|
                0 <= k < i ==> cloned(input_vec@[idxs@[k] as int], #[trigger] picked@[k]),
        decreases idxs.len() - i,
    {
        picked.push(input_vec[idxs[i]].clone());
        i += 1;
    }
    proof {
        let idx = idxs@;
        assert(idx.len() == count);
        assert(picked@.len() == count);
    }
    picked
}

} // verus!
