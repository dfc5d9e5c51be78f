//! Permutation tables for gradient noise.
//!
//! A gradient-noise texture hashes the integer lattice cell of a point
//! through three shuffled index tables, combined by XOR, to pick one of 256
//! precomputed gradients.  The tables are built once per renderer from the
//! shared random generator.  The contracts here prove that each table really
//! is a permutation of `0..=255`, and that the combined lattice hash
//! therefore always lands inside the gradient array.

use crate::random::XorShift32;
use vstd::prelude::*;

verus! {

broadcast use vstd::seq_lib::group_to_multiset_ensures, vstd::seq_lib::lemma_seq_contains,
    vstd::multiset::group_multiset_axioms;

/// The table `0, 1, ..., 255` that every shuffle starts from.
pub open spec fn identity_table() -> Seq<i32> {
    Seq::new(256, |i: int| i as i32)
}

/// Whether `s` holds each of `0..=255` exactly once, in some order.
pub open spec fn is_permutation_table(s: Seq<i32>) -> bool {
    s.to_multiset() == identity_table().to_multiset()
}

/// A permutation of `0..=255` has 256 entries, each between 0 and 255.
pub proof fn lemma_permutation_table_bounds(s: Seq<i32>)
    requires
        is_permutation_table(s),
    ensures
        s.len() == 256,
        forall|i: int| 0 <= i < s.len() ==> 0 <= #[trigger] s[i] < 256,
{
    assert(s.len() == s.to_multiset().len());
    assert(identity_table().len() == identity_table().to_multiset().len());
    assert forall|i: int| 0 <= i < s.len() implies 0 <= #[trigger] s[i] < 256 by {
        assert(s.to_multiset().count(s[i]) > 0);
        assert(identity_table().contains(s[i]));
        let j = choose|j: int|
            0 <= j < identity_table().len() && identity_table()[j] == s[i];
        assert(identity_table()[j] == j as i32);
    }
}

/// The gradient index picked for lattice cell `(i, j, k)` by the tables
/// `px`, `py`, `pz`.
pub open spec fn lattice_hash(
    px: Seq<i32>,
    py: Seq<i32>,
    pz: Seq<i32>,
    i: i32,
    j: i32,
    k: i32,
) -> i32 {
    px[(i & 255) as int] ^ py[(j & 255) as int] ^ pz[(k & 255) as int]
}

/// The shuffled index tables shared by all noise textures of a renderer.
#[derive(Debug)]
pub struct Perlin {
    pub perm_x: Vec<i32>,
    pub perm_y: Vec<i32>,
    pub perm_z: Vec<i32>,
}

impl Perlin {
    /// All three tables are permutations of `0..=255`.
    pub open spec fn wf(&self) -> bool {
        &&& is_permutation_table(self.perm_x@)
        &&& is_permutation_table(self.perm_y@)
        &&& is_permutation_table(self.perm_z@)
    }

    /// Builds the three tables by shuffling `0..=255` with draws from `rng`.
    pub fn new(rng: &mut XorShift32) -> (perlin: Perlin)
        ensures
            perlin.wf(),
    {
        let perm_x = Self::perlin_generate_perm(rng);
        let perm_y = Self::perlin_generate_perm(rng);
        let perm_z = Self::perlin_generate_perm(rng);
        Perlin { perm_x, perm_y, perm_z }
    }

    /// Shuffles `p` in place with draws from `rng`: entries are moved
    /// around, never changed, dropped, or duplicated.
    pub fn permute(p: &mut Vec<i32>, rng: &mut XorShift32)
        ensures
            final(p)@.len() == old(p)@.len(),
            final(p)@.to_multiset() == old(p)@.to_multiset(),
    {
        let len = p.len();
        let mut i: usize = len;
        while i > 0
            invariant
                i <= len,
                p@.len() == len,
                p@.to_multiset() == old(p)@.to_multiset(),
            decreases i,
        {
            i = i - 1;
            let draw = rng.next_bits();
            let bound = (i + 1) as u64;
            let target = (draw % bound) as usize;
            let ghost prev = p@;
            let a = p[i];
            let b = p[target];
            p[i] = b;
            let ghost mid = p@;
            p[target] = a;
            proof {
                assert(mid.to_multiset() == prev.to_multiset().insert(b).remove(a));
                assert(mid[target as int] == b);
                assert(p@.to_multiset() == mid.to_multiset().insert(a).remove(b));
                assert forall|v: i32|
                    p@.to_multiset().count(v) == prev.to_multiset().count(v) by {
                    assert(prev.to_multiset().count(a) > 0);
                    assert(prev.to_multiset().count(b) > 0);
                }
                assert(p@.to_multiset() =~= prev.to_multiset());
            }
        }
    }

    /// Fills a table with `0..=255` and shuffles it.
    pub fn perlin_generate_perm(rng: &mut XorShift32) -> (p: Vec<i32>)
        ensures
            is_permutation_table(p@),
    {
        let mut p: Vec<i32> = Vec::new();
        let mut i: usize = 0;
        while i < 256
            invariant
                i <= 256,
                p@.len() == i,
                forall|j: int| 0 <= j < i ==> #[trigger] p@[j] == j as i32,
            decreases 256 - i,
        {
            p.push(i as i32);
            i = i + 1;
        }
        proof {
            assert(p@ =~= identity_table());
        }
        Self::permute(&mut p, rng);
        p
    }

    /// Gradient index for the lattice cell `(i, j, k)`: always below 256, so
    /// it indexes the gradient array safely for every cell, negative
    /// coordinates included.
    pub fn lattice_index(&self, i: i32, j: i32, k: i32) -> (idx: usize)
        requires
            self.wf(),
        ensures
            idx < 256,
            idx == lattice_hash(self.perm_x@, self.perm_y@, self.perm_z@, i, j, k),
    {
        proof {
            assert(0 <= (i & 255) < 256 && 0 <= (j & 255) < 256 && 0 <= (k & 255) < 256)
                by (bit_vector);
            lemma_permutation_table_bounds(self.perm_x@);
            lemma_permutation_table_bounds(self.perm_y@);
            lemma_permutation_table_bounds(self.perm_z@);
        }
        let a = self.perm_x[(i & 255) as usize];
        let b = self.perm_y[(j & 255) as usize];
        let c = self.perm_z[(k & 255) as usize];
        proof {
            assert(0 <= a < 256 && 0 <= b < 256 && 0 <= c < 256 ==> 0 <= (a ^ b ^ c) < 256)
                by (bit_vector);
        }
        (a ^ b ^ c) as usize
    }
}

} // verus!
