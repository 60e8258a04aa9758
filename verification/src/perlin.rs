//! Permutation tables of the Perlin noise generator.
//!
//! Classic Perlin noise hashes each lattice corner through three shuffled
//! byte tables — one per axis — XORed together, and uses the hash to pick a
//! gradient vector. The tables and the hash are here; the gradients and the
//! Hermite-smoothed interpolation are real-valued and live with the host.

use vstd::prelude::*;
use vstd::seq_lib::group_to_multiset_ensures;

use rand::seq::SliceRandom;

verus! {

/// Number of entries in each permutation table, and of gradient vectors.
pub const TABLE_SIZE: usize = 256;

/// A handle to the thread-local random number generator of the rand crate.
#[verifier::external_type_specification]
#[verifier::external_body]
pub struct ExThreadRng(rand::rngs::ThreadRng);

/// Relies on rand::thread_rng: a handle to the calling thread's generator.
/// Nothing is promised of the numbers it will yield.
#[verifier::external_body]
fn fresh_rng() -> rand::rngs::ThreadRng {
    rand::thread_rng()
}

/// Relies on rand::seq::SliceRandom::shuffle: reorders the elements of the
/// slice in place, keeping exactly the same elements. Which order comes out
/// depends on the generator, so only the multiset of elements is stated.
#[verifier::external_body]
fn shuffle_table(v: &mut Vec<u8>, rng: &mut rand::rngs::ThreadRng)
    ensures
        final(v)@.to_multiset() == old(v)@.to_multiset(),
{
    v.shuffle(rng);
}

/// A full table: every byte value appears, each exactly once.
pub open spec fn table_wf(t: Seq<u8>) -> bool {
    t.len() == TABLE_SIZE && t.to_multiset() == Seq::new(
        TABLE_SIZE as nat,
        |i: int| i as u8,
    ).to_multiset()
}

/// The identity table: entry `i` holds `i`.
fn identity_table() -> (v: Vec<u8>)
    ensures
        v@ == Seq::new(TABLE_SIZE as nat, |i: int| i as u8),
{
    let mut v: Vec<u8> = Vec::new();
    let mut i: usize = 0;
    while i < TABLE_SIZE
        invariant
            i <= TABLE_SIZE,
            v@.len() == i,
            forall|k: int| 0 <= k < i ==> #[trigger] v@[k] == k as u8,
        decreases TABLE_SIZE - i,
    {
        v.push(i as u8);
        i = i + 1;
    }
    proof {
        assert(v@ =~= Seq::new(TABLE_SIZE as nat, |i: int| i as u8));
    }
    v
}

/// A fresh permutation of the byte values: the identity table, shuffled.
fn new_permutation(rng: &mut rand::rngs::ThreadRng) -> (v: Vec<u8>)
    ensures
        table_wf(v@),
{
    let mut v = identity_table();
    shuffle_table(&mut v, rng);
    proof {
        broadcast use group_to_multiset_ensures;

        let idseq = Seq::new(TABLE_SIZE as nat, |i: int| i as u8);
        assert(v@.to_multiset().len() == v@.len());
        assert(idseq.to_multiset().len() == idseq.len());
    }
    v
}

/// The three axis tables of one Perlin noise generator.
#[derive(Clone, Debug)]
pub struct PerlinTables {
    pub perm_x: Vec<u8>,
    pub perm_y: Vec<u8>,
    pub perm_z: Vec<u8>,
}

impl PerlinTables {
    pub open spec fn wf(self) -> bool {
        &&& table_wf(self.perm_x@)
        &&& table_wf(self.perm_y@)
        &&& table_wf(self.perm_z@)
    }

    /// Three freshly shuffled tables.
    pub fn new() -> (t: PerlinTables)
        ensures
            t.wf(),
    {
        let mut rng = fresh_rng();
        let perm_x = new_permutation(&mut rng);
        let perm_y = new_permutation(&mut rng);
        let perm_z = new_permutation(&mut rng);
        PerlinTables { perm_x, perm_y, perm_z }
    }

    /// The gradient index of the lattice corner `(x, y, z)`: each axis
    /// coordinate's low byte is sent through that axis's table, and the
    /// three table entries are XORed.
    pub open spec fn spec_gradient_index(self, x: i32, y: i32, z: i32) -> int {
        (self.perm_x@[((x as u32) & 255) as int] ^ self.perm_y@[((y as u32) & 255) as int]
            ^ self.perm_z@[((z as u32) & 255) as int]) as int
    }

    /// Hash a lattice corner to an index below [`TABLE_SIZE`], fit to pick
    /// a gradient vector.
    pub fn gradient_index(&self, x: i32, y: i32, z: i32) -> (r: usize)
        requires
            self.wf(),
        ensures
            r == self.spec_gradient_index(x, y, z),
            r < TABLE_SIZE,
    {
        let xi = ((x as u32) & 255) as usize;
        let yi = ((y as u32) & 255) as usize;
        let zi = ((z as u32) & 255) as usize;
        proof {
            assert(((x as u32) & 255) < 256 && ((y as u32) & 255) < 256 && ((z as u32) & 255)
                < 256) by (bit_vector);
        }
        (self.perm_x[xi] ^ self.perm_y[yi] ^ self.perm_z[zi]) as usize
    }
}

} // verus!
