//! Elementwise arithmetic over GF(2^8), the field the shard processor
//! computes in.
//!
//! Field addition comes from the erasure-coding crate; the boolean-style
//! operations interpret a byte by its zeroness.

use vstd::prelude::*;

verus! {

/// Field addition in GF(2^8): addition of polynomials over GF(2) is XOR of
/// the coefficient bytes. Subtraction coincides with addition, and every
/// element is its own additive inverse.
pub open spec fn gf_add_spec(a: u8, b: u8) -> u8 {
    a ^ b
}

/// Relies on reed_solomon_erasure::galois_8::add: it returns `a ^ b`.
#[verifier::external_body]
pub fn gf_add(a: u8, b: u8) -> (r: u8)
    ensures
        r == gf_add_spec(a, b),
{
    reed_solomon_erasure::galois_8::add(a, b)
}

/// Boolean NAND on zeroness: 0 exactly when both inputs are non-zero.
pub open spec fn nand_byte(a: u8, b: u8) -> u8 {
    if a != 0 && b != 0 {
        0
    } else {
        1
    }
}

/// Boolean NOR on zeroness: 1 exactly when both inputs are zero.
pub open spec fn nor_byte(a: u8, b: u8) -> u8 {
    if a == 0 && b == 0 {
        1
    } else {
        0
    }
}

/// Applies `f` elementwise to two equally long byte vectors.
pub fn map_zip<F: Fn(u8, u8) -> u8>(a: &Vec<u8>, b: &Vec<u8>, f: F) -> (r: Vec<u8>)
    requires
        a@.len() == b@.len(),
        forall|i: int| 0 <= i < a@.len() ==> #[trigger] f.requires((a@[i], b@[i])),
    ensures
        r@.len() == a@.len(),
        forall|i: int| 0 <= i < r@.len() ==> f.ensures((a@[i], b@[i]), #[trigger] r@[i]),
{
    let mut r: Vec<u8> = Vec::new();
    let mut i: usize = 0;
    while i < a.len()
        invariant
            i <= a@.len(),
            a@.len() == b@.len(),
            r@.len() == i,
            forall|j: int| 0 <= j < a@.len() ==> #[trigger] f.requires((a@[j], b@[j])),
            forall|j: int| 0 <= j < i ==> f.ensures((a@[j], b@[j]), #[trigger] r@[j]),
        decreases a@.len() - i,
    {
        let x = f(a[i], b[i]);
        r.push(x);
        i = i + 1;
    }
    r
}

/// Elementwise GF(2^8) addition of two equally long byte vectors.
pub open spec fn gf_add_seq(a: Seq<u8>, b: Seq<u8>) -> Seq<u8> {
    Seq::new(a.len(), |i: int| gf_add_spec(a[i], b[i]))
}

/// Elementwise NAND of two equally long byte vectors.
pub open spec fn nand_seq(a: Seq<u8>, b: Seq<u8>) -> Seq<u8> {
    Seq::new(a.len(), |i: int| nand_byte(a[i], b[i]))
}

/// Elementwise NOR of two equally long byte vectors.
pub open spec fn nor_seq(a: Seq<u8>, b: Seq<u8>) -> Seq<u8> {
    Seq::new(a.len(), |i: int| nor_byte(a[i], b[i]))
}

/// Elementwise field addition.
pub fn add_vecs(a: &Vec<u8>, b: &Vec<u8>) -> (r: Vec<u8>)
    requires
        a@.len() == b@.len(),
    ensures
        r@ == gf_add_seq(a@, b@),
{
    let r = map_zip(a, b, |x: u8, y: u8| -> (z: u8)
        ensures
            z == gf_add_spec(x, y),
        {
            gf_add(x, y)
        });
    proof {
        assert(r@ =~= gf_add_seq(a@, b@));
    }
    r
}

/// Elementwise NAND on zeroness.
pub fn nand_vecs(a: &Vec<u8>, b: &Vec<u8>) -> (r: Vec<u8>)
    requires
        a@.len() == b@.len(),
    ensures
        r@ == nand_seq(a@, b@),
{
    let r = map_zip(a, b, |x: u8, y: u8| -> (z: u8)
        ensures
            z == nand_byte(x, y),
        {
            if x != 0 && y != 0 {
                0
            } else {
                1
            }
        });
    proof {
        assert(r@ =~= nand_seq(a@, b@));
    }
    r
}

/// Elementwise NOR on zeroness.
pub fn nor_vecs(a: &Vec<u8>, b: &Vec<u8>) -> (r: Vec<u8>)
    requires
        a@.len() == b@.len(),
    ensures
        r@ == nor_seq(a@, b@),
{
    let r = map_zip(a, b, |x: u8, y: u8| -> (z: u8)
        ensures
            z == nor_byte(x, y),
        {
            if x == 0 && y == 0 {
                1
            } else {
                0
            }
        });
    proof {
        assert(r@ =~= nor_seq(a@, b@));
    }
    r
}

} // verus!
