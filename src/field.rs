use vstd::prelude::*;
use crate::merkle_tree::lemma_div_unique;
use ark_bn254::Fr;
use ark_ff::{BigInteger, PrimeField};

verus! {

/// The order of the scalar field of BN254, in which every hash, root,
/// nullifier and commitment lives.
pub open spec fn field_modulus() -> nat {
    21888242871839275222246405745257275088548364400416034343698204186575808495617nat
}

/// The number whose little-endian bytes are `b`.
pub open spec fn le_value(b: Seq<u8>) -> nat
    decreases b.len(),
{
    if b.len() == 0 {
        0
    } else {
        b[0] as nat + 256 * le_value(b.drop_first())
    }
}

/// The `n` little-endian bytes of `v` modulo `256^n`.
pub open spec fn le_bytes(v: nat, n: nat) -> Seq<u8>
    decreases n,
{
    if n == 0 {
        Seq::empty()
    } else {
        seq![(v % 256) as u8] + le_bytes(v / 256, (n - 1) as nat)
    }
}

/// `le_bytes(v, n)` has `n` bytes.
pub proof fn lemma_le_bytes_len(v: nat, n: nat)
    ensures
        le_bytes(v, n).len() == n,
    decreases n,
{
    if n > 0 {
        lemma_le_bytes_len(v / 256, (n - 1) as nat);
    }
}

/// Bytes are the little-endian bytes of their own value.
pub proof fn lemma_le_bytes_of_value(b: Seq<u8>)
    ensures
        b == le_bytes(le_value(b), b.len()),
    decreases b.len(),
{
    if b.len() > 0 {
        let rest = b.drop_first();
        lemma_le_bytes_of_value(rest);
        let v = le_value(b);
        let x = le_value(rest);
        assert(v == b[0] as nat + 256 * x);
        lemma_div_unique(v as int, 256, x as int);
        assert(v % 256 == b[0]);
        assert(b =~= seq![(v % 256) as u8] + le_bytes(v / 256, (b.len() - 1) as nat));
    }
}

/// A 32-byte value that encodes an element of the field: its little-endian
/// value is below the modulus.
pub open spec fn is_canonical(b: Seq<u8>) -> bool {
    b.len() == 32 && le_value(b) < field_modulus()
}

/// The field element of the integer `v`, as the number it is encoded by:
/// negative values wrap around the modulus.
pub open spec fn field_value(v: int) -> nat {
    (v % (field_modulus() as int)) as nat
}

/// Relies on ark_ff's `PrimeField::from_le_bytes_mod_order` for ark_bn254's `Fr`,
/// read back by `into_repr` and `BigInteger::to_bytes_le` (32 bytes): the
/// little-endian value of `bytes` reduced modulo the field's order.
#[verifier::external_body]
pub(crate) fn reduce_mod_order(bytes: &[u8; 32]) -> (r: [u8; 32])
    ensures
        le_value(r@) == le_value(bytes@) % field_modulus(),
{
    let f = Fr::from_le_bytes_mod_order(bytes);
    let mut out = [0u8; 32];
    out.copy_from_slice(&f.into_repr().to_bytes_le());
    out
}

/// Relies on ark_ff's `From<i128>` and `From<u128>` for ark_bn254's `Fr`
/// (each the residue of the integer modulo the field's order) and on its `Sub`
/// (subtraction modulo the order), read back by `into_repr` and
/// `BigInteger::to_bytes_le` (32 bytes): `a - b` modulo the field's order.
#[verifier::external_body]
pub(crate) fn field_element_of_difference(a: i128, b: u128) -> (r: [u8; 32])
    ensures
        le_value(r@) == field_value(a - b),
{
    let f = Fr::from(a) - Fr::from(b);
    let mut out = [0u8; 32];
    out.copy_from_slice(&f.into_repr().to_bytes_le());
    out
}

/// Whether `e` encodes a field element: its little-endian value is below the
/// modulus, so that reducing it changes nothing.
pub fn is_field_element(e: &[u8; 32]) -> (r: bool)
    ensures
        r == is_canonical(e@),
{
    let reduced = reduce_mod_order(e);
    proof {
        lemma_le_bytes_of_value(reduced@);
        lemma_le_bytes_of_value(e@);
        if le_value(e@) < field_modulus() {
            vstd::arithmetic::div_mod::lemma_small_mod(le_value(e@), field_modulus());
        } else {
            vstd::arithmetic::div_mod::lemma_mod_bound(le_value(e@) as int, field_modulus() as int);
        }
    }
    crate::root_history::same_element(&reduced, e)
}

} // verus!
