use vstd::prelude::*;
use crate::field::{le_value, field_modulus, is_canonical};
use ark_bn254::Fr;
use ark_ff::{BigInteger, FromBytes, PrimeField};
use arkworks_native_gadgets::poseidon::{FieldHasher, Poseidon as ArkPoseidon};
use arkworks_setups::common::setup_params;
use arkworks_setups::Curve;

verus! {

/// The Poseidon hash (BN254, x^5 S-box, width 3) of two field elements, each
/// given as 32 little-endian bytes, as 32 little-endian bytes; `None` where an
/// input does not encode a field element.
pub uninterp spec fn poseidon_of(left: Seq<u8>, right: Seq<u8>) -> Option<Seq<u8>>;

/// Relies on arkworks_setups' `setup_params(Curve::Bn254, 5, 3)`, on ark_ff's
/// `FromBytes::read` for ark_bn254's `Fr` (fails exactly on a value not below the
/// modulus) and on arkworks_native_gadgets' `Poseidon::hash` of two inputs at
/// width 3 (which then cannot fail); the digest is read back by `into_repr` and
/// `to_bytes_le`, so it is below the modulus.
#[verifier::external_body]
fn poseidon_hash_pair(left: &[u8; 32], right: &[u8; 32]) -> (r: Option<[u8; 32]>)
    ensures
        match r {
            Some(h) => poseidon_of(left@, right@) == Some(h@),
            None => poseidon_of(left@, right@) is None,
        },
        r is Some <==> (le_value(left@) < field_modulus() && le_value(right@) < field_modulus()),
        r is Some ==> le_value(r->0@) < field_modulus(),
{
    let hasher = ArkPoseidon::new(setup_params::<Fr>(Curve::Bn254, 5, 3));
    let l = Fr::read(&left[..]).ok()?;
    let r = Fr::read(&right[..]).ok()?;
    let h = hasher.hash(&[l, r]).ok()?;
    let mut out = [0u8; 32];
    out.copy_from_slice(&h.into_repr().to_bytes_le());
    Some(out)
}

/// Why a hash could not be computed.
#[derive(Debug, Clone, Copy, PartialEq, Eq, Structural)]
pub enum PoseidonError {
    /// An input is not the encoding of a field element.
    HashError,
    /// Only pairs are hashed.
    InvalidHashInputWidth,
}

/// The two-input Poseidon hash that combines the nodes of the Merkle trees.
#[derive(Debug, Clone, Copy)]
pub struct Poseidon {}

impl Poseidon {
    pub fn new() -> (r: Poseidon) {
        Poseidon {}
    }

    /// The hash of two field elements, as in `poseidon_of`.
    pub fn hash_left_right(&self, left: &[u8; 32], right: &[u8; 32]) -> (r: Result<[u8; 32], PoseidonError>)
        ensures
            match r {
                Ok(h) => poseidon_of(left@, right@) == Some(h@) && is_canonical(h@),
                Err(e) => e == PoseidonError::HashError && poseidon_of(left@, right@) is None,
            },
            r is Ok <==> (is_canonical(left@) && is_canonical(right@)),
    {
        match poseidon_hash_pair(left, right) {
            Some(h) => Ok(h),
            None => Err(PoseidonError::HashError),
        }
    }

    /// The hash of `inputs`, which must be a pair of field elements.
    pub fn hash(&self, inputs: Vec<[u8; 32]>) -> (r: Result<[u8; 32], PoseidonError>)
        ensures
            inputs@.len() != 2 ==> r == Err::<[u8; 32], PoseidonError>(PoseidonError::InvalidHashInputWidth),
            inputs@.len() == 2 ==> match r {
                Ok(h) => poseidon_of(inputs@[0]@, inputs@[1]@) == Some(h@),
                Err(e) => e == PoseidonError::HashError && poseidon_of(inputs@[0]@, inputs@[1]@) is None,
            },
    {
        if inputs.len() != 2 {
            return Err(PoseidonError::InvalidHashInputWidth);
        }
        self.hash_left_right(&inputs[0], &inputs[1])
    }
}

} // verus!
