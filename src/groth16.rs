use vstd::prelude::*;
use crate::mixer::{VerifierError, VerifyWithdrawal};
use crate::vanchor::VerifyProof;
use ark_bn254::{Bn254, Fr};
use ark_groth16::{prepare_verifying_key, verify_proof, Proof, VerifyingKey};
use ark_serialize::CanonicalDeserialize;
use arkworks_native_gadgets::to_field_elements;

verus! {

/// The Groth16 verdict over BN254 on `proof` for `public_inputs` under the
/// verifying key `vk`, all three as bytes; `None` where the bytes do not
/// decode or the key does not fit the number of inputs.
pub uninterp spec fn groth16_verdict(vk: Seq<u8>, public_inputs: Seq<u8>, proof: Seq<u8>) -> Option<bool>;

/// Relies on arkworks_native_gadgets' `to_field_elements` (the inputs as 32-byte
/// chunks of ark_bn254's `Fr`), on ark_serialize's `CanonicalDeserialize` for
/// ark_groth16's `VerifyingKey<Bn254>` and `Proof<Bn254>`, and on ark_groth16's
/// `prepare_verifying_key` and `verify_proof`: `None` where one of them fails,
/// else the verdict.
#[verifier::external_body]
fn groth16_verify_bn254(public_inputs: &[u8], proof: &[u8], vk: &[u8]) -> (r: Option<bool>)
    ensures
        r == groth16_verdict(vk@, public_inputs@, proof@),
{
    let inputs = to_field_elements::<Fr>(public_inputs).ok()?;
    let vk = VerifyingKey::<Bn254>::deserialize(vk).ok()?;
    let proof = Proof::<Bn254>::deserialize(proof).ok()?;
    verify_proof(&prepare_verifying_key(&vk), &proof, &inputs).ok()
}

/// The answer a verifier with key `vk` gives.
pub open spec fn verifier_answer(vk: Seq<u8>, public_inputs: Seq<u8>, proof: Seq<u8>) -> Result<bool, VerifierError> {
    match groth16_verdict(vk, public_inputs, proof) {
        Some(b) => Ok(b),
        None => Err(VerifierError::VerifierError),
    }
}

/// Verifies proofs of one circuit of the variable-amount pool.
pub struct VAnchorVerifier {
    vk_bytes: Vec<u8>,
}

impl VAnchorVerifier {
    /// The serialized verifying key of the circuit.
    pub closed spec fn vk(&self) -> Seq<u8> {
        self.vk_bytes@
    }

    pub fn new(vk_bytes: Vec<u8>) -> (r: VAnchorVerifier)
        ensures
            r.vk() == vk_bytes@,
    {
        VAnchorVerifier { vk_bytes }
    }

    /// Verifies `proof_bytes` against `public_inp_bytes`.
    pub fn verify(&self, public_inp_bytes: Vec<u8>, proof_bytes: Vec<u8>) -> (r: Result<bool, VerifierError>)
        ensures
            r == verifier_answer(self.vk(), public_inp_bytes@, proof_bytes@),
    {
        match groth16_verify_bn254(public_inp_bytes.as_slice(), proof_bytes.as_slice(), self.vk_bytes.as_slice()) {
            Some(b) => Ok(b),
            None => Err(VerifierError::VerifierError),
        }
    }
}

/// Verifies withdrawal proofs of the fixed-amount pools.
pub struct MixerVerifier {
    vk_bytes: Vec<u8>,
}

impl MixerVerifier {
    /// The serialized verifying key of the circuit.
    pub closed spec fn vk(&self) -> Seq<u8> {
        self.vk_bytes@
    }

    pub fn new(vk_bytes: Vec<u8>) -> (r: MixerVerifier)
        ensures
            r.vk() == vk_bytes@,
    {
        MixerVerifier { vk_bytes }
    }
}

impl VerifyWithdrawal for MixerVerifier {
    open spec fn answer(&self, public_input: Seq<u8>, proof_bytes: Seq<u8>) -> Result<bool, VerifierError> {
        verifier_answer(self.vk(), public_input, proof_bytes)
    }

    fn verify(&self, public_input: &Vec<u8>, proof_bytes: &Vec<u8>) -> (r: Result<bool, VerifierError>) {
        match groth16_verify_bn254(public_input.as_slice(), proof_bytes.as_slice(), self.vk_bytes.as_slice()) {
            Some(b) => Ok(b),
            None => Err(VerifierError::VerifierError),
        }
    }
}

/// The verifiers of the two circuits of the variable-amount pool: two inputs
/// and two outputs, sixteen inputs and two outputs.
pub struct VAnchorVerifiers {
    pub verifier_2_2: VAnchorVerifier,
    pub verifier_16_2: VAnchorVerifier,
}

impl VerifyProof for VAnchorVerifiers {
    open spec fn accepts_2_2(&self, public_inputs: Seq<u8>, proof: Seq<u8>) -> bool {
        groth16_verdict(self.verifier_2_2.vk(), public_inputs, proof) == Some(true)
    }

    open spec fn accepts_2_16(&self, public_inputs: Seq<u8>, proof: Seq<u8>) -> bool {
        groth16_verdict(self.verifier_16_2.vk(), public_inputs, proof) == Some(true)
    }

    fn verify_2_2_proof(&self, public_inputs: &Vec<u8>, proof: &Vec<u8>) -> (r: bool) {
        match groth16_verify_bn254(public_inputs.as_slice(), proof.as_slice(), self.verifier_2_2.vk_bytes.as_slice()) {
            Some(b) => b,
            None => false,
        }
    }

    fn verify_2_16_proof(&self, public_inputs: &Vec<u8>, proof: &Vec<u8>) -> (r: bool) {
        match groth16_verify_bn254(public_inputs.as_slice(), proof.as_slice(), self.verifier_16_2.vk_bytes.as_slice()) {
            Some(b) => b,
            None => false,
        }
    }
}

} // verus!
