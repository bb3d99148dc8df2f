use protocol_ink::groth16::{MixerVerifier, VAnchorVerifier, VAnchorVerifiers};
use protocol_ink::mixer::{Mixer, VerifierError, VerifyWithdrawal, WithdrawParams};
use protocol_ink::error::Error;
use protocol_ink::vanchor::VerifyProof;

#[test]
fn malformed_key_gives_no_verdict() {
    let v = VAnchorVerifier::new(vec![0u8]);
    assert_eq!(v.verify(vec![0u8; 64], vec![1, 2, 3]), Err(VerifierError::VerifierError));
    let m = MixerVerifier::new(vec![]);
    assert_eq!(m.verify(&vec![0u8; 96], &vec![]), Err(VerifierError::VerifierError));
}

#[test]
fn malformed_key_rejects_transactions() {
    let vs = VAnchorVerifiers { verifier_2_2: VAnchorVerifier::new(vec![1]), verifier_16_2: VAnchorVerifier::new(vec![2]) };
    assert!(!vs.verify_2_2_proof(&vec![0u8; 32], &vec![0u8; 8]));
    assert!(!vs.verify_2_16_proof(&vec![0u8; 32], &vec![0u8; 8]));
}

#[test]
fn mixer_withdraw_with_unusable_key_is_a_verify_error() {
    let mut m = Mixer::new(3, 10);
    let mut c = [1u8; 32];
    c[31] = 0;
    m.deposit(c, 10).unwrap();
    let p = WithdrawParams {
        proof_bytes: vec![0u8; 10],
        root: m.get_last_root(),
        nullifier_hash: c,
        recipient: [2; 32],
        relayer: [3; 32],
        fee: 1,
        refund: 0,
    };
    assert_eq!(m.withdraw(&MixerVerifier::new(vec![0u8; 4]), &p), Err(Error::VerifyError));
    assert!(!m.is_known_nullifier(c));
}
