use std::cell::RefCell;

use protocol_ink::error::Error;
use protocol_ink::mixer::{Mixer, VerifyWithdrawal, VerifierError, WithdrawParams};
use protocol_ink::vanchor::Transfer;

struct Answer(Result<bool, VerifierError>, RefCell<Vec<Vec<u8>>>);

impl VerifyWithdrawal for Answer {
    fn verify(&self, public_input: &Vec<u8>, _proof_bytes: &Vec<u8>) -> Result<bool, VerifierError> {
        self.1.borrow_mut().push(public_input.clone());
        self.0
    }
}

fn answer(a: Result<bool, VerifierError>) -> Answer {
    Answer(a, RefCell::new(Vec::new()))
}

fn element(i: u8) -> [u8; 32] {
    let mut e = [i; 32];
    e[31] = 0;
    e
}

fn params(root: [u8; 32], fee: u128, refund: u128) -> WithdrawParams {
    WithdrawParams {
        proof_bytes: vec![1, 2],
        root,
        nullifier_hash: element(40),
        recipient: [0x0c; 32],
        relayer: [0x0d; 32],
        fee,
        refund,
    }
}

#[test]
fn mixer_deposit_needs_the_fixed_size() {
    let mut m = Mixer::new(4, 100);
    assert_eq!(m.deposit(element(1), 99), Err(Error::InvalidDepositAmount));
    assert_eq!(m.deposit(element(1), 100), Ok(0));
    assert_eq!(m.deposit(element(2), 100), Ok(1));
    assert_eq!(m.levels(), 4);
    assert_eq!(m.deposit_size(), 100);
}

#[test]
fn mixer_withdraw_pays_out_once() {
    let mut m = Mixer::new(4, 100);
    m.deposit(element(1), 100).unwrap();
    let p = params(m.get_last_root(), 7, 3);
    let v = answer(Ok(true));
    let transfers = m.withdraw(&v, &p).unwrap();
    assert_eq!(
        transfers,
        vec![
            Transfer { to: vec![0x0c; 32], amount: 93 },
            Transfer { to: vec![0x0d; 32], amount: 7 },
            Transfer { to: vec![0x0c; 32], amount: 3 },
        ]
    );
    assert!(m.is_known_nullifier(element(40)));
    let inputs = &v.1.borrow()[0];
    assert_eq!(inputs.len(), 96);
    assert_eq!(&inputs[..32], &element(40));
    assert_eq!(&inputs[32..64], &p.root);
    assert_eq!(m.withdraw(&v, &p), Err(Error::AlreadyRevealedNullifier));
}

#[test]
fn mixer_withdraw_errors() {
    let mut m = Mixer::new(4, 100);
    m.deposit(element(1), 100).unwrap();
    let root = m.get_last_root();
    assert_eq!(m.withdraw(&answer(Ok(true)), &params(element(9), 0, 0)), Err(Error::UnknownRoot));
    assert_eq!(m.withdraw(&answer(Ok(true)), &params(root, 101, 0)), Err(Error::InvalidFeeAmount));
    assert_eq!(m.withdraw(&answer(Ok(false)), &params(root, 1, 0)), Err(Error::InvalidWithdrawProof));
    assert_eq!(
        m.withdraw(&answer(Err(VerifierError::VerifierError)), &params(root, 1, 0)),
        Err(Error::VerifyError)
    );
    assert!(!m.is_known_nullifier(element(40)));
    let transfers = m.complete_withdraw(&params(root, 0, 0), Ok(true)).unwrap();
    assert_eq!(transfers.len(), 2);
    assert_eq!(transfers[0].amount, 100);
}

#[test]
fn mixer_public_inputs_bind_the_payout() {
    let m = Mixer::new(2, 100);
    let a = m.public_inputs(&params(element(1), 1, 0));
    let b = m.public_inputs(&params(element(1), 2, 0));
    assert_eq!(a.len(), 96);
    assert_eq!(a[..64], b[..64]);
    assert_ne!(a[64..], b[64..]);
}
