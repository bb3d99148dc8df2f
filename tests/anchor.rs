use std::cell::RefCell;

use protocol_ink::anchor::{Anchor, WithdrawParams};
use protocol_ink::error::Error;
use protocol_ink::linkable_merkle_tree::Edge;
use protocol_ink::mixer::{VerifierError, VerifyWithdrawal};
use protocol_ink::vanchor::Transfer;

struct Answer(Result<bool, VerifierError>, RefCell<Vec<Vec<u8>>>);

impl VerifyWithdrawal for Answer {
    fn verify(&self, public_input: &Vec<u8>, _proof_bytes: &Vec<u8>) -> Result<bool, VerifierError> {
        self.1.borrow_mut().push(public_input.clone());
        self.0
    }
}

fn answer(a: Result<bool, VerifierError>) -> Answer {
    Answer(a, RefCell::new(Vec::new()))
}

fn element(i: u8) -> [u8; 32] {
    let mut e = [i; 32];
    e[31] = 0;
    e
}

fn linked_anchor() -> Anchor {
    let mut a = Anchor::new(2, 1, 4, 100);
    a.deposit(element(1), 100).unwrap();
    a.update_edge(Edge { chain_id: 5, root: element(2), latest_leaf_index: 1, target: element(3) }).unwrap();
    a
}

fn params(roots: Vec<[u8; 32]>, fee: u128) -> WithdrawParams {
    WithdrawParams {
        proof_bytes: vec![7],
        roots,
        nullifier_hash: element(40),
        recipient: [0x0c; 32],
        relayer: [0x0d; 32],
        fee,
        refund: 0,
    }
}

#[test]
fn anchor_withdraw_against_linked_roots() {
    let mut a = linked_anchor();
    let p = params(vec![a.get_last_root(), element(2)], 10);
    let v = answer(Ok(true));
    assert_eq!(
        a.withdraw(&v, &p),
        Ok(vec![Transfer { to: vec![0x0c; 32], amount: 90 }, Transfer { to: vec![0x0d; 32], amount: 10 }])
    );
    let inputs = &v.1.borrow()[0];
    assert_eq!(inputs.len(), 192);
    assert_eq!(&inputs[..32], &element(40));
    assert_eq!(&inputs[64..84], &[0x0c; 20]);
    assert_eq!(&inputs[84..96], &[0u8; 12]);
    // the fee, big-endian, in the first 16 bytes of its field element
    assert_eq!(inputs[128 + 15], 10);
    assert!(inputs[128..128 + 15].iter().all(|b| *b == 0));
    assert!(a.is_known_nullifier(element(40)));
    assert_eq!(a.withdraw(&v, &p), Err(Error::AlreadyRevealedNullifier));
}

#[test]
fn anchor_withdraw_errors() {
    let mut a = linked_anchor();
    let root = a.get_last_root();
    assert_eq!(a.withdraw(&answer(Ok(true)), &params(vec![root], 0)), Err(Error::UnmatchedEdges));
    assert_eq!(a.withdraw(&answer(Ok(true)), &params(vec![element(9), element(2)], 0)), Err(Error::UnknownRoot));
    assert_eq!(a.withdraw(&answer(Ok(true)), &params(vec![root, element(9)], 0)), Err(Error::InvalidMerkleRoots));
    assert_eq!(a.withdraw(&answer(Ok(true)), &params(vec![root, element(2)], 101)), Err(Error::InvalidFeeAmount));
    assert_eq!(a.withdraw(&answer(Ok(false)), &params(vec![root, element(2)], 1)), Err(Error::InvalidWithdrawProof));
    assert_eq!(
        a.complete_withdraw(&params(vec![root, element(2)], 1), Err(VerifierError::VerifierError)),
        Err(Error::VerifyError)
    );
    assert!(!a.is_known_nullifier(element(40)));
    assert_eq!(a.deposit(element(5), 99), Err(Error::InvalidDepositAmount));
    assert_eq!(a.deposit(element(5), 100), Ok(1));
}

#[test]
fn anchor_edge_updates_follow_the_registry_rules() {
    let mut a = Anchor::new(2, 1, 4, 100);
    let e = |chain_id: u64, leaf: u32| Edge { chain_id, root: element(2), latest_leaf_index: leaf, target: element(3) };
    assert_eq!(a.update_edge(e(5, 10)), Ok(()));
    assert_eq!(a.update_edge(e(5, 10)), Err(Error::StaleOrReplayedEdge));
    assert_eq!(a.update_edge(e(5, 11)), Ok(()));
    assert_eq!(a.update_edge(e(6, 1)), Ok(()));
    assert_eq!(a.update_edge(e(7, 1)), Err(Error::EdgeListFull));
}
