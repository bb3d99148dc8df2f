use std::cell::RefCell;

use protocol_ink::error::Error;
use protocol_ink::ext_data::ExtData;
use protocol_ink::vanchor::{
    typed_chain_id_ink, ProofData, Transfer, UnwrapCall, UnwrapWithdrawal, VAnchor, VerifyProof, WrapCall, WrapDeposit,
};

const WRAPPER: [u8; 32] = [0x77; 32];

struct Verdict(bool);

impl VerifyProof for Verdict {
    fn verify_2_2_proof(&self, _public_inputs: &Vec<u8>, _proof: &Vec<u8>) -> bool {
        self.0
    }

    fn verify_2_16_proof(&self, _public_inputs: &Vec<u8>, _proof: &Vec<u8>) -> bool {
        self.0
    }
}

struct Recorder(RefCell<Vec<(Vec<u8>, Vec<u8>, u32)>>);

impl VerifyProof for Recorder {
    fn verify_2_2_proof(&self, public_inputs: &Vec<u8>, proof: &Vec<u8>) -> bool {
        self.0.borrow_mut().push((public_inputs.clone(), proof.clone(), 2));
        true
    }

    fn verify_2_16_proof(&self, public_inputs: &Vec<u8>, proof: &Vec<u8>) -> bool {
        self.0.borrow_mut().push((public_inputs.clone(), proof.clone(), 16));
        true
    }
}

fn element(i: u8) -> [u8; 32] {
    let mut e = [i; 32];
    e[31] = 0;
    e
}

/// The field encoding of `v`: `v` itself, or the modulus minus `|v|`.
fn field_encoding(v: i128) -> [u8; 32] {
    let mut out = [0u8; 32];
    if v >= 0 {
        out[..16].copy_from_slice(&(v as u128).to_le_bytes());
        return out;
    }
    modulus_minus(v.unsigned_abs())
}

fn modulus_minus(m: u128) -> [u8; 32] {
    let modulus: [u64; 4] = [4891460686036598785, 2896914383306846353, 13281191951274694749, 3486998266802970665];
    let sub: [u64; 4] = [m as u64, (m >> 64) as u64, 0, 0];
    let mut out = [0u8; 32];
    let mut borrow = 0u64;
    for i in 0..4 {
        let (d1, b1) = modulus[i].overflowing_sub(sub[i]);
        let (d2, b2) = d1.overflowing_sub(borrow);
        borrow = (b1 || b2) as u64;
        out[i * 8..i * 8 + 8].copy_from_slice(&d2.to_le_bytes());
    }
    out
}

fn public_amount_of(ext_amount: i128, fee: u128) -> [u8; 32] {
    match ext_amount.checked_sub(fee as i128) {
        Some(d) if fee <= i128::MAX as u128 => field_encoding(d),
        _ => modulus_minus(ext_amount.unsigned_abs() + fee),
    }
}

fn ext_data(ext_amount: i128, fee: u128) -> ExtData {
    ExtData::new(vec![0x0a; 32], vec![0x0b; 32], ext_amount, fee, vec![1, 2, 3], vec![4, 5])
}

fn hash_of(ext: &ExtData) -> [u8; 32] {
    let v = ext.get_encode();
    let mut out = [0u8; 32];
    out.copy_from_slice(&v);
    out
}

/// A pool with one deposit and one linked chain, and a transaction against
/// their current roots.
fn setup(ext_amount: i128, fee: u128) -> (VAnchor, ProofData, ExtData) {
    let mut pool = VAnchor::new(2, 1, 5, 1000, 0, 1000, 100, WRAPPER);
    pool.deposit(element(1)).unwrap();
    pool.update_edge(7, element(2), 1, element(3)).unwrap();
    let ext = ext_data(ext_amount, fee);
    let proof = ProofData {
        proof: vec![9, 9, 9],
        public_amount: public_amount_of(ext_amount, fee),
        roots: vec![pool.get_last_root(), element(2)],
        input_nullifiers: vec![element(20), element(21)],
        output_commitments: vec![element(30), element(31)],
        ext_data_hash: hash_of(&ext),
    };
    (pool, proof, ext)
}

#[test]
fn valid_transaction_is_committed() {
    let (mut pool, proof, ext) = setup(10, 0);
    assert_eq!(pool.transact(&Verdict(true), &proof, &ext), Ok(()));
    assert!(pool.is_known_nullifier(element(20)));
    assert!(pool.is_known_nullifier(element(21)));
    assert!(!pool.is_known_nullifier(element(22)));
}

#[test]
fn double_spend_is_refused_without_change() {
    let (mut pool, proof, ext) = setup(10, 0);
    assert_eq!(pool.transact(&Verdict(true), &proof, &ext), Ok(()));
    let root = pool.get_last_root();
    let mut again = proof.clone();
    again.roots[0] = root;
    again.output_commitments = vec![element(40), element(41)];
    assert_eq!(pool.transact(&Verdict(true), &again, &ext), Err(Error::AlreadyRevealedNullifier));
    assert_eq!(pool.get_last_root(), root);
    assert!(!pool.is_known_root([0u8; 32]));
}

#[test]
fn mutated_ext_data_is_refused() {
    let (mut pool, proof, ext) = setup(10, 0);
    let root = pool.get_last_root();
    let mut changed = ext.clone();
    changed.encrypted_output1[0] ^= 1;
    assert_eq!(pool.transact(&Verdict(true), &proof, &changed), Err(Error::InvalidExtData));
    let mut changed = ext.clone();
    changed.recipient[5] ^= 0x80;
    assert_eq!(pool.transact(&Verdict(true), &proof, &changed), Err(Error::InvalidExtData));
    let mut changed = ext.clone();
    changed.fee = 1;
    assert_eq!(pool.transact(&Verdict(true), &proof, &changed), Err(Error::InvalidExtData));
    assert_eq!(pool.get_last_root(), root);
    assert!(!pool.is_known_nullifier(element(20)));
}

#[test]
fn public_amount_of_positive_amount() {
    let (pool, proof, ext) = setup(10, 0);
    let mut expected = [0u8; 32];
    expected[0] = 10;
    assert_eq!(proof.public_amount, expected);
    assert!(pool.check_public_inputs(&proof, &ext).is_ok());
}

#[test]
fn public_amount_of_negative_amount_wraps() {
    let (pool, proof, ext) = setup(-10, 0);
    assert_eq!(proof.public_amount[0], 0xf7);
    assert!(pool.check_public_inputs(&proof, &ext).is_ok());
    let mut wrong = proof.clone();
    let mut ten = [0u8; 32];
    ten[0] = 10;
    wrong.public_amount = ten;
    assert_eq!(pool.check_public_inputs(&wrong, &ext), Err(Error::InvalidPublicAmount));
}

#[test]
fn public_amount_subtracts_the_fee() {
    let (pool, proof, ext) = setup(50, 20);
    let mut thirty = [0u8; 32];
    thirty[0] = 30;
    assert_eq!(proof.public_amount, thirty);
    assert!(pool.check_public_inputs(&proof, &ext).is_ok());
}

#[test]
fn public_inputs_layout() {
    let (mut pool, proof, ext) = setup(10, 0);
    let recorder = Recorder(RefCell::new(Vec::new()));
    assert_eq!(pool.transact(&recorder, &proof, &ext), Ok(()));
    let calls = recorder.0.borrow();
    assert_eq!(calls.len(), 1);
    let (inputs, bytes, circuit) = &calls[0];
    assert_eq!(*circuit, 2);
    assert_eq!(bytes, &vec![9, 9, 9]);
    let mut expected = Vec::new();
    expected.extend_from_slice(&proof.public_amount);
    expected.extend_from_slice(&proof.ext_data_hash);
    expected.extend_from_slice(&element(20));
    expected.extend_from_slice(&element(21));
    expected.extend_from_slice(&element(30));
    expected.extend_from_slice(&element(31));
    let mut chain = [0u8; 32];
    chain[..8].copy_from_slice(&typed_chain_id_ink(1).to_le_bytes());
    expected.extend_from_slice(&chain);
    for r in &proof.roots {
        expected.extend_from_slice(r);
    }
    assert_eq!(inputs, &expected);
    assert_eq!(typed_chain_id_ink(1), 0x0600_0000_0001);
}

#[test]
fn each_check_has_its_error() {
    let (mut pool, proof, ext) = setup(10, 0);
    let mut p = proof.clone();
    p.roots.push(element(2));
    assert_eq!(pool.transact(&Verdict(true), &p, &ext), Err(Error::UnmatchedEdges));
    let mut p = proof.clone();
    p.roots[0] = element(50);
    assert_eq!(pool.transact(&Verdict(true), &p, &ext), Err(Error::UnknownRoot));
    let mut p = proof.clone();
    p.roots[1] = element(51);
    assert_eq!(pool.transact(&Verdict(true), &p, &ext), Err(Error::InvalidMerkleRoots));
    assert_eq!(pool.transact(&Verdict(false), &proof, &ext), Err(Error::InvalidTxProof));
    let mut p = proof.clone();
    p.input_nullifiers.push(element(22));
    assert_eq!(pool.transact(&Verdict(true), &p, &ext), Err(Error::InvalidTxProof));
    assert_eq!(pool.execute_transaction(&proof, &ext, false), Err(Error::InvalidTxProof));
    assert!(!pool.is_known_nullifier(element(20)));
}

#[test]
fn limits_are_checked() {
    let (mut pool, proof, ext) = setup(10, 200);
    assert_eq!(pool.transact(&Verdict(true), &proof, &ext), Err(Error::InvalidFeeAmount));
    let (mut pool, proof, ext) = setup(-2000, 0);
    assert_eq!(pool.transact(&Verdict(true), &proof, &ext), Err(Error::InvalidExtAmount));
    pool.update_vanchor_config(5000, 100);
    assert_eq!(pool.transact(&Verdict(true), &proof, &ext), Ok(()));
}

#[test]
fn sixteen_input_circuit_is_used() {
    let (mut pool, mut proof, ext) = setup(10, 0);
    proof.input_nullifiers = (0..16u8).map(|i| element(60 + i)).collect();
    let recorder = Recorder(RefCell::new(Vec::new()));
    assert_eq!(pool.transact(&recorder, &proof, &ext), Ok(()));
    assert_eq!(recorder.0.borrow()[0].2, 16);
    assert!(pool.is_known_nullifier(element(75)));
}

#[test]
fn commitments_must_fit_the_tree() {
    let mut pool = VAnchor::new(1, 1, 1, 1000, 0, 1000, 100, WRAPPER);
    pool.deposit(element(1)).unwrap();
    let ext = ext_data(10, 0);
    let proof = ProofData {
        proof: vec![],
        public_amount: field_encoding(10),
        roots: vec![pool.get_last_root()],
        input_nullifiers: vec![element(20), element(21)],
        output_commitments: vec![element(30), element(31)],
        ext_data_hash: hash_of(&ext),
    };
    assert_eq!(pool.transact(&Verdict(true), &proof, &ext), Err(Error::TreeFull));
    assert!(!pool.is_known_nullifier(element(20)));
    let mut bad = proof.clone();
    bad.output_commitments = vec![[0xff; 32], element(31)];
    let mut pool = VAnchor::new(1, 1, 3, 1000, 0, 1000, 100, WRAPPER);
    pool.deposit(element(1)).unwrap();
    bad.roots = vec![pool.get_last_root()];
    assert_eq!(pool.transact(&Verdict(true), &bad, &ext), Err(Error::HashError));
    assert!(!pool.is_known_nullifier(element(20)));
}

#[test]
fn deposits_and_neighbor_queries() {
    let mut pool = VAnchor::new(2, 1, 2, 1000, 0, 1000, 100, WRAPPER);
    assert_eq!(pool.deposit(element(1)), Ok(0));
    assert_eq!(pool.deposit(element(2)), Ok(1));
    assert!(pool.is_known_root(pool.get_last_root()));
    assert_eq!(pool.get_latest_neighbor_root(3), Err(Error::ItemNotFound));
    assert_eq!(pool.update_edge(3, element(4), 1, element(5)), Ok(()));
    assert_eq!(pool.update_edge(4, element(6), 1, element(5)), Ok(()));
    assert_eq!(pool.update_edge(5, element(4), 1, element(5)), Err(Error::EdgeListFull));
    assert_eq!(pool.get_latest_neighbor_root(3), Ok(element(4)));
    assert_eq!(pool.get_neighbor_roots(), vec![element(4), element(6)]);
    assert!(pool.is_known_neighbor_root(3, element(4)));
}

#[test]
fn deposit_transaction_pays_the_relayer_fee() {
    let (mut pool, proof, ext) = setup(50, 5);
    assert_eq!(pool.transact_deposit(&Verdict(true), &proof, &ext, WRAPPER, 49), Err(Error::InsufficientFunds));
    assert_eq!(
        pool.transact_deposit(&Verdict(true), &proof, &ext, WRAPPER, 50),
        Ok(vec![Transfer { to: vec![0x0b; 32], amount: 5 }])
    );
    assert!(pool.is_known_nullifier(element(20)));
}

#[test]
fn deposit_transaction_checks_direction_and_limit() {
    let (mut pool, proof, ext) = setup(-5, 0);
    assert_eq!(pool.transact_deposit(&Verdict(true), &proof, &ext, WRAPPER, 5), Err(Error::InvalidExecutionEntry));
    let (mut pool, proof, ext) = setup(900, 0);
    pool.configure_max_deposit_limit(800);
    assert_eq!(pool.transact_deposit(&Verdict(true), &proof, &ext, WRAPPER, 900), Err(Error::InvalidDepositAmount));
}

#[test]
fn withdraw_transaction_pays_recipient_and_relayer_once() {
    let (mut pool, proof, ext) = setup(-40, 3);
    assert_eq!(
        pool.transact_withdraw(&Verdict(true), &proof, &ext),
        Ok(vec![Transfer { to: vec![0x0a; 32], amount: 40 }, Transfer { to: vec![0x0b; 32], amount: 3 }])
    );
    let (mut pool, proof, ext) = setup(5, 0);
    assert_eq!(pool.transact_withdraw(&Verdict(true), &proof, &ext), Err(Error::InvalidExecutionEntry));
    let (mut pool, proof, ext) = setup(-5, 0);
    pool.configure_min_withdrawal_limit(10);
    assert_eq!(pool.transact_withdraw(&Verdict(true), &proof, &ext), Err(Error::InvalidWithdrawAmount));
}

#[test]
fn wrapped_psp22_deposit_needs_the_wrapped_amount() {
    let (mut pool, proof, ext) = setup(50, 5);
    let own = [0x55u8; 32];
    assert_eq!(pool.transact_deposit_wrap_psp22(&Verdict(true), &proof, &ext, WRAPPER, Some(51), 51), Err(Error::Unauthorized));
    assert_eq!(pool.transact_deposit_wrap_psp22(&Verdict(true), &proof, &ext, own, None, 51), Err(Error::WrappingError));
    assert_eq!(pool.transact_deposit_wrap_psp22(&Verdict(true), &proof, &ext, own, Some(51), 50), Err(Error::InsufficientFunds));
    assert!(!pool.is_known_nullifier(element(20)));
    assert_eq!(
        pool.transact_deposit_wrap_psp22(&Verdict(true), &proof, &ext, own, Some(51), 51),
        Ok(WrapDeposit {
            wrap: WrapCall { token_address: WRAPPER, amount: 51 },
            transfers: vec![Transfer { to: vec![0x0b; 32], amount: 5 }],
        })
    );
    assert!(pool.is_known_nullifier(element(21)));
}

#[test]
fn wrapped_native_deposit_wraps_the_value_sent() {
    let (mut pool, proof, ext) = setup(50, 0);
    assert_eq!(pool.transact_deposit_wrap_native(&Verdict(true), &proof, &ext, None, 50), Err(Error::WrappingError));
    assert_eq!(pool.transact_deposit_wrap_native(&Verdict(true), &proof, &ext, Some(52), 50), Err(Error::InsufficientFunds));
    assert_eq!(
        pool.transact_deposit_wrap_native(&Verdict(true), &proof, &ext, Some(52), 52),
        Ok(WrapDeposit { wrap: WrapCall { token_address: [0u8; 32], amount: 0 }, transfers: vec![] })
    );
}

#[test]
fn deposit_from_another_token_is_unauthorized() {
    let (mut pool, proof, ext) = setup(50, 5);
    assert_eq!(pool.transact_deposit(&Verdict(true), &proof, &ext, [0x78; 32], 50), Err(Error::Unauthorized));
    assert!(!pool.is_known_nullifier(element(20)));
}

#[test]
fn replayed_nullifier_is_reported_before_the_direction() {
    let (mut pool, proof, ext) = setup(10, 0);
    assert_eq!(pool.transact(&Verdict(true), &proof, &ext), Ok(()));
    let mut again = proof.clone();
    again.roots[0] = pool.get_last_root();
    let root = pool.get_last_root();
    assert_eq!(pool.transact_withdraw(&Verdict(true), &again, &ext), Err(Error::AlreadyRevealedNullifier));
    assert_eq!(pool.get_last_root(), root);
}

#[test]
fn public_amount_beyond_i128_is_encoded() {
    let (mut pool, proof, ext) = setup(i128::MIN, 1);
    pool.update_vanchor_config(u128::MAX, 100);
    assert_eq!(proof.public_amount, modulus_minus((1u128 << 127) + 1));
    assert!(pool.check_public_inputs(&proof, &ext).is_ok());
}

#[test]
fn unsupported_shape_is_an_invalid_proof() {
    let (mut pool, mut proof, ext) = setup(10, 0);
    proof.input_nullifiers.push(element(22));
    assert!(pool.check_public_inputs(&proof, &ext).is_ok());
    assert_eq!(pool.transact(&Verdict(true), &proof, &ext), Err(Error::InvalidTxProof));
    assert!(!pool.is_known_nullifier(element(20)));
}

#[test]
fn unwrapping_withdrawal_asks_for_the_unwrap_and_the_fee() {
    let (mut pool, proof, ext) = setup(-40, 3);
    assert_eq!(
        pool.transact_withdraw_unwrap(&Verdict(true), &proof, &ext),
        Ok(UnwrapWithdrawal {
            unwrap: UnwrapCall { token_address: WRAPPER, amount: 40, to: vec![0x0a; 32] },
            transfers: vec![Transfer { to: vec![0x0b; 32], amount: 3 }],
        })
    );
    let (mut pool, proof, ext) = setup(4, 0);
    assert_eq!(pool.transact_withdraw_unwrap(&Verdict(true), &proof, &ext), Err(Error::InvalidExecutionEntry));
}

#[test]
fn recipient_and_relayer_must_be_32_bytes() {
    let (mut pool, proof, ext) = setup(10, 0);
    let mut longer = ext.clone();
    longer.recipient.push(0);
    assert_eq!(pool.transact(&Verdict(true), &proof, &longer), Err(Error::InvalidExtData));
    let mut shorter = ext.clone();
    shorter.relayer.truncate(20);
    assert_eq!(pool.transact(&Verdict(true), &proof, &shorter), Err(Error::InvalidExtData));
    assert!(!pool.is_known_nullifier(element(20)));
}
