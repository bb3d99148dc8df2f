use vstd::prelude::*;
use crate::error::Error;
use crate::ext_data::{encode_u128, keccak256, keccak256_of};
use crate::field::{is_canonical, le_bytes};
use crate::merkle_tree::{MerkleTree, MAX_LEVELS};
use crate::nullifier_set::NullifierSet;
use crate::utils::truncate_and_pad;
use crate::vanchor::{append_element, element_to_vec, transfer_view, Transfer};

verus! {

/// Why a verifier could not reach a verdict.
#[derive(Debug, Clone, Copy, PartialEq, Eq, Structural)]
pub enum VerifierError {
    VerifierError,
}

/// The verifier of withdrawal proofs of the fixed-amount pools.
pub trait VerifyWithdrawal {
    /// The verifier's answer on `proof_bytes` for `public_input`; left
    /// unspecified unless an implementation states it.
    open spec fn answer(&self, public_input: Seq<u8>, proof_bytes: Seq<u8>) -> Result<bool, VerifierError> {
        arbitrary()
    }

    /// Verifies `proof_bytes` against `public_input`.
    fn verify(&self, public_input: &Vec<u8>, proof_bytes: &Vec<u8>) -> (r: Result<bool, VerifierError>)
        ensures
            r == self.answer(public_input@, proof_bytes@),
    ;
}

/// A withdrawal from a fixed-amount pool.
#[derive(Debug, Clone, PartialEq, Eq)]
pub struct WithdrawParams {
    pub proof_bytes: Vec<u8>,
    pub root: [u8; 32],
    pub nullifier_hash: [u8; 32],
    pub recipient: [u8; 32],
    pub relayer: [u8; 32],
    pub fee: u128,
    pub refund: u128,
}

/// The 20 leading bytes of an account followed by 12 zero bytes.
pub open spec fn account_field(a: Seq<u8>) -> Seq<u8> {
    a.subrange(0, 20) + Seq::new(12, |i: int| 0u8)
}

/// The public inputs of a withdrawal proof: the nullifier hash, the root, and
/// the Keccak-256 digest of the recipient, the relayer, the fee and the refund.
pub open spec fn withdraw_public_inputs(p: WithdrawParams) -> Seq<u8> {
    p.nullifier_hash@ + p.root@ + keccak256_of(
        account_field(p.recipient@) + account_field(p.relayer@) + le_bytes(p.fee as nat, 16) + le_bytes(
            p.refund as nat,
            16,
        ),
    )
}

/// Appends `b` to `out`.
pub(crate) fn append_bytes(out: &mut Vec<u8>, b: &Vec<u8>)
    ensures
        final(out)@ == old(out)@ + b@,
{
    let ghost start = out@;
    let mut i: usize = 0;
    while i < b.len()
        invariant
            i <= b@.len(),
            out@ == start + b@.subrange(0, i as int),
        decreases b@.len() - i,
    {
        out.push(b[i]);
        i = i + 1;
        assert(out@ =~= start + b@.subrange(0, i as int));
    }
    assert(b@.subrange(0, b@.len() as int) =~= b@);
}

/// A pool where every deposit brings the same amount, and a withdrawal pays
/// that amount out, less the relayer's fee.
pub struct Mixer {
    deposit_size: u128,
    merkle_tree: MerkleTree,
    used_nullifiers: NullifierSet,
}

impl Mixer {
    pub closed spec fn tree(&self) -> MerkleTree {
        self.merkle_tree
    }

    pub closed spec fn nullifiers(&self) -> NullifierSet {
        self.used_nullifiers
    }

    pub closed spec fn spec_deposit_size(&self) -> u128 {
        self.deposit_size
    }

    pub closed spec fn wf(&self) -> bool {
        self.merkle_tree.wf()
    }

    /// The first check a withdrawal fails, given the verifier's answer, or
    /// `None` where it passes them all.
    pub open spec fn withdraw_error(&self, p: WithdrawParams, verdict: Result<bool, VerifierError>) -> Option<Error> {
        if !self.tree().knows_root(p.root@) {
            Some(Error::UnknownRoot)
        } else if self.nullifiers().spent(p.nullifier_hash@) {
            Some(Error::AlreadyRevealedNullifier)
        } else if p.fee > self.spec_deposit_size() {
            Some(Error::InvalidFeeAmount)
        } else {
            match verdict {
                Err(_) => Some(Error::VerifyError),
                Ok(false) => Some(Error::InvalidWithdrawProof),
                Ok(true) => None,
            }
        }
    }

    /// What an accepted withdrawal pays: the deposit size less the fee to the
    /// recipient, the fee to the relayer, and the refund, if any, to the recipient.
    pub open spec fn withdraw_payouts(&self, p: WithdrawParams) -> Seq<(Seq<u8>, u128)> {
        let base = seq![
            (p.recipient@, (self.spec_deposit_size() - p.fee) as u128),
            (p.relayer@, p.fee),
        ];
        if p.refund > 0 {
            base.push((p.recipient@, p.refund))
        } else {
            base
        }
    }

    /// A pool with an empty tree of height `levels` and deposits of `deposit_size`.
    pub fn new(levels: u32, deposit_size: u128) -> (r: Mixer)
        requires
            levels <= MAX_LEVELS,
        ensures
            r.wf(),
            r.tree().spec_levels() == levels,
            r.tree().leaves() == Seq::<Seq<u8>>::empty(),
            r.spec_deposit_size() == deposit_size,
            forall|n: Seq<u8>| !r.nullifiers().spent(n),
    {
        Mixer { deposit_size, merkle_tree: MerkleTree::new(levels), used_nullifiers: NullifierSet::new() }
    }

    /// The height of the tree.
    pub fn levels(&self) -> (r: u32)
        ensures
            r == self.tree().spec_levels(),
    {
        self.merkle_tree.levels()
    }

    /// The amount every deposit brings.
    pub fn deposit_size(&self) -> (r: u128)
        ensures
            r == self.spec_deposit_size(),
    {
        self.deposit_size
    }

    /// Whether `nullifier` was spent.
    pub fn is_known_nullifier(&self, nullifier: [u8; 32]) -> (r: bool)
        ensures
            r == self.nullifiers().spent(nullifier@),
    {
        self.used_nullifiers.is_known(&nullifier)
    }

    /// Whether `root` is one of the last roots of the tree.
    pub fn is_known_root(&self, root: [u8; 32]) -> (r: bool)
        requires
            self.wf(),
        ensures
            r == self.tree().knows_root(root@),
    {
        self.merkle_tree.is_known_root(root)
    }

    /// The latest root of the tree, or the zero element while it is empty.
    pub fn get_last_root(&self) -> (r: [u8; 32])
        requires
            self.wf(),
        ensures
            self.tree().leaves().len() == 0 ==> r@ == crate::root_history::zero_element(),
            self.tree().leaves().len() > 0 ==> r@ == self.tree().current_root(),
    {
        self.merkle_tree.get_last_root()
    }

    /// Appends `commitment` for a deposit of `amount`, which must be the
    /// deposit size, and returns its leaf index.
    pub fn deposit(&mut self, commitment: [u8; 32], amount: u128) -> (r: Result<u32, Error>)
        requires
            old(self).wf(),
        ensures
            final(self).wf(),
            r is Err ==> *final(self) == *old(self),
            amount != old(self).spec_deposit_size() ==> r == Err::<u32, Error>(Error::InvalidDepositAmount),
            amount == old(self).spec_deposit_size() && old(self).tree().is_full() ==> r == Err::<u32, Error>(
                Error::TreeFull,
            ),
            amount == old(self).spec_deposit_size() && !old(self).tree().is_full() && old(self).tree().spec_levels() > 0
                && !is_canonical(commitment@) ==> r == Err::<u32, Error>(Error::HashError),
            amount == old(self).spec_deposit_size() && !old(self).tree().is_full() && (old(self).tree().spec_levels()
                == 0 || is_canonical(commitment@)) ==> r == Ok::<u32, Error>(old(self).tree().leaves().len() as u32),
            r is Ok ==> final(self).tree().leaves() == old(self).tree().leaves().push(commitment@)
                && final(self).tree().spec_levels() == old(self).tree().spec_levels() && final(self).nullifiers()
                == old(self).nullifiers() && final(self).spec_deposit_size() == old(self).spec_deposit_size(),
    {
        if amount != self.deposit_size {
            return Err(Error::InvalidDepositAmount);
        }
        self.merkle_tree.insert(commitment)
    }

    /// The public inputs a withdrawal proof is verified against.
    pub fn public_inputs(&self, p: &WithdrawParams) -> (r: Vec<u8>)
        ensures
            r@ == withdraw_public_inputs(*p),
    {
        let recipient_bytes = truncate_and_pad(&p.recipient);
        let relayer_bytes = truncate_and_pad(&p.relayer);
        let fee_bytes = encode_u128(p.fee);
        let refund_bytes = encode_u128(p.refund);
        let mut arbitrary_data_bytes: Vec<u8> = Vec::new();
        append_bytes(&mut arbitrary_data_bytes, &recipient_bytes);
        append_bytes(&mut arbitrary_data_bytes, &relayer_bytes);
        append_bytes(&mut arbitrary_data_bytes, &fee_bytes);
        append_bytes(&mut arbitrary_data_bytes, &refund_bytes);
        let arbitrary_input = keccak256(arbitrary_data_bytes.as_slice());
        let mut bytes: Vec<u8> = Vec::new();
        append_element(&mut bytes, &p.nullifier_hash);
        append_element(&mut bytes, &p.root);
        append_element(&mut bytes, &arbitrary_input);
        proof {
            assert(arbitrary_data_bytes@ =~= account_field(p.recipient@) + account_field(p.relayer@) + le_bytes(
                p.fee as nat,
                16,
            ) + le_bytes(p.refund as nat, 16));
        }
        bytes
    }

    /// Settles a withdrawal given the verifier's answer on its proof: the root
    /// must be known, the nullifier unspent, the fee at most the deposit size,
    /// and the proof accepted. Only then is the nullifier spent; the transfers
    /// to make are returned. A refused withdrawal changes nothing.
    pub fn complete_withdraw(&mut self, p: &WithdrawParams, verdict: Result<bool, VerifierError>) -> (r: Result<Vec<Transfer>, Error>)
        requires
            old(self).wf(),
        ensures
            final(self).wf(),
            match old(self).withdraw_error(*p, verdict) {
                Some(e) => r == Err::<Vec<Transfer>, Error>(e) && *final(self) == *old(self),
                None => r is Ok && r->Ok_0@.map_values(|t: Transfer| transfer_view(t)) == old(self).withdraw_payouts(*p)
                    && final(self).tree() == old(self).tree() && final(self).spec_deposit_size()
                    == old(self).spec_deposit_size() && forall|n: Seq<u8>| #[trigger] final(self).nullifiers().spent(n)
                    == (old(self).nullifiers().spent(n) || n == p.nullifier_hash@),
            },
    {
        if !self.merkle_tree.is_known_root(p.root) {
            return Err(Error::UnknownRoot);
        }
        if self.used_nullifiers.is_known(&p.nullifier_hash) {
            return Err(Error::AlreadyRevealedNullifier);
        }
        if p.fee > self.deposit_size {
            return Err(Error::InvalidFeeAmount);
        }
        match verdict {
            Err(_) => {
                return Err(Error::VerifyError);
            },
            Ok(false) => {
                return Err(Error::InvalidWithdrawProof);
            },
            Ok(true) => {},
        }
        self.used_nullifiers.mark_spent(p.nullifier_hash);
        let mut transfers: Vec<Transfer> = Vec::new();
        transfers.push(Transfer { to: element_to_vec(&p.recipient), amount: self.deposit_size - p.fee });
        transfers.push(Transfer { to: element_to_vec(&p.relayer), amount: p.fee });
        if p.refund > 0 {
            transfers.push(Transfer { to: element_to_vec(&p.recipient), amount: p.refund });
        }
        proof {
            let v = transfers@.map_values(|t: Transfer| transfer_view(t));
            assert(v =~= old(self).withdraw_payouts(*p));
        }
        Ok(transfers)
    }

    /// A withdrawal: its proof is verified by `verifier` against
    /// `public_inputs`, then it is settled as `complete_withdraw` does.
    pub fn withdraw<V: VerifyWithdrawal>(&mut self, verifier: &V, p: &WithdrawParams) -> (r: Result<Vec<Transfer>, Error>)
        requires
            old(self).wf(),
        ensures
            final(self).wf(),
            r is Err ==> *final(self) == *old(self),
            match old(self).withdraw_error(*p, verifier.answer(withdraw_public_inputs(*p), p.proof_bytes@)) {
                Some(e) => r == Err::<Vec<Transfer>, Error>(e),
                None => r is Ok && r->Ok_0@.map_values(|t: Transfer| transfer_view(t)) == old(self).withdraw_payouts(*p)
                    && final(self).tree() == old(self).tree() && forall|n: Seq<u8>|
                    #[trigger] final(self).nullifiers().spent(n) == (old(self).nullifiers().spent(n)
                        || n == p.nullifier_hash@),
            },
    {
        if !self.merkle_tree.is_known_root(p.root) {
            return Err(Error::UnknownRoot);
        }
        if self.used_nullifiers.is_known(&p.nullifier_hash) {
            return Err(Error::AlreadyRevealedNullifier);
        }
        if p.fee > self.deposit_size {
            return Err(Error::InvalidFeeAmount);
        }
        let public_input = self.public_inputs(p);
        let verdict = verifier.verify(&public_input, &p.proof_bytes);
        self.complete_withdraw(p, verdict)
    }
}

} // verus!
