use vstd::prelude::*;
use crate::error::Error;
use crate::ext_data::encode_u128;
use crate::field::{is_canonical, le_bytes, lemma_le_bytes_len};
use crate::linkable_merkle_tree::{is_fresh_update, Edge, LinkableMerkleTree};
use crate::merkle_tree::{MerkleTree, MAX_LEVELS};
use crate::mixer::{account_field, append_bytes, VerifierError, VerifyWithdrawal};
use crate::nullifier_set::NullifierSet;
use crate::utils::{element_encoder, padded, truncate_and_pad};
use crate::vanchor::{append_element, element_to_vec, elements_view, transfer_view, Transfer};

verus! {

/// A withdrawal from a fixed-amount anchor: the local root first, then one
/// root for each linked chain.
#[derive(Debug, Clone, PartialEq, Eq)]
pub struct WithdrawParams {
    pub proof_bytes: Vec<u8>,
    pub roots: Vec<[u8; 32]>,
    pub nullifier_hash: [u8; 32],
    pub recipient: [u8; 32],
    pub relayer: [u8; 32],
    pub fee: u128,
    pub refund: u128,
}

/// The 16 big-endian bytes of `v`.
pub open spec fn be_bytes_16(v: nat) -> Seq<u8> {
    Seq::new(16, |j: int| le_bytes(v, 16)[15 - j])
}

/// The public inputs of an anchor withdrawal proof: the nullifier hash, the
/// local root, the recipient and the relayer, then the fee and the refund,
/// each big-endian in a field element.
pub open spec fn anchor_public_inputs(p: WithdrawParams) -> Seq<u8> {
    p.nullifier_hash@ + p.roots@[0]@ + account_field(p.recipient@) + account_field(p.relayer@) + padded(
        be_bytes_16(p.fee as nat),
        32,
    ) + padded(be_bytes_16(p.refund as nat), 32)
}

/// The 16 big-endian bytes of `v`.
fn encode_u128_be(v: u128) -> (r: Vec<u8>)
    ensures
        r@ == be_bytes_16(v as nat),
{
    let le = encode_u128(v);
    proof {
        lemma_le_bytes_len(v as nat, 16);
    }
    let mut out: Vec<u8> = Vec::new();
    let mut j: usize = 0;
    while j < 16
        invariant
            j <= 16,
            le@ == le_bytes(v as nat, 16),
            le@.len() == 16,
            out@ == be_bytes_16(v as nat).subrange(0, j as int),
        decreases 16 - j,
    {
        out.push(le[15 - j]);
        j = j + 1;
        assert(out@ =~= be_bytes_16(v as nat).subrange(0, j as int));
    }
    assert(out@ =~= be_bytes_16(v as nat));
    out
}

/// A pool of fixed deposits whose withdrawals may prove membership against
/// the recent roots of linked pools on other chains.
pub struct Anchor {
    chain_id: u64,
    deposit_size: u128,
    merkle_tree: MerkleTree,
    linkable_tree: LinkableMerkleTree,
    used_nullifiers: NullifierSet,
}

impl Anchor {
    pub closed spec fn tree(&self) -> MerkleTree {
        self.merkle_tree
    }

    pub closed spec fn links(&self) -> LinkableMerkleTree {
        self.linkable_tree
    }

    pub closed spec fn nullifiers(&self) -> NullifierSet {
        self.used_nullifiers
    }

    pub closed spec fn spec_deposit_size(&self) -> u128 {
        self.deposit_size
    }

    pub closed spec fn spec_chain_id(&self) -> u64 {
        self.chain_id
    }

    pub closed spec fn wf(&self) -> bool {
        &&& self.merkle_tree.wf()
        &&& self.linkable_tree.wf()
        &&& self.linkable_tree.spec_max_edges() >= 1
    }

    /// The first check a withdrawal fails, given the verifier's answer, or
    /// `None` where it passes them all.
    pub open spec fn withdraw_error(&self, p: WithdrawParams, verdict: Result<bool, VerifierError>) -> Option<Error> {
        let roots = elements_view(p.roots@);
        if p.roots@.len() != self.links().spec_max_edges() {
            Some(Error::UnmatchedEdges)
        } else if !self.tree().knows_root(roots[0]) {
            Some(Error::UnknownRoot)
        } else if !self.links().valid_neighbor_roots(roots.skip(1)) {
            Some(Error::InvalidMerkleRoots)
        } else if self.nullifiers().spent(p.nullifier_hash@) {
            Some(Error::AlreadyRevealedNullifier)
        } else if p.fee > self.spec_deposit_size() {
            Some(Error::InvalidFeeAmount)
        } else {
            match verdict {
                Err(_) => Some(Error::VerifyError),
                Ok(false) => Some(Error::InvalidWithdrawProof),
                Ok(true) => None,
            }
        }
    }

    /// What an accepted withdrawal pays: the deposit size less the fee to the
    /// recipient, the fee to the relayer, and the refund, if any, to the recipient.
    pub open spec fn withdraw_payouts(&self, p: WithdrawParams) -> Seq<(Seq<u8>, u128)> {
        let base = seq![
            (p.recipient@, (self.spec_deposit_size() - p.fee) as u128),
            (p.relayer@, p.fee),
        ];
        if p.refund > 0 {
            base.push((p.recipient@, p.refund))
        } else {
            base
        }
    }

    /// An anchor on chain `chain_id` with an empty tree of height `levels`,
    /// deposits of `deposit_size`, and room for `max_edges` trees counting its own.
    pub fn new(max_edges: u32, chain_id: u64, levels: u32, deposit_size: u128) -> (r: Anchor)
        requires
            max_edges >= 1,
            levels <= MAX_LEVELS,
        ensures
            r.wf(),
            r.tree().spec_levels() == levels,
            r.tree().leaves() == Seq::<Seq<u8>>::empty(),
            r.links().spec_max_edges() == max_edges,
            r.links().chain_ids() == Seq::<u64>::empty(),
            r.spec_deposit_size() == deposit_size,
            r.spec_chain_id() == chain_id,
            forall|n: Seq<u8>| !r.nullifiers().spent(n),
    {
        Anchor {
            chain_id,
            deposit_size,
            merkle_tree: MerkleTree::new(levels),
            linkable_tree: LinkableMerkleTree::new(max_edges),
            used_nullifiers: NullifierSet::new(),
        }
    }

    /// Whether `root` is one of the last roots of the tree.
    pub fn is_known_root(&self, root: [u8; 32]) -> (r: bool)
        requires
            self.wf(),
        ensures
            r == self.tree().knows_root(root@),
    {
        self.merkle_tree.is_known_root(root)
    }

    /// The latest root of the tree, or the zero element while it is empty.
    pub fn get_last_root(&self) -> (r: [u8; 32])
        requires
            self.wf(),
        ensures
            self.tree().leaves().len() == 0 ==> r@ == crate::root_history::zero_element(),
            self.tree().leaves().len() > 0 ==> r@ == self.tree().current_root(),
    {
        self.merkle_tree.get_last_root()
    }

    /// Whether `nullifier` was spent.
    pub fn is_known_nullifier(&self, nullifier: [u8; 32]) -> (r: bool)
        ensures
            r == self.nullifiers().spent(nullifier@),
    {
        self.used_nullifiers.is_known(&nullifier)
    }

    /// Records the latest state of the tree of a linked chain.
    pub fn update_edge(&mut self, edge: Edge) -> (r: Result<(), Error>)
        requires
            old(self).wf(),
        ensures
            final(self).wf(),
            final(self).tree() == old(self).tree(),
            final(self).nullifiers() == old(self).nullifiers(),
            final(self).spec_deposit_size() == old(self).spec_deposit_size(),
            final(self).spec_chain_id() == old(self).spec_chain_id(),
            final(self).links().spec_max_edges() == old(self).links().spec_max_edges(),
            r is Err ==> *final(self) == *old(self),
            forall|i: int| 0 <= i < old(self).links().chain_ids().len() && old(self).links().chain_ids()[i] == edge.chain_id ==> {
                if is_fresh_update(old(self).links().edges()[i].latest_leaf_index, edge.latest_leaf_index) {
                    &&& r == Ok::<(), Error>(())
                    &&& final(self).links().chain_ids() == old(self).links().chain_ids()
                    &&& final(self).links().edges() == old(self).links().edges().update(i, edge)
                    &&& final(self).links().root_logs() == old(self).links().root_logs().update(i, old(self).links().root_logs()[i].push(edge.root@))
                } else {
                    r == Err::<(), Error>(Error::StaleOrReplayedEdge)
                }
            },
            !old(self).links().chain_ids().contains(edge.chain_id) ==> {
                if old(self).links().chain_ids().len() < old(self).links().spec_max_edges() {
                    &&& r == Ok::<(), Error>(())
                    &&& final(self).links().chain_ids() == old(self).links().chain_ids().push(edge.chain_id)
                    &&& final(self).links().edges() == old(self).links().edges().push(edge)
                    &&& final(self).links().root_logs() == old(self).links().root_logs().push(seq![edge.root@])
                } else {
                    r == Err::<(), Error>(Error::EdgeListFull)
                }
            },
    {
        self.linkable_tree.update_edge(edge)
    }

    /// Appends `commitment` for a deposit of `amount`, which must be the
    /// deposit size, and returns its leaf index.
    pub fn deposit(&mut self, commitment: [u8; 32], amount: u128) -> (r: Result<u32, Error>)
        requires
            old(self).wf(),
        ensures
            final(self).wf(),
            r is Err ==> *final(self) == *old(self),
            amount != old(self).spec_deposit_size() ==> r == Err::<u32, Error>(Error::InvalidDepositAmount),
            amount == old(self).spec_deposit_size() && old(self).tree().is_full() ==> r == Err::<u32, Error>(
                Error::TreeFull,
            ),
            amount == old(self).spec_deposit_size() && !old(self).tree().is_full() && old(self).tree().spec_levels() > 0
                && !is_canonical(commitment@) ==> r == Err::<u32, Error>(Error::HashError),
            amount == old(self).spec_deposit_size() && !old(self).tree().is_full() && (old(self).tree().spec_levels()
                == 0 || is_canonical(commitment@)) ==> r == Ok::<u32, Error>(old(self).tree().leaves().len() as u32),
            r is Ok ==> final(self).tree().leaves() == old(self).tree().leaves().push(commitment@)
                && final(self).tree().spec_levels() == old(self).tree().spec_levels() && final(self).links()
                == old(self).links() && final(self).nullifiers() == old(self).nullifiers()
                && final(self).spec_deposit_size() == old(self).spec_deposit_size() && final(self).spec_chain_id()
                == old(self).spec_chain_id(),
    {
        if amount != self.deposit_size {
            return Err(Error::InvalidDepositAmount);
        }
        self.merkle_tree.insert(commitment)
    }

    /// The public inputs a withdrawal proof is verified against.
    pub fn public_inputs(&self, p: &WithdrawParams) -> (r: Vec<u8>)
        requires
            p.roots@.len() >= 1,
        ensures
            r@ == anchor_public_inputs(*p),
    {
        let recipient_bytes = truncate_and_pad(&p.recipient);
        let relayer_bytes = truncate_and_pad(&p.relayer);
        let fee_bytes = element_encoder(encode_u128_be(p.fee).as_slice());
        let refund_bytes = element_encoder(encode_u128_be(p.refund).as_slice());
        let mut bytes: Vec<u8> = Vec::new();
        append_element(&mut bytes, &p.nullifier_hash);
        append_element(&mut bytes, &p.roots[0]);
        append_bytes(&mut bytes, &recipient_bytes);
        append_bytes(&mut bytes, &relayer_bytes);
        append_element(&mut bytes, &fee_bytes);
        append_element(&mut bytes, &refund_bytes);
        bytes
    }

    /// Checks a withdrawal up to its proof: the number of roots, the local
    /// root, the roots of linked chains, the nullifier and the fee.
    fn check_withdraw(&self, p: &WithdrawParams) -> (r: Result<(), Error>)
        requires
            self.wf(),
        ensures
            r is Ok <==> self.withdraw_error(*p, Ok(true)) is None,
            r is Err ==> Some(r->Err_0) == self.withdraw_error(*p, Ok(true)),
            r is Err ==> forall|v: Result<bool, VerifierError>| #[trigger] self.withdraw_error(*p, v) == self.withdraw_error(*p, Ok(true)),
    {
        let ghost roots = elements_view(p.roots@);
        if self.linkable_tree.max_edges() as usize != p.roots.len() {
            return Err(Error::UnmatchedEdges);
        }
        if !self.merkle_tree.is_known_root(p.roots[0]) {
            return Err(Error::UnknownRoot);
        }
        let mut neighbors: Vec<[u8; 32]> = Vec::new();
        let mut i: usize = 1;
        while i < p.roots.len()
            invariant
                1 <= i <= p.roots@.len(),
                neighbors@ == p.roots@.subrange(1, i as int),
            decreases p.roots@.len() - i,
        {
            neighbors.push(p.roots[i]);
            i = i + 1;
            assert(neighbors@ =~= p.roots@.subrange(1, i as int));
        }
        proof {
            assert(elements_view(neighbors@) =~= roots.skip(1));
        }
        if !self.linkable_tree.is_valid_neighbor_roots(neighbors.as_slice()) {
            return Err(Error::InvalidMerkleRoots);
        }
        if self.used_nullifiers.is_known(&p.nullifier_hash) {
            return Err(Error::AlreadyRevealedNullifier);
        }
        if p.fee > self.deposit_size {
            return Err(Error::InvalidFeeAmount);
        }
        Ok(())
    }

    /// Settles a withdrawal given the verifier's answer on its proof. Only
    /// when every check passes and the proof is accepted is the nullifier
    /// spent; the transfers to make are returned. A refused withdrawal
    /// changes nothing.
    pub fn complete_withdraw(&mut self, p: &WithdrawParams, verdict: Result<bool, VerifierError>) -> (r: Result<Vec<Transfer>, Error>)
        requires
            old(self).wf(),
        ensures
            final(self).wf(),
            match old(self).withdraw_error(*p, verdict) {
                Some(e) => r == Err::<Vec<Transfer>, Error>(e) && *final(self) == *old(self),
                None => r is Ok && r->Ok_0@.map_values(|t: Transfer| transfer_view(t)) == old(self).withdraw_payouts(*p)
                    && final(self).tree() == old(self).tree() && final(self).links() == old(self).links()
                    && final(self).spec_deposit_size() == old(self).spec_deposit_size() && forall|n: Seq<u8>|
                    #[trigger] final(self).nullifiers().spent(n) == (old(self).nullifiers().spent(n) || n
                        == p.nullifier_hash@),
            },
    {
        match self.check_withdraw(p) {
            Err(e) => {
                return Err(e);
            },
            Ok(()) => {},
        }
        match verdict {
            Err(_) => {
                return Err(Error::VerifyError);
            },
            Ok(false) => {
                return Err(Error::InvalidWithdrawProof);
            },
            Ok(true) => {},
        }
        self.used_nullifiers.mark_spent(p.nullifier_hash);
        let mut transfers: Vec<Transfer> = Vec::new();
        transfers.push(Transfer { to: element_to_vec(&p.recipient), amount: self.deposit_size - p.fee });
        transfers.push(Transfer { to: element_to_vec(&p.relayer), amount: p.fee });
        if p.refund > 0 {
            transfers.push(Transfer { to: element_to_vec(&p.recipient), amount: p.refund });
        }
        proof {
            let v = transfers@.map_values(|t: Transfer| transfer_view(t));
            assert(v =~= old(self).withdraw_payouts(*p));
        }
        Ok(transfers)
    }

    /// A withdrawal: once its checks pass, its proof is verified by `verifier`
    /// against `public_inputs`, then it is settled as `complete_withdraw` does.
    pub fn withdraw<V: VerifyWithdrawal>(&mut self, verifier: &V, p: &WithdrawParams) -> (r: Result<Vec<Transfer>, Error>)
        requires
            old(self).wf(),
        ensures
            final(self).wf(),
            r is Err ==> *final(self) == *old(self),
            match old(self).withdraw_error(*p, verifier.answer(anchor_public_inputs(*p), p.proof_bytes@)) {
                Some(e) => r == Err::<Vec<Transfer>, Error>(e),
                None => r is Ok && r->Ok_0@.map_values(|t: Transfer| transfer_view(t)) == old(self).withdraw_payouts(*p)
                    && final(self).tree() == old(self).tree() && final(self).links() == old(self).links() && forall|n: Seq<u8>|
                    #[trigger] final(self).nullifiers().spent(n) == (old(self).nullifiers().spent(n)
                        || n == p.nullifier_hash@),
            },
    {
        match self.check_withdraw(p) {
            Err(e) => {
                return Err(e);
            },
            Ok(()) => {},
        }
        let public_input = self.public_inputs(p);
        let verdict = verifier.verify(&public_input, &p.proof_bytes);
        self.complete_withdraw(p, verdict)
    }
}

} // verus!
