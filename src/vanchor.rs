use vstd::prelude::*;
use crate::error::Error;
use crate::ext_data::{abi_fields, binding_hash, encode_u128, ExtData, MAX_ABI_FIELD_LEN};
use crate::field::{field_element_of_difference, field_value, is_canonical, is_field_element, le_bytes, lemma_le_bytes_of_value};
use crate::linkable_merkle_tree::{Edge, LinkableMerkleTree};
use crate::merkle_tree::{two_to, MerkleTree, MAX_LEVELS};
use crate::nullifier_set::NullifierSet;
use crate::root_history::same_element;
use crate::utils::{element_encoder, padded};
use webb_proposals::TypedChainId;

verus! {

/// The byte strings of a sequence of field elements.
pub open spec fn elements_view(s: Seq<[u8; 32]>) -> Seq<Seq<u8>> {
    s.map_values(|e: [u8; 32]| e@)
}

/// The concatenation of `s`.
pub open spec fn flatten(s: Seq<Seq<u8>>) -> Seq<u8>
    decreases s.len(),
{
    if s.len() == 0 {
        Seq::empty()
    } else {
        flatten(s.drop_last()) + s.last()
    }
}

/// The typed chain identifier of an ink! chain: the chain type `0x0600` in
/// bytes 2 and 3 of a big-endian `u64`, the chain id in bytes 4 to 7.
pub open spec fn ink_chain_id_type(chain_id: u32) -> u64 {
    (0x0600_0000_0000u64 + chain_id) as u64
}

/// Relies on webb_proposals' `TypedChainId::Ink(chain_id).chain_id()`, which
/// writes the tag `0x0600` big-endian in bytes 2 and 3 of a zeroed 8-byte
/// buffer, `chain_id` big-endian in bytes 4 to 7, and reads it as a big-endian `u64`.
#[verifier::external_body]
fn ink_typed_chain_id(chain_id: u32) -> (r: u64)
    ensures
        r == ink_chain_id_type(chain_id),
{
    TypedChainId::Ink(chain_id).chain_id()
}

/// The typed chain identifier of the ink! chain `chain_id`.
pub fn typed_chain_id_ink(chain_id: u32) -> (r: u64)
    ensures
        r == ink_chain_id_type(chain_id),
{
    ink_typed_chain_id(chain_id)
}

/// The absolute value of `v`.
pub open spec fn abs_i128(v: i128) -> nat {
    if v < 0 {
        (-v) as nat
    } else {
        v as nat
    }
}

/// Whether `public_amount` is the field encoding of `ext_amount - fee`,
/// computed as an integer and reduced modulo the field's order.
pub open spec fn public_amount_matches(ext_amount: i128, fee: u128, public_amount: Seq<u8>) -> bool {
    public_amount == le_bytes(field_value(ext_amount - fee), 32)
}

/// Whether a verification circuit exists for this number of inputs and outputs.
pub open spec fn shape_supported(inputs: nat, outputs: nat) -> bool {
    (inputs == 2 && outputs == 2) || (inputs == 16 && outputs == 2)
}

/// A transaction's proof and the public values it is checked against.
#[derive(Debug, Clone, PartialEq, Eq)]
pub struct ProofData {
    pub proof: Vec<u8>,
    pub public_amount: [u8; 32],
    pub roots: Vec<[u8; 32]>,
    pub input_nullifiers: Vec<[u8; 32]>,
    pub output_commitments: Vec<[u8; 32]>,
    pub ext_data_hash: [u8; 32],
}

/// A movement of value out of the pool, for the host to carry out once a
/// transaction is committed.
#[derive(Debug, Clone, PartialEq, Eq)]
pub struct Transfer {
    pub to: Vec<u8>,
    pub amount: u128,
}

/// The transfer of `amount` to `to`, as plain values.
pub open spec fn transfer_view(t: Transfer) -> (Seq<u8>, u128) {
    (t.to@, t.amount)
}

/// The relayer's fee, where there is one.
pub open spec fn fee_payouts(ext_data: &ExtData) -> Seq<(Seq<u8>, u128)> {
    if ext_data.fee != 0 {
        seq![(ext_data.relayer@, ext_data.fee)]
    } else {
        Seq::empty()
    }
}

/// What a withdrawal pays: the absolute external amount to the recipient,
/// then the fee to the relayer, each only where it is not zero.
pub open spec fn withdraw_payouts(ext_data: &ExtData) -> Seq<(Seq<u8>, u128)> {
    let to_recipient: Seq<(Seq<u8>, u128)> = if ext_data.ext_amount != 0 {
        seq![(ext_data.recipient@, abs_i128(ext_data.ext_amount) as u128)]
    } else {
        Seq::empty()
    };
    to_recipient + fee_payouts(ext_data)
}

/// The absolute value of `v`.
fn unsigned_abs(v: i128) -> (r: u128)
    ensures
        r == abs_i128(v),
{
    if v >= 0 {
        v as u128
    } else {
        (-(v + 1)) as u128 + 1
    }
}

/// Builds the transfers of a committed transaction.
fn payouts(ext_data: &ExtData, pay_recipient: bool) -> (r: Vec<Transfer>)
    ensures
        r@.map_values(|t: Transfer| transfer_view(t)) == (if pay_recipient {
            withdraw_payouts(ext_data)
        } else {
            fee_payouts(ext_data)
        }),
{
    let mut out: Vec<Transfer> = Vec::new();
    if pay_recipient && ext_data.ext_amount != 0 {
        out.push(Transfer { to: ext_data.recipient.clone(), amount: unsigned_abs(ext_data.ext_amount) });
    }
    if ext_data.fee != 0 {
        out.push(Transfer { to: ext_data.relayer.clone(), amount: ext_data.fee });
    }
    proof {
        let v = out@.map_values(|t: Transfer| transfer_view(t));
        if pay_recipient {
            assert(v =~= withdraw_payouts(ext_data));
        } else {
            assert(v =~= fee_payouts(ext_data));
        }
    }
    out
}

/// A token wrapping the pool asks the host to make once a deposit is committed.
#[derive(Debug, Clone, Copy, PartialEq, Eq)]
pub struct WrapCall {
    pub token_address: [u8; 32],
    pub amount: u128,
}

/// What the host carries out after a committed wrapping deposit: the wrap,
/// then the transfers.
#[derive(Debug, Clone, PartialEq, Eq)]
pub struct WrapDeposit {
    pub wrap: WrapCall,
    pub transfers: Vec<Transfer>,
}

/// An unwrapping the pool asks the host to make once a withdrawal is
/// committed: `amount` of the token wrapper at `token_address`, sent to `to`.
#[derive(Debug, Clone, PartialEq, Eq)]
pub struct UnwrapCall {
    pub token_address: [u8; 32],
    pub amount: u128,
    pub to: Vec<u8>,
}

/// What the host carries out after a committed unwrapping withdrawal: the
/// unwrap, then the transfers.
#[derive(Debug, Clone, PartialEq, Eq)]
pub struct UnwrapWithdrawal {
    pub unwrap: UnwrapCall,
    pub transfers: Vec<Transfer>,
}

/// The proof verifier of the host chain: one circuit per shape of transaction.
pub trait VerifyProof {
    /// The verdict of the circuit with two inputs and two outputs; left
    /// unspecified unless an implementation states it.
    open spec fn accepts_2_2(&self, public_inputs: Seq<u8>, proof: Seq<u8>) -> bool {
        arbitrary()
    }

    /// The verdict of the circuit with sixteen inputs and two outputs; left
    /// unspecified unless an implementation states it.
    open spec fn accepts_2_16(&self, public_inputs: Seq<u8>, proof: Seq<u8>) -> bool {
        arbitrary()
    }

    /// Verifies a proof of the circuit with two inputs and two outputs.
    fn verify_2_2_proof(&self, public_inputs: &Vec<u8>, proof: &Vec<u8>) -> (r: bool)
        ensures
            r == self.accepts_2_2(public_inputs@, proof@),
    ;

    /// Verifies a proof of the circuit with sixteen inputs and two outputs.
    fn verify_2_16_proof(&self, public_inputs: &Vec<u8>, proof: &Vec<u8>) -> (r: bool)
        ensures
            r == self.accepts_2_16(public_inputs@, proof@),
    ;
}

/// The verdict on a transaction's proof for `public_inputs`: that of the
/// circuit of its shape, and a rejection where no circuit has that shape.
pub open spec fn verdict_of<V: VerifyProof>(verifier: &V, proof_data: &ProofData, public_inputs: Seq<u8>) -> bool {
    let ins = proof_data.input_nullifiers@.len();
    let outs = proof_data.output_commitments@.len();
    if ins == 2 && outs == 2 {
        verifier.accepts_2_2(public_inputs, proof_data.proof@)
    } else if ins == 16 && outs == 2 {
        verifier.accepts_2_16(public_inputs, proof_data.proof@)
    } else {
        false
    }
}

/// Appends the bytes of `e` to `out`.
pub(crate) fn append_element(out: &mut Vec<u8>, e: &[u8; 32])
    ensures
        final(out)@ == old(out)@ + e@,
{
    let ghost start = out@;
    let mut i: usize = 0;
    while i < 32
        invariant
            i <= 32,
            out@ == start + e@.subrange(0, i as int),
        decreases 32 - i,
    {
        out.push(e[i]);
        i = i + 1;
        assert(out@ =~= start + e@.subrange(0, i as int));
    }
    assert(e@.subrange(0, 32) =~= e@);
}

/// Appends the bytes of each of `es` to `out`, in order.
fn append_elements(out: &mut Vec<u8>, es: &Vec<[u8; 32]>)
    ensures
        final(out)@ == old(out)@ + flatten(elements_view(es@)),
{
    let ghost start = out@;
    let mut i: usize = 0;
    while i < es.len()
        invariant
            i <= es@.len(),
            out@ == start + flatten(elements_view(es@.subrange(0, i as int))),
        decreases es@.len() - i,
    {
        append_element(out, &es[i]);
        proof {
            let next = elements_view(es@.subrange(0, i + 1));
            assert(next.drop_last() =~= elements_view(es@.subrange(0, i as int)));
            assert(next.last() == es@[i as int]@);
        }
        i = i + 1;
        assert(out@ =~= start + flatten(elements_view(es@.subrange(0, i as int))));
    }
    assert(es@.subrange(0, es@.len() as int) =~= es@);
}

/// The bytes of `e`.
pub(crate) fn element_to_vec(e: &[u8; 32]) -> (r: Vec<u8>)
    ensures
        r@ == e@,
{
    let mut out: Vec<u8> = Vec::new();
    append_element(&mut out, e);
    assert(out@ =~= e@);
    out
}

/// Whether `a` holds the bytes of `b`.
fn bytes_match(a: &Vec<u8>, b: &[u8; 32]) -> (r: bool)
    ensures
        r == (a@ == b@),
{
    if a.len() != 32 {
        return false;
    }
    let mut i: usize = 0;
    while i < 32
        invariant
            i <= 32,
            a@.len() == 32,
            forall|j: int| 0 <= j < i ==> a@[j] == b@[j],
        decreases 32 - i,
    {
        if a[i] != b[i] {
            return false;
        }
        i = i + 1;
    }
    assert(a@ =~= b@);
    true
}

/// Asks `verifier` for the circuit of the transaction's shape; a shape
/// without a circuit is rejected without asking.
fn verify_by_shape<V: VerifyProof>(verifier: &V, proof_data: &ProofData, public_inputs: &Vec<u8>) -> (r: bool)
    ensures
        r == verdict_of(verifier, proof_data, public_inputs@),
{
    let ins = proof_data.input_nullifiers.len();
    let outs = proof_data.output_commitments.len();
    if ins == 2 && outs == 2 {
        verifier.verify_2_2_proof(public_inputs, &proof_data.proof)
    } else if ins == 16 && outs == 2 {
        verifier.verify_2_16_proof(public_inputs, &proof_data.proof)
    } else {
        false
    }
}

/// A variable-amount shielded pool: a Merkle tree of commitments, the roots of
/// linked pools on other chains, and the spent nullifiers.
pub struct VAnchor {
    chain_id: u32,
    merkle_tree: MerkleTree,
    linkable_tree: LinkableMerkleTree,
    max_deposit_amt: u128,
    min_withdraw_amt: u128,
    max_ext_amt: u128,
    max_fee: u128,
    tokenwrapper_addr: [u8; 32],
    used_nullifiers: NullifierSet,
}

impl VAnchor {
    pub closed spec fn tree(&self) -> MerkleTree {
        self.merkle_tree
    }

    pub closed spec fn links(&self) -> LinkableMerkleTree {
        self.linkable_tree
    }

    pub closed spec fn nullifiers(&self) -> NullifierSet {
        self.used_nullifiers
    }

    pub closed spec fn spec_chain_id(&self) -> u32 {
        self.chain_id
    }

    pub closed spec fn spec_max_ext_amt(&self) -> u128 {
        self.max_ext_amt
    }

    pub closed spec fn spec_max_fee(&self) -> u128 {
        self.max_fee
    }

    pub closed spec fn spec_max_deposit_amt(&self) -> u128 {
        self.max_deposit_amt
    }

    pub closed spec fn spec_min_withdraw_amt(&self) -> u128 {
        self.min_withdraw_amt
    }

    pub closed spec fn spec_tokenwrapper_addr(&self) -> [u8; 32] {
        self.tokenwrapper_addr
    }

    pub closed spec fn wf(&self) -> bool {
        &&& self.merkle_tree.wf()
        &&& self.linkable_tree.wf()
        &&& self.linkable_tree.spec_max_edges() >= 1
    }

    /// The hash that binds `ext_data` once its recipient and relayer are
    /// placed in 32-byte field elements.
    pub open spec fn ext_data_binding(ext_data: &ExtData) -> Seq<u8> {
        binding_hash(
            abi_fields(
                padded(ext_data.recipient@, 32),
                padded(ext_data.relayer@, 32),
                ext_data.ext_amount,
                ext_data.fee,
                ext_data.encrypted_output1@,
                ext_data.encrypted_output2@,
            ),
        )
    }

    /// The first check a transaction fails, in the order they are made, or
    /// `None` where it passes them all.
    pub open spec fn binding_error(&self, proof_data: &ProofData, ext_data: &ExtData) -> Option<Error> {
        let roots = elements_view(proof_data.roots@);
        if proof_data.roots@.len() != self.links().spec_max_edges() {
            Some(Error::UnmatchedEdges)
        } else if !self.tree().knows_root(roots[0]) {
            Some(Error::UnknownRoot)
        } else if !self.links().valid_neighbor_roots(roots.skip(1)) {
            Some(Error::InvalidMerkleRoots)
        } else if exists|i: int|
            0 <= i < proof_data.input_nullifiers@.len() && self.nullifiers().spent(
                #[trigger] proof_data.input_nullifiers@[i]@,
            ) {
            Some(Error::AlreadyRevealedNullifier)
        } else if !(ext_data.recipient@.len() == 32 && ext_data.relayer@.len() == 32
            && ext_data.encrypted_output1@.len() <= MAX_ABI_FIELD_LEN && ext_data.encrypted_output2@.len()
            <= MAX_ABI_FIELD_LEN) || Self::ext_data_binding(ext_data) != proof_data.ext_data_hash@ {
            Some(Error::InvalidExtData)
        } else if ext_data.fee > self.spec_max_fee() {
            Some(Error::InvalidFeeAmount)
        } else if abs_i128(ext_data.ext_amount) > self.spec_max_ext_amt() {
            Some(Error::InvalidExtAmount)
        } else if !public_amount_matches(ext_data.ext_amount, ext_data.fee, proof_data.public_amount@) {
            Some(Error::InvalidPublicAmount)
        } else {
            None
        }
    }

    /// The public inputs a proof is verified against: the public amount, the
    /// external data hash, the input nullifiers, the output commitments, the
    /// typed chain id in a field element, and the roots.
    pub open spec fn public_inputs_of(&self, proof_data: &ProofData) -> Seq<u8> {
        proof_data.public_amount@ + proof_data.ext_data_hash@ + flatten(elements_view(proof_data.input_nullifiers@))
            + flatten(elements_view(proof_data.output_commitments@)) + padded(
            le_bytes(ink_chain_id_type(self.spec_chain_id()) as nat, 16),
            32,
        ) + flatten(elements_view(proof_data.roots@))
    }

    /// What a transaction returns when its proof is put to `verifier`.
    pub open spec fn transaction_result<V: VerifyProof>(&self, verifier: &V, proof_data: &ProofData, ext_data: &ExtData) -> Result<(), Error> {
        self.outcome(proof_data, ext_data, verdict_of(verifier, proof_data, self.public_inputs_of(proof_data)))
    }

    /// What a transaction returns, given whether its proof was accepted.
    pub open spec fn outcome(&self, proof_data: &ProofData, ext_data: &ExtData, proof_verified: bool) -> Result<(), Error> {
        let commitments = elements_view(proof_data.output_commitments@);
        match self.binding_error(proof_data, ext_data) {
            Some(e) => Err(e),
            None => {
                if !(proof_verified && shape_supported(
                    proof_data.input_nullifiers@.len(),
                    proof_data.output_commitments@.len(),
                )) {
                    Err(Error::InvalidTxProof)
                } else if self.tree().leaves().len() + commitments.len() > two_to(self.tree().spec_levels()) {
                    Err(Error::TreeFull)
                } else if self.tree().spec_levels() > 0 && exists|i: int|
                    0 <= i < commitments.len() && !is_canonical(#[trigger] commitments[i]) {
                    Err(Error::HashError)
                } else {
                    Ok(())
                }
            },
        }
    }

    /// The state after a transaction was accepted: its nullifiers are spent
    /// and its commitments appended to the tree; nothing else changed.
    pub open spec fn committed(&self, before: &VAnchor, proof_data: &ProofData) -> bool {
        &&& self.tree().spec_levels() == before.tree().spec_levels()
        &&& self.tree().leaves() == before.tree().leaves() + elements_view(proof_data.output_commitments@)
        &&& self.links() == before.links()
        &&& forall|n: Seq<u8>| #[trigger] self.nullifiers().spent(n) == (before.nullifiers().spent(n)
            || exists|i: int| 0 <= i < proof_data.input_nullifiers@.len() && (#[trigger] proof_data.input_nullifiers@[i])@ == n)
        &&& self.spec_chain_id() == before.spec_chain_id()
        &&& self.spec_max_ext_amt() == before.spec_max_ext_amt()
        &&& self.spec_max_fee() == before.spec_max_fee()
        &&& self.spec_max_deposit_amt() == before.spec_max_deposit_amt()
        &&& self.spec_min_withdraw_amt() == before.spec_min_withdraw_amt()
        &&& self.spec_tokenwrapper_addr() == before.spec_tokenwrapper_addr()
    }

    /// The chain id, the limits and the token wrapper are those of `before`.
    pub open spec fn same_config(&self, before: &VAnchor) -> bool {
        &&& self.spec_chain_id() == before.spec_chain_id()
        &&& self.spec_max_ext_amt() == before.spec_max_ext_amt()
        &&& self.spec_max_fee() == before.spec_max_fee()
        &&& self.spec_max_deposit_amt() == before.spec_max_deposit_amt()
        &&& self.spec_min_withdraw_amt() == before.spec_min_withdraw_amt()
        &&& self.spec_tokenwrapper_addr() == before.spec_tokenwrapper_addr()
    }

    /// A pool on chain `chain_id` with an empty tree of height `levels`,
    /// linking up to `max_edges` trees counting its own.
    pub fn new(
        max_edges: u32,
        chain_id: u32,
        levels: u32,
        max_deposit_amt: u128,
        min_withdraw_amt: u128,
        max_ext_amt: u128,
        max_fee: u128,
        tokenwrapper_addr: [u8; 32],
    ) -> (r: VAnchor)
        requires
            max_edges >= 1,
            levels <= MAX_LEVELS,
        ensures
            r.wf(),
            r.tree().spec_levels() == levels,
            r.tree().leaves() == Seq::<Seq<u8>>::empty(),
            r.links().spec_max_edges() == max_edges,
            r.links().chain_ids() == Seq::<u64>::empty(),
            forall|n: Seq<u8>| !r.nullifiers().spent(n),
            r.spec_chain_id() == chain_id,
            r.spec_max_deposit_amt() == max_deposit_amt,
            r.spec_min_withdraw_amt() == min_withdraw_amt,
            r.spec_max_ext_amt() == max_ext_amt,
            r.spec_max_fee() == max_fee,
            r.spec_tokenwrapper_addr() == tokenwrapper_addr,
    {
        VAnchor {
            chain_id,
            merkle_tree: MerkleTree::new(levels),
            linkable_tree: LinkableMerkleTree::new(max_edges),
            max_deposit_amt,
            min_withdraw_amt,
            max_ext_amt,
            max_fee,
            tokenwrapper_addr,
            used_nullifiers: NullifierSet::new(),
        }
    }

    /// Checks the public values of a transaction in order (number of roots,
    /// local root, roots of linked chains, nullifiers, external data hash,
    /// fee, external amount, public amount) and returns the public inputs its
    /// proof must be verified against. It neither verifies the proof nor
    /// changes anything: `transact` does both.
    pub fn check_public_inputs(&self, proof_data: &ProofData, ext_data: &ExtData) -> (r: Result<Vec<u8>, Error>)
        requires
            self.wf(),
        ensures
            match self.binding_error(proof_data, ext_data) {
                Some(e) => r == Err::<Vec<u8>, Error>(e),
                None => r is Ok && r->Ok_0@ == self.public_inputs_of(proof_data),
            },
    {
        let ghost roots = elements_view(proof_data.roots@);
        if self.linkable_tree.max_edges() as usize != proof_data.roots.len() {
            return Err(Error::UnmatchedEdges);
        }
        if !self.merkle_tree.is_known_root(proof_data.roots[0]) {
            return Err(Error::UnknownRoot);
        }
        let mut neighbors: Vec<[u8; 32]> = Vec::new();
        let mut i: usize = 1;
        while i < proof_data.roots.len()
            invariant
                roots == elements_view(proof_data.roots@),
                proof_data.roots@.len() == self.links().spec_max_edges(),
                self.tree().knows_root(roots[0]),
                1 <= i <= proof_data.roots@.len(),
                neighbors@ == proof_data.roots@.subrange(1, i as int),
            decreases proof_data.roots@.len() - i,
        {
            neighbors.push(proof_data.roots[i]);
            i = i + 1;
            assert(neighbors@ =~= proof_data.roots@.subrange(1, i as int));
        }
        proof {
            assert(elements_view(neighbors@) =~= roots.skip(1));
        }
        if !self.linkable_tree.is_valid_neighbor_roots(neighbors.as_slice()) {
            return Err(Error::InvalidMerkleRoots);
        }
        let mut k: usize = 0;
        while k < proof_data.input_nullifiers.len()
            invariant
                roots == elements_view(proof_data.roots@),
                proof_data.roots@.len() == self.links().spec_max_edges(),
                self.tree().knows_root(roots[0]),
                self.links().valid_neighbor_roots(roots.skip(1)),
                k <= proof_data.input_nullifiers@.len(),
                forall|j: int| 0 <= j < k ==> !self.nullifiers().spent(#[trigger] proof_data.input_nullifiers@[j]@),
            decreases proof_data.input_nullifiers@.len() - k,
        {
            if self.used_nullifiers.is_known(&proof_data.input_nullifiers[k]) {
                assert(self.nullifiers().spent(proof_data.input_nullifiers@[k as int]@));
                return Err(Error::AlreadyRevealedNullifier);
            }
            k = k + 1;
        }
        if ext_data.recipient.len() != 32 || ext_data.relayer.len() != 32
            || ext_data.encrypted_output1.len() > MAX_ABI_FIELD_LEN || ext_data.encrypted_output2.len() > MAX_ABI_FIELD_LEN {
            return Err(Error::InvalidExtData);
        }
        let recipient = element_encoder(ext_data.recipient.as_slice());
        let relayer = element_encoder(ext_data.relayer.as_slice());
        let extern_data = ExtData::new(
            element_to_vec(&recipient),
            element_to_vec(&relayer),
            ext_data.ext_amount,
            ext_data.fee,
            ext_data.encrypted_output1.clone(),
            ext_data.encrypted_output2.clone(),
        );
        let extern_data_hash = extern_data.get_encode();
        proof {
            assert(extern_data.spec_abi_fields() =~= abi_fields(
                padded(ext_data.recipient@, 32),
                padded(ext_data.relayer@, 32),
                ext_data.ext_amount,
                ext_data.fee,
                ext_data.encrypted_output1@,
                ext_data.encrypted_output2@,
            ));
        }
        if !bytes_match(&extern_data_hash, &proof_data.ext_data_hash) {
            return Err(Error::InvalidExtData);
        }
        if ext_data.fee > self.max_fee {
            return Err(Error::InvalidFeeAmount);
        }
        let ext_amount = ext_data.ext_amount;
        let abs_ext_amt = unsigned_abs(ext_amount);
        if abs_ext_amt > self.max_ext_amt {
            return Err(Error::InvalidExtAmount);
        }
        let calc_public_amt_bytes = field_element_of_difference(ext_amount, ext_data.fee);
        proof {
            lemma_le_bytes_of_value(calc_public_amt_bytes@);
        }
        if !same_element(&calc_public_amt_bytes, &proof_data.public_amount) {
            return Err(Error::InvalidPublicAmount);
        }
        let chain_id_type = typed_chain_id_ink(self.chain_id);
        let chain_id_type_bytes = element_encoder(encode_u128(chain_id_type as u128).as_slice());
        let mut bytes: Vec<u8> = Vec::new();
        append_element(&mut bytes, &proof_data.public_amount);
        append_element(&mut bytes, &proof_data.ext_data_hash);
        append_elements(&mut bytes, &proof_data.input_nullifiers);
        append_elements(&mut bytes, &proof_data.output_commitments);
        append_element(&mut bytes, &chain_id_type_bytes);
        append_elements(&mut bytes, &proof_data.roots);
        Ok(bytes)
    }

    /// Spends the transaction's nullifiers and appends its commitments to the
    /// tree, once it is known that they all fit.
    fn commit(&mut self, proof_data: &ProofData) -> (r: Result<(), Error>)
        requires
            old(self).wf(),
        ensures
            final(self).wf(),
            r == (if old(self).tree().leaves().len() + proof_data.output_commitments@.len() > two_to(
                old(self).tree().spec_levels(),
            ) {
                Err::<(), Error>(Error::TreeFull)
            } else if old(self).tree().spec_levels() > 0 && exists|i: int|
                0 <= i < proof_data.output_commitments@.len() && !is_canonical(
                    #[trigger] elements_view(proof_data.output_commitments@)[i],
                ) {
                Err::<(), Error>(Error::HashError)
            } else {
                Ok::<(), Error>(())
            }),
            r is Err ==> *final(self) == *old(self),
            r is Ok ==> final(self).committed(old(self), proof_data),
    {
        let ghost commitments = elements_view(proof_data.output_commitments@);
        let outs = proof_data.output_commitments.len();
        let capacity = self.merkle_tree.capacity();
        let used = self.merkle_tree.next_index() as u64;
        if outs as u64 > capacity - used {
            return Err(Error::TreeFull);
        }
        if self.merkle_tree.levels() > 0 {
            let mut i: usize = 0;
            while i < outs
                invariant
                    self.wf(),
                    *self == *old(self),
                    self.tree().spec_levels() > 0,
                    self.tree().leaves().len() + outs <= two_to(self.tree().spec_levels()),
                    outs == proof_data.output_commitments@.len(),
                    commitments == elements_view(proof_data.output_commitments@),
                    i <= outs,
                    forall|j: int| 0 <= j < i ==> is_canonical(#[trigger] commitments[j]),
                decreases outs - i,
            {
                if !is_field_element(&proof_data.output_commitments[i]) {
                    assert(!is_canonical(commitments[i as int]));
                    return Err(Error::HashError);
                }
                i = i + 1;
            }
        }
        let ghost before = *self;
        let mut k: usize = 0;
        while k < proof_data.input_nullifiers.len()
            invariant
                self.wf(),
                self.merkle_tree == before.merkle_tree,
                self.linkable_tree == before.linkable_tree,
                self.chain_id == before.chain_id,
                self.max_deposit_amt == before.max_deposit_amt,
                self.min_withdraw_amt == before.min_withdraw_amt,
                self.max_ext_amt == before.max_ext_amt,
                self.max_fee == before.max_fee,
                self.tokenwrapper_addr == before.tokenwrapper_addr,
                k <= proof_data.input_nullifiers@.len(),
                forall|n: Seq<u8>| #[trigger] self.nullifiers().spent(n) == (before.nullifiers().spent(n)
                    || exists|j: int| 0 <= j < k && (#[trigger] proof_data.input_nullifiers@[j])@ == n),
            decreases proof_data.input_nullifiers@.len() - k,
        {
            let ghost prev = self.used_nullifiers;
            assert forall|n: Seq<u8>| #[trigger] prev.spent(n) == (before.nullifiers().spent(n)
                || exists|j: int| 0 <= j < k && (#[trigger] proof_data.input_nullifiers@[j])@ == n) by {
                assert(self.nullifiers().spent(n) == (before.nullifiers().spent(n)
                    || exists|j: int| 0 <= j < k && (#[trigger] proof_data.input_nullifiers@[j])@ == n));
            }
            self.used_nullifiers.mark_spent(proof_data.input_nullifiers[k]);
            assert forall|n: Seq<u8>| #[trigger] self.nullifiers().spent(n) == (before.nullifiers().spent(n)
                || exists|j: int| 0 <= j < k + 1 && (#[trigger] proof_data.input_nullifiers@[j])@ == n) by {
                assert(self.used_nullifiers.spent(n) == (prev.spent(n) || n == proof_data.input_nullifiers@[k as int]@));
                assert(prev.spent(n) == (before.nullifiers().spent(n)
                    || exists|j: int| 0 <= j < k && (#[trigger] proof_data.input_nullifiers@[j])@ == n));
                if n == proof_data.input_nullifiers@[k as int]@ {
                    assert(exists|j: int| 0 <= j < k + 1 && (#[trigger] proof_data.input_nullifiers@[j])@ == n);
                }
                if exists|j: int| 0 <= j < k + 1 && (#[trigger] proof_data.input_nullifiers@[j])@ == n {
                    let j = choose|j: int| 0 <= j < k + 1 && (#[trigger] proof_data.input_nullifiers@[j])@ == n;
                    if j < k {
                        assert(exists|j: int| 0 <= j < k && (#[trigger] proof_data.input_nullifiers@[j])@ == n);
                    }
                }
            }
            k = k + 1;
        }
        let ghost marked = *self;
        let mut c: usize = 0;
        while c < outs
            invariant
                self.wf(),
                outs == proof_data.output_commitments@.len(),
                commitments == elements_view(proof_data.output_commitments@),
                self.linkable_tree == before.linkable_tree,
                self.used_nullifiers == marked.used_nullifiers,
                self.chain_id == before.chain_id,
                self.max_deposit_amt == before.max_deposit_amt,
                self.min_withdraw_amt == before.min_withdraw_amt,
                self.max_ext_amt == before.max_ext_amt,
                self.max_fee == before.max_fee,
                self.tokenwrapper_addr == before.tokenwrapper_addr,
                forall|n: Seq<u8>| #[trigger] marked.nullifiers().spent(n) == (before.nullifiers().spent(n)
                    || exists|j: int| 0 <= j < proof_data.input_nullifiers@.len() && (#[trigger] proof_data.input_nullifiers@[j])@ == n),
                before.merkle_tree.wf(),
                before.tree().leaves().len() + outs <= two_to(before.tree().spec_levels()),
                before.tree().spec_levels() > 0 ==> forall|j: int| 0 <= j < outs ==> is_canonical(#[trigger] commitments[j]),
                c <= outs,
                self.tree().spec_levels() == before.tree().spec_levels(),
                self.tree().leaves() == before.tree().leaves() + commitments.subrange(0, c as int),
            decreases outs - c,
        {
            assert(commitments[c as int] == proof_data.output_commitments@[c as int]@);
            assert(self.tree().leaves().len() == before.tree().leaves().len() + c);
            let res = self.merkle_tree.insert(proof_data.output_commitments[c]);
            assert(res is Ok);
            c = c + 1;
            assert(self.tree().leaves() =~= before.tree().leaves() + commitments.subrange(0, c as int));
        }
        assert(commitments.subrange(0, outs as int) =~= commitments);
        assert(before == *old(self));
        assert forall|n: Seq<u8>| #[trigger] self.nullifiers().spent(n) == (before.nullifiers().spent(n)
            || exists|i: int| 0 <= i < proof_data.input_nullifiers@.len() && (#[trigger] proof_data.input_nullifiers@[i])@ == n) by {
            assert(marked.nullifiers().spent(n) == (before.nullifiers().spent(n)
                || exists|j: int| 0 <= j < proof_data.input_nullifiers@.len() && (#[trigger] proof_data.input_nullifiers@[j])@ == n));
        }
        Ok(())
    }

    /// Runs a transaction whose proof verification came out as
    /// `proof_verified`: all checks of `check_public_inputs`, then the proof's
    /// verdict, which only counts for a shape with a circuit, then room in the
    /// tree for the commitments. Only then are the nullifiers spent and the
    /// commitments inserted; a refused transaction changes nothing.
    pub fn execute_transaction(&mut self, proof_data: &ProofData, ext_data: &ExtData, proof_verified: bool) -> (r: Result<(), Error>)
        requires
            old(self).wf(),
        ensures
            final(self).wf(),
            r == old(self).outcome(proof_data, ext_data, proof_verified),
            r is Err ==> *final(self) == *old(self),
            r is Ok ==> final(self).committed(old(self), proof_data),
    {
        match self.check_public_inputs(proof_data, ext_data) {
            Err(e) => {
                return Err(e);
            },
            Ok(_) => {},
        }
        let ins = proof_data.input_nullifiers.len();
        let outs = proof_data.output_commitments.len();
        if !(proof_verified && ((ins == 2 && outs == 2) || (ins == 16 && outs == 2))) {
            return Err(Error::InvalidTxProof);
        }
        self.commit(proof_data)
    }

    /// Runs a transaction, verifying its proof with `verifier` against the
    /// public inputs of `check_public_inputs`: the circuit with two inputs and
    /// two outputs, or the one with sixteen inputs and two outputs; any other
    /// shape is rejected. The result is that of `execute_transaction` with the
    /// verifier's verdict.
    pub fn transact<V: VerifyProof>(&mut self, verifier: &V, proof_data: &ProofData, ext_data: &ExtData) -> (r: Result<(), Error>)
        requires
            old(self).wf(),
        ensures
            final(self).wf(),
            r == old(self).transaction_result(verifier, proof_data, ext_data),
            r is Err ==> *final(self) == *old(self),
            r is Ok ==> final(self).committed(old(self), proof_data),
    {
        match self.check_public_inputs(proof_data, ext_data) {
            Err(e) => Err(e),
            Ok(public_inputs) => {
                let verified = verify_by_shape(verifier, proof_data, &public_inputs);
                self.execute_transaction(proof_data, ext_data, verified)
            },
        }
    }

    /// A deposit transaction: it must arrive in the pool's token wrapper
    /// (`recv_token_addr`), pass the checks of `check_public_inputs`, carry a
    /// non-negative external amount within the deposit limit, equal to
    /// `recv_token_amt`, the amount received. Its proof is then verified and
    /// it is committed as `transact` does; the relayer's fee is the one
    /// transfer left to make.
    pub fn transact_deposit<V: VerifyProof>(
        &mut self,
        verifier: &V,
        proof_data: &ProofData,
        ext_data: &ExtData,
        recv_token_addr: [u8; 32],
        recv_token_amt: u128,
    ) -> (r: Result<Vec<Transfer>, Error>)
        requires
            old(self).wf(),
        ensures
            final(self).wf(),
            r is Err ==> *final(self) == *old(self),
            recv_token_addr@ != old(self).spec_tokenwrapper_addr()@ ==> r == Err::<Vec<Transfer>, Error>(Error::Unauthorized),
            recv_token_addr@ == old(self).spec_tokenwrapper_addr()@ ==> match old(self).binding_error(proof_data, ext_data) {
                Some(e) => r == Err::<Vec<Transfer>, Error>(e),
                None => if ext_data.ext_amount < 0 {
                    r == Err::<Vec<Transfer>, Error>(Error::InvalidExecutionEntry)
                } else if abs_i128(ext_data.ext_amount) > old(self).spec_max_deposit_amt() {
                    r == Err::<Vec<Transfer>, Error>(Error::InvalidDepositAmount)
                } else if abs_i128(ext_data.ext_amount) != recv_token_amt {
                    r == Err::<Vec<Transfer>, Error>(Error::InsufficientFunds)
                } else {
                    match old(self).transaction_result(verifier, proof_data, ext_data) {
                        Err(e) => r == Err::<Vec<Transfer>, Error>(e),
                        Ok(_) => r is Ok && final(self).committed(old(self), proof_data) && r->Ok_0@.map_values(
                            |t: Transfer| transfer_view(t),
                        ) == fee_payouts(ext_data),
                    }
                },
            },
    {
        if !same_element(&recv_token_addr, &self.tokenwrapper_addr) {
            return Err(Error::Unauthorized);
        }
        let public_inputs = match self.check_public_inputs(proof_data, ext_data) {
            Err(e) => {
                return Err(e);
            },
            Ok(i) => i,
        };
        if ext_data.ext_amount < 0 {
            return Err(Error::InvalidExecutionEntry);
        }
        let abs_ext_amt = unsigned_abs(ext_data.ext_amount);
        if abs_ext_amt > self.max_deposit_amt {
            return Err(Error::InvalidDepositAmount);
        }
        if abs_ext_amt != recv_token_amt {
            return Err(Error::InsufficientFunds);
        }
        let verified = verify_by_shape(verifier, proof_data, &public_inputs);
        match self.execute_transaction(proof_data, ext_data, verified) {
            Err(e) => Err(e),
            Ok(()) => Ok(payouts(ext_data, false)),
        }
    }

    /// The common part of the wrapping deposits, once the amount received
    /// matches the amount to wrap: the checks of `check_public_inputs`, a
    /// non-negative external amount within the deposit limit, then the proof
    /// and the commit as in `transact`.
    fn deposit_for_wrapping<V: VerifyProof>(&mut self, verifier: &V, proof_data: &ProofData, ext_data: &ExtData) -> (r: Result<Vec<Transfer>, Error>)
        requires
            old(self).wf(),
        ensures
            final(self).wf(),
            r is Err ==> *final(self) == *old(self),
            match old(self).binding_error(proof_data, ext_data) {
                Some(e) => r == Err::<Vec<Transfer>, Error>(e),
                None => if ext_data.ext_amount < 0 {
                    r == Err::<Vec<Transfer>, Error>(Error::InvalidExecutionEntry)
                } else if abs_i128(ext_data.ext_amount) > old(self).spec_max_deposit_amt() {
                    r == Err::<Vec<Transfer>, Error>(Error::InvalidDepositAmount)
                } else {
                    match old(self).transaction_result(verifier, proof_data, ext_data) {
                        Err(e) => r == Err::<Vec<Transfer>, Error>(e),
                        Ok(_) => r is Ok && final(self).committed(old(self), proof_data) && r->Ok_0@.map_values(
                            |t: Transfer| transfer_view(t),
                        ) == fee_payouts(ext_data),
                    }
                },
            },
    {
        let public_inputs = match self.check_public_inputs(proof_data, ext_data) {
            Err(e) => {
                return Err(e);
            },
            Ok(i) => i,
        };
        if ext_data.ext_amount < 0 {
            return Err(Error::InvalidExecutionEntry);
        }
        if unsigned_abs(ext_data.ext_amount) > self.max_deposit_amt {
            return Err(Error::InvalidDepositAmount);
        }
        let verified = verify_by_shape(verifier, proof_data, &public_inputs);
        match self.execute_transaction(proof_data, ext_data, verified) {
            Err(e) => Err(e),
            Ok(()) => Ok(payouts(ext_data, false)),
        }
    }

    /// A deposit paid in the native token, which the pool wraps.
    /// `amount_to_wrap` is what the token wrapper asks for the external
    /// amount (`None` where it could not say) and `transferred_value` what the
    /// pool received; they must agree. The deposit then runs as
    /// `deposit_for_wrapping`; once committed, the host wraps the native value
    /// received (token address zero, amount zero, the value travelling with
    /// the call) and pays the relayer's fee.
    pub fn transact_deposit_wrap_native<V: VerifyProof>(
        &mut self,
        verifier: &V,
        proof_data: &ProofData,
        ext_data: &ExtData,
        amount_to_wrap: Option<u128>,
        transferred_value: u128,
    ) -> (r: Result<WrapDeposit, Error>)
        requires
            old(self).wf(),
        ensures
            final(self).wf(),
            r is Err ==> *final(self) == *old(self),
            amount_to_wrap is None ==> r == Err::<WrapDeposit, Error>(Error::WrappingError),
            amount_to_wrap is Some && amount_to_wrap->0 != transferred_value ==> r == Err::<WrapDeposit, Error>(Error::InsufficientFunds),
            amount_to_wrap == Some(transferred_value) ==> match old(self).binding_error(proof_data, ext_data) {
                Some(e) => r == Err::<WrapDeposit, Error>(e),
                None => if ext_data.ext_amount < 0 {
                    r == Err::<WrapDeposit, Error>(Error::InvalidExecutionEntry)
                } else if abs_i128(ext_data.ext_amount) > old(self).spec_max_deposit_amt() {
                    r == Err::<WrapDeposit, Error>(Error::InvalidDepositAmount)
                } else {
                    match old(self).transaction_result(verifier, proof_data, ext_data) {
                        Err(e) => r == Err::<WrapDeposit, Error>(e),
                        Ok(_) => r is Ok && final(self).committed(old(self), proof_data) && r->Ok_0.wrap.token_address@ == crate::root_history::zero_element()
                            && r->Ok_0.wrap.amount == 0 && r->Ok_0.transfers@.map_values(|t: Transfer| transfer_view(t)) == fee_payouts(ext_data),
                    }
                },
            },
    {
        let amount = match amount_to_wrap {
            None => {
                return Err(Error::WrappingError);
            },
            Some(a) => a,
        };
        if transferred_value != amount {
            return Err(Error::InsufficientFunds);
        }
        match self.deposit_for_wrapping(verifier, proof_data, ext_data) {
            Err(e) => Err(e),
            Ok(transfers) => {
                let zero = [0u8; 32];
                assert(zero@ =~= crate::root_history::zero_element());
                Ok(WrapDeposit { wrap: WrapCall { token_address: zero, amount: 0 }, transfers })
            },
        }
    }

    /// A deposit paid in a token that the pool wraps into its token wrapper.
    /// The token wrapper must not be the pool itself (`own_account`);
    /// `amount_to_wrap` is what the token wrapper asks for the external amount
    /// (`None` where it could not say) and `recv_token_amt` what the pool
    /// received; they must agree. The deposit then runs as
    /// `deposit_for_wrapping`; once committed, the host wraps `amount_to_wrap`
    /// through the token wrapper and pays the relayer's fee.
    pub fn transact_deposit_wrap_psp22<V: VerifyProof>(
        &mut self,
        verifier: &V,
        proof_data: &ProofData,
        ext_data: &ExtData,
        own_account: [u8; 32],
        amount_to_wrap: Option<u128>,
        recv_token_amt: u128,
    ) -> (r: Result<WrapDeposit, Error>)
        requires
            old(self).wf(),
        ensures
            final(self).wf(),
            r is Err ==> *final(self) == *old(self),
            old(self).spec_tokenwrapper_addr()@ == own_account@ ==> r == Err::<WrapDeposit, Error>(Error::Unauthorized),
            old(self).spec_tokenwrapper_addr()@ != own_account@ && amount_to_wrap is None ==> r == Err::<WrapDeposit, Error>(
                Error::WrappingError,
            ),
            old(self).spec_tokenwrapper_addr()@ != own_account@ && amount_to_wrap is Some && amount_to_wrap->0
                != recv_token_amt ==> r == Err::<WrapDeposit, Error>(Error::InsufficientFunds),
            old(self).spec_tokenwrapper_addr()@ != own_account@ && amount_to_wrap == Some(recv_token_amt) ==> match old(
                self,
            ).binding_error(proof_data, ext_data) {
                Some(e) => r == Err::<WrapDeposit, Error>(e),
                None => if ext_data.ext_amount < 0 {
                    r == Err::<WrapDeposit, Error>(Error::InvalidExecutionEntry)
                } else if abs_i128(ext_data.ext_amount) > old(self).spec_max_deposit_amt() {
                    r == Err::<WrapDeposit, Error>(Error::InvalidDepositAmount)
                } else {
                    match old(self).transaction_result(verifier, proof_data, ext_data) {
                        Err(e) => r == Err::<WrapDeposit, Error>(e),
                        Ok(_) => r is Ok && final(self).committed(old(self), proof_data) && r->Ok_0.wrap == (WrapCall {
                            token_address: old(self).spec_tokenwrapper_addr(),
                            amount: recv_token_amt,
                        }) && r->Ok_0.transfers@.map_values(|t: Transfer| transfer_view(t)) == fee_payouts(ext_data),
                    }
                },
            },
    {
        if same_element(&self.tokenwrapper_addr, &own_account) {
            return Err(Error::Unauthorized);
        }
        let amount = match amount_to_wrap {
            None => {
                return Err(Error::WrappingError);
            },
            Some(a) => a,
        };
        if recv_token_amt != amount {
            return Err(Error::InsufficientFunds);
        }
        let token_address = self.tokenwrapper_addr;
        match self.deposit_for_wrapping(verifier, proof_data, ext_data) {
            Err(e) => Err(e),
            Ok(transfers) => Ok(WrapDeposit { wrap: WrapCall { token_address, amount }, transfers }),
        }
    }

    /// A withdrawal transaction: it must pass the checks of
    /// `check_public_inputs`, carry a non-positive external amount whose
    /// absolute value reaches the withdrawal minimum; its proof is then
    /// verified and it is committed as `transact` does. The recipient is then
    /// owed the absolute external amount and the relayer the fee, each paid once.
    pub fn transact_withdraw<V: VerifyProof>(
        &mut self,
        verifier: &V,
        proof_data: &ProofData,
        ext_data: &ExtData,
    ) -> (r: Result<Vec<Transfer>, Error>)
        requires
            old(self).wf(),
        ensures
            final(self).wf(),
            r is Err ==> *final(self) == *old(self),
            match old(self).binding_error(proof_data, ext_data) {
                Some(e) => r == Err::<Vec<Transfer>, Error>(e),
                None => if ext_data.ext_amount > 0 {
                    r == Err::<Vec<Transfer>, Error>(Error::InvalidExecutionEntry)
                } else if abs_i128(ext_data.ext_amount) < old(self).spec_min_withdraw_amt() {
                    r == Err::<Vec<Transfer>, Error>(Error::InvalidWithdrawAmount)
                } else {
                    match old(self).transaction_result(verifier, proof_data, ext_data) {
                        Err(e) => r == Err::<Vec<Transfer>, Error>(e),
                        Ok(_) => r is Ok && final(self).committed(old(self), proof_data) && r->Ok_0@.map_values(
                            |t: Transfer| transfer_view(t),
                        ) == withdraw_payouts(ext_data),
                    }
                },
            },
    {
        let public_inputs = match self.check_public_inputs(proof_data, ext_data) {
            Err(e) => {
                return Err(e);
            },
            Ok(i) => i,
        };
        if ext_data.ext_amount > 0 {
            return Err(Error::InvalidExecutionEntry);
        }
        if unsigned_abs(ext_data.ext_amount) < self.min_withdraw_amt {
            return Err(Error::InvalidWithdrawAmount);
        }
        let verified = verify_by_shape(verifier, proof_data, &public_inputs);
        match self.execute_transaction(proof_data, ext_data, verified) {
            Err(e) => Err(e),
            Ok(()) => Ok(payouts(ext_data, true)),
        }
    }

    /// A withdrawal paid out by unwrapping: the same checks and commit as
    /// `transact_withdraw`; once committed, the host unwraps the absolute
    /// external amount through the token wrapper to the recipient and pays the
    /// relayer's fee.
    pub fn transact_withdraw_unwrap<V: VerifyProof>(
        &mut self,
        verifier: &V,
        proof_data: &ProofData,
        ext_data: &ExtData,
    ) -> (r: Result<UnwrapWithdrawal, Error>)
        requires
            old(self).wf(),
        ensures
            final(self).wf(),
            r is Err ==> *final(self) == *old(self),
            match old(self).binding_error(proof_data, ext_data) {
                Some(e) => r == Err::<UnwrapWithdrawal, Error>(e),
                None => if ext_data.ext_amount > 0 {
                    r == Err::<UnwrapWithdrawal, Error>(Error::InvalidExecutionEntry)
                } else if abs_i128(ext_data.ext_amount) < old(self).spec_min_withdraw_amt() {
                    r == Err::<UnwrapWithdrawal, Error>(Error::InvalidWithdrawAmount)
                } else {
                    match old(self).transaction_result(verifier, proof_data, ext_data) {
                        Err(e) => r == Err::<UnwrapWithdrawal, Error>(e),
                        Ok(_) => r is Ok && final(self).committed(old(self), proof_data)
                            && r->Ok_0.unwrap.token_address == old(self).spec_tokenwrapper_addr()
                            && r->Ok_0.unwrap.amount == abs_i128(ext_data.ext_amount)
                            && r->Ok_0.unwrap.to@ == ext_data.recipient@
                            && r->Ok_0.transfers@.map_values(|t: Transfer| transfer_view(t)) == fee_payouts(ext_data),
                    }
                },
            },
    {
        let public_inputs = match self.check_public_inputs(proof_data, ext_data) {
            Err(e) => {
                return Err(e);
            },
            Ok(i) => i,
        };
        if ext_data.ext_amount > 0 {
            return Err(Error::InvalidExecutionEntry);
        }
        let amount = unsigned_abs(ext_data.ext_amount);
        if amount < self.min_withdraw_amt {
            return Err(Error::InvalidWithdrawAmount);
        }
        let verified = verify_by_shape(verifier, proof_data, &public_inputs);
        let token_address = self.tokenwrapper_addr;
        match self.execute_transaction(proof_data, ext_data, verified) {
            Err(e) => Err(e),
            Ok(()) => Ok(UnwrapWithdrawal {
                unwrap: UnwrapCall { token_address, amount, to: ext_data.recipient.clone() },
                transfers: payouts(ext_data, false),
            }),
        }
    }

    /// Appends `commitment` to the tree and returns its leaf index.
    pub fn deposit(&mut self, commitment: [u8; 32]) -> (r: Result<u32, Error>)
        requires
            old(self).wf(),
        ensures
            final(self).wf(),
            old(self).tree().is_full() ==> r == Err::<u32, Error>(Error::TreeFull),
            !old(self).tree().is_full() && old(self).tree().spec_levels() > 0 && !is_canonical(commitment@) ==> r
                == Err::<u32, Error>(Error::HashError),
            r is Err ==> *final(self) == *old(self),
            r is Ok ==> r == Ok::<u32, Error>(old(self).tree().leaves().len() as u32) && final(self).tree().leaves()
                == old(self).tree().leaves().push(commitment@) && final(self).tree().spec_levels()
                == old(self).tree().spec_levels(),
            !old(self).tree().is_full() && (old(self).tree().spec_levels() == 0 || is_canonical(commitment@)) ==> r is Ok,
            final(self).links() == old(self).links(),
            final(self).nullifiers() == old(self).nullifiers(),
            final(self).same_config(old(self)),
    {
        self.merkle_tree.insert(commitment)
    }

    /// Records the latest state of the tree of a linked chain, as
    /// `LinkableMerkleTree::update_edge` does.
    pub fn update_edge(&mut self, src_chain_id: u64, root: [u8; 32], latest_leaf_index: u32, target: [u8; 32]) -> (r: Result<(), Error>)
        requires
            old(self).wf(),
        ensures
            final(self).wf(),
            final(self).tree() == old(self).tree(),
            final(self).nullifiers() == old(self).nullifiers(),
            final(self).same_config(old(self)),
            final(self).links().spec_max_edges() == old(self).links().spec_max_edges(),
            r is Err ==> *final(self) == *old(self),
            ({
                let edge = Edge { chain_id: src_chain_id, root, latest_leaf_index, target };
                &&& forall|i: int| 0 <= i < old(self).links().chain_ids().len() && old(self).links().chain_ids()[i] == src_chain_id ==> {
                    if crate::linkable_merkle_tree::is_fresh_update(old(self).links().edges()[i].latest_leaf_index, latest_leaf_index) {
                        &&& r == Ok::<(), Error>(())
                        &&& final(self).links().chain_ids() == old(self).links().chain_ids()
                        &&& final(self).links().edges() == old(self).links().edges().update(i, edge)
                        &&& final(self).links().root_logs() == old(self).links().root_logs().update(i, old(self).links().root_logs()[i].push(root@))
                    } else {
                        r == Err::<(), Error>(Error::StaleOrReplayedEdge)
                    }
                }
                &&& !old(self).links().chain_ids().contains(src_chain_id) ==> {
                    if old(self).links().chain_ids().len() < old(self).links().spec_max_edges() {
                        &&& r == Ok::<(), Error>(())
                        &&& final(self).links().chain_ids() == old(self).links().chain_ids().push(src_chain_id)
                        &&& final(self).links().edges() == old(self).links().edges().push(edge)
                        &&& final(self).links().root_logs() == old(self).links().root_logs().push(seq![root@])
                    } else {
                        r == Err::<(), Error>(Error::EdgeListFull)
                    }
                }
            }),
    {
        let edge = Edge { chain_id: src_chain_id, root, latest_leaf_index, target };
        self.linkable_tree.update_edge(edge)
    }

    /// Whether `root` is one of the last `ROOT_HISTORY_SIZE` roots of the tree.
    pub fn is_known_root(&self, root: [u8; 32]) -> (r: bool)
        requires
            self.wf(),
        ensures
            r == self.tree().knows_root(root@),
    {
        self.merkle_tree.is_known_root(root)
    }

    /// The latest root of the tree, or the zero element while it is empty.
    pub fn get_last_root(&self) -> (r: [u8; 32])
        requires
            self.wf(),
        ensures
            self.tree().leaves().len() == 0 ==> r@ == crate::root_history::zero_element(),
            self.tree().leaves().len() > 0 ==> r@ == self.tree().current_root(),
    {
        self.merkle_tree.get_last_root()
    }

    /// Whether `nullifier` was spent.
    pub fn is_known_nullifier(&self, nullifier: [u8; 32]) -> (r: bool)
        ensures
            r == self.nullifiers().spent(nullifier@),
    {
        self.used_nullifiers.is_known(&nullifier)
    }

    /// Whether `root` is among the recent roots of chain `chain_id`.
    pub fn is_known_neighbor_root(&self, chain_id: u64, root: [u8; 32]) -> (r: bool)
        requires
            self.wf(),
        ensures
            r == self.links().knows_neighbor_root(chain_id, root@),
    {
        self.linkable_tree.is_known_neighbor_root(chain_id, root)
    }

    /// The latest root of chain `chain_id`.
    pub fn get_latest_neighbor_root(&self, chain_id: u64) -> (r: Result<[u8; 32], Error>)
        requires
            self.wf(),
        ensures
            !self.links().chain_ids().contains(chain_id) ==> r == Err::<[u8; 32], Error>(Error::ItemNotFound),
            forall|i: int| 0 <= i < self.links().chain_ids().len() && self.links().chain_ids()[i] == chain_id ==>
                r == Ok::<[u8; 32], Error>(self.links().edges()[i].root),
    {
        self.linkable_tree.get_latest_neighbor_root(chain_id)
    }

    /// The latest root of every linked chain, in the order they were linked.
    pub fn get_neighbor_roots(&self) -> (r: Vec<[u8; 32]>)
        requires
            self.wf(),
        ensures
            r@.len() == self.links().edges().len(),
            forall|i: int| 0 <= i < r@.len() ==> #[trigger] r@[i] == self.links().edges()[i].root,
    {
        self.linkable_tree.get_neighbor_roots()
    }

    /// Sets the largest external amount and the largest fee a transaction may carry.
    pub fn update_vanchor_config(&mut self, max_ext_amt: u128, max_fee: u128)
        requires
            old(self).wf(),
        ensures
            final(self).wf(),
            final(self).spec_max_ext_amt() == max_ext_amt,
            final(self).spec_max_fee() == max_fee,
            final(self).tree() == old(self).tree(),
            final(self).links() == old(self).links(),
            final(self).nullifiers() == old(self).nullifiers(),
            final(self).spec_chain_id() == old(self).spec_chain_id(),
            final(self).spec_max_deposit_amt() == old(self).spec_max_deposit_amt(),
            final(self).spec_min_withdraw_amt() == old(self).spec_min_withdraw_amt(),
            final(self).spec_tokenwrapper_addr() == old(self).spec_tokenwrapper_addr(),
    {
        self.max_ext_amt = max_ext_amt;
        self.max_fee = max_fee;
    }

    /// Sets the largest amount a deposit may bring.
    pub fn configure_max_deposit_limit(&mut self, max_deposit_amt: u128)
        requires
            old(self).wf(),
        ensures
            final(self).wf(),
            final(self).spec_max_deposit_amt() == max_deposit_amt,
            final(self).tree() == old(self).tree(),
            final(self).links() == old(self).links(),
            final(self).nullifiers() == old(self).nullifiers(),
            final(self).spec_chain_id() == old(self).spec_chain_id(),
            final(self).spec_max_ext_amt() == old(self).spec_max_ext_amt(),
            final(self).spec_max_fee() == old(self).spec_max_fee(),
            final(self).spec_min_withdraw_amt() == old(self).spec_min_withdraw_amt(),
            final(self).spec_tokenwrapper_addr() == old(self).spec_tokenwrapper_addr(),
    {
        self.max_deposit_amt = max_deposit_amt;
    }

    /// Sets the smallest amount a withdrawal may take.
    pub fn configure_min_withdrawal_limit(&mut self, min_withdrawal_amt: u128)
        requires
            old(self).wf(),
        ensures
            final(self).wf(),
            final(self).spec_min_withdraw_amt() == min_withdrawal_amt,
            final(self).tree() == old(self).tree(),
            final(self).links() == old(self).links(),
            final(self).nullifiers() == old(self).nullifiers(),
            final(self).spec_chain_id() == old(self).spec_chain_id(),
            final(self).spec_max_ext_amt() == old(self).spec_max_ext_amt(),
            final(self).spec_max_fee() == old(self).spec_max_fee(),
            final(self).spec_max_deposit_amt() == old(self).spec_max_deposit_amt(),
            final(self).spec_tokenwrapper_addr() == old(self).spec_tokenwrapper_addr(),
    {
        self.min_withdraw_amt = min_withdrawal_amt;
    }
}

/// Once a transaction is committed, a later one that presents any of its
/// nullifiers and passes the root checks is refused as a double spend,
/// whatever the verdict on its proof; a refused transaction changes nothing.
pub proof fn lemma_nullifier_spent_once(
    before: &VAnchor,
    after: &VAnchor,
    first: &ProofData,
    second: &ProofData,
    ext_data: &ExtData,
    i: int,
    j: int,
    proof_verified: bool,
)
    requires
        after.committed(before, first),
        0 <= i < first.input_nullifiers@.len(),
        0 <= j < second.input_nullifiers@.len(),
        second.input_nullifiers@[j] == first.input_nullifiers@[i],
        second.roots@.len() == after.links().spec_max_edges(),
        after.tree().knows_root(elements_view(second.roots@)[0]),
        after.links().valid_neighbor_roots(elements_view(second.roots@).skip(1)),
    ensures
        after.outcome(second, ext_data, proof_verified) == Err::<(), Error>(Error::AlreadyRevealedNullifier),
{
    let n = first.input_nullifiers@[i]@;
    assert(exists|k: int| 0 <= k < first.input_nullifiers@.len() && (#[trigger] first.input_nullifiers@[k])@ == n);
    assert(after.nullifiers().spent(n));
    assert(after.nullifiers().spent(second.input_nullifiers@[j]@));
}

/// External data whose binding hash differs from the one the proof carries
/// is refused, once the earlier checks pass, whatever the verdict on the proof.
pub proof fn lemma_unbound_ext_data_refused(
    pool: &VAnchor,
    proof_data: &ProofData,
    ext_data: &ExtData,
    proof_verified: bool,
)
    requires
        VAnchor::ext_data_binding(ext_data) != proof_data.ext_data_hash@,
        proof_data.roots@.len() == pool.links().spec_max_edges(),
        pool.tree().knows_root(elements_view(proof_data.roots@)[0]),
        pool.links().valid_neighbor_roots(elements_view(proof_data.roots@).skip(1)),
        forall|k: int| 0 <= k < proof_data.input_nullifiers@.len() ==> !pool.nullifiers().spent(
            #[trigger] proof_data.input_nullifiers@[k]@,
        ),
    ensures
        pool.outcome(proof_data, ext_data, proof_verified) == Err::<(), Error>(Error::InvalidExtData),
{
}

} // verus!
