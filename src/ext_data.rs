use vstd::prelude::*;
use crate::field::{field_modulus, le_bytes, le_value, lemma_le_bytes_of_value, reduce_mod_order};
use ethabi::Token;
use tiny_keccak::{Hasher, Keccak};

verus! {

/// The Keccak-256 digest of `data`.
pub uninterp spec fn keccak256_of(data: Seq<u8>) -> Seq<u8>;

/// The longest byte string an ABI-encoded field may be here: offsets and
/// lengths of the encoding are 32-bit.
pub const MAX_ABI_FIELD_LEN: usize = 0x1000_0000;

/// An ABI word holding `v`: 28 zero bytes, then the 4 big-endian bytes of `v`
/// modulo `2^32`.
pub open spec fn abi_word(v: nat) -> Seq<u8> {
    Seq::new(28, |i: int| 0u8) + seq![
        ((v / 0x100_0000) % 0x100) as u8,
        ((v / 0x1_0000) % 0x100) as u8,
        ((v / 0x100) % 0x100) as u8,
        (v % 0x100) as u8,
    ]
}

/// The tail of a byte string: its length as a word, then its bytes padded
/// with zeros to a multiple of 32.
pub open spec fn abi_bytes_tail(b: Seq<u8>) -> Seq<u8> {
    abi_word(b.len()) + b + Seq::new((((b.len() + 31) / 32) * 32 - b.len()) as nat, |i: int| 0u8)
}

/// The heads of `fields`: the offset of each tail, starting at `offset`.
pub open spec fn abi_heads(fields: Seq<Seq<u8>>, offset: nat) -> Seq<u8>
    decreases fields.len(),
{
    if fields.len() == 0 {
        Seq::empty()
    } else {
        abi_word(offset) + abi_heads(fields.drop_first(), offset + abi_bytes_tail(fields[0]).len())
    }
}

/// The tails of `fields`, in order.
pub open spec fn abi_tails(fields: Seq<Seq<u8>>) -> Seq<u8>
    decreases fields.len(),
{
    if fields.len() == 0 {
        Seq::empty()
    } else {
        abi_bytes_tail(fields[0]) + abi_tails(fields.drop_first())
    }
}

/// The Ethereum ABI encoding of a single tuple whose members are the byte
/// strings `fields`: the offset of the tuple (one word), then the tuple's
/// heads and tails, offsets counted from the start of the tuple.
pub open spec fn abi_bytes_tuple_of(fields: Seq<Seq<u8>>) -> Seq<u8> {
    abi_word(32) + abi_heads(fields, 32 * fields.len()) + abi_tails(fields)
}

/// Relies on tiny_keccak's `Keccak::v256`, fed `data` by `update` and read by
/// `finalize` into 32 bytes: the Keccak-256 digest of `data`.
#[verifier::external_body]
pub(crate) fn keccak256(data: &[u8]) -> (r: [u8; 32])
    ensures
        r@ == keccak256_of(data@),
{
    let mut keccak = Keccak::v256();
    keccak.update(data);
    let mut output = [0u8; 32];
    keccak.finalize(&mut output);
    output
}

/// Relies on ethabi's `encode` of one `Token::Tuple` made of one `Token::Bytes`
/// for each of `fields` (encoder.rs: the tuple is dynamic, so it is prefixed
/// by its offset; each `Bytes` is a head offset and a tail of length word and
/// zero-padded data). The bounds keep its 32-bit offsets from overflowing.
#[verifier::external_body]
fn abi_encode_bytes_tuple(fields: &Vec<Vec<u8>>) -> (r: Vec<u8>)
    requires
        1 <= fields@.len() <= 8,
        forall|i: int| 0 <= i < fields@.len() ==> (#[trigger] fields@[i])@.len() <= MAX_ABI_FIELD_LEN,
    ensures
        r@ == abi_bytes_tuple_of(fields@.map_values(|f: Vec<u8>| f@)),
{
    ethabi::encode(&[Token::Tuple(fields.iter().map(|f| Token::Bytes(f.clone())).collect())])
}

/// The two's complement of `v` on 128 bits, as an unsigned number.
pub open spec fn twos_complement_128(v: i128) -> nat {
    if v >= 0 {
        v as nat
    } else {
        (v + 0x1_0000_0000_0000_0000_0000_0000_0000_0000) as nat
    }
}

/// The 16 little-endian bytes of `v`: its SCALE encoding.
pub fn encode_u128(v: u128) -> (r: Vec<u8>)
    ensures
        r@ == le_bytes(v as nat, 16),
{
    let mut out: Vec<u8> = Vec::new();
    let mut rest: u128 = v;
    let mut i: usize = 0;
    while i < 16
        invariant
            i <= 16,
            out@ + le_bytes(rest as nat, (16 - i) as nat) == le_bytes(v as nat, 16),
        decreases 16 - i,
    {
        let ghost before = out@;
        assert(le_bytes(rest as nat, (16 - i) as nat) == seq![(rest % 256) as u8] + le_bytes((rest / 256) as nat, (16 - i - 1) as nat));
        out.push((rest % 256) as u8);
        rest = rest / 256;
        i = i + 1;
        assert(out@ + le_bytes(rest as nat, (16 - i) as nat) =~= before + (seq![out@.last()] + le_bytes(rest as nat, (16 - i) as nat)));
    }
    assert(le_bytes(rest as nat, 0) =~= Seq::<u8>::empty());
    assert(out@ =~= le_bytes(v as nat, 16));
    out
}

/// The 16 little-endian bytes of `v` in two's complement: its SCALE encoding.
pub fn encode_i128(v: i128) -> (r: Vec<u8>)
    ensures
        r@ == le_bytes(twos_complement_128(v), 16),
{
    let u: u128 = if v >= 0 {
        v as u128
    } else {
        u128::MAX - ((-(v + 1)) as u128)
    };
    encode_u128(u)
}

/// The public metadata of a transaction, bound into its proof by a hash.
#[derive(Debug, Clone, PartialEq, Eq)]
pub struct ExtData {
    pub recipient: Vec<u8>,
    pub relayer: Vec<u8>,
    pub ext_amount: i128,
    pub fee: u128,
    pub encrypted_output1: Vec<u8>,
    pub encrypted_output2: Vec<u8>,
}

/// The byte strings of external data that its hash covers, in order.
pub open spec fn abi_fields(
    recipient: Seq<u8>,
    relayer: Seq<u8>,
    ext_amount: i128,
    fee: u128,
    encrypted_output1: Seq<u8>,
    encrypted_output2: Seq<u8>,
) -> Seq<Seq<u8>> {
    seq![
        recipient,
        relayer,
        le_bytes(twos_complement_128(ext_amount), 16),
        le_bytes(fee as nat, 16),
        encrypted_output1,
        encrypted_output2,
    ]
}

/// The field element that binds external data: the Keccak-256 digest of the
/// ABI encoding of its fields, read little-endian and reduced into the field.
pub open spec fn binding_hash(fields: Seq<Seq<u8>>) -> Seq<u8> {
    le_bytes(le_value(keccak256_of(abi_bytes_tuple_of(fields))) % field_modulus(), 32)
}

impl ExtData {
    pub fn new(
        recipient: Vec<u8>,
        relayer: Vec<u8>,
        ext_amount: i128,
        fee: u128,
        encrypted_output1: Vec<u8>,
        encrypted_output2: Vec<u8>,
    ) -> (r: ExtData)
        ensures
            r.recipient@ == recipient@,
            r.relayer@ == relayer@,
            r.ext_amount == ext_amount,
            r.fee == fee,
            r.encrypted_output1@ == encrypted_output1@,
            r.encrypted_output2@ == encrypted_output2@,
    {
        ExtData { recipient, relayer, ext_amount, fee, encrypted_output1, encrypted_output2 }
    }

    /// The byte strings this data's hash covers.
    pub open spec fn spec_abi_fields(&self) -> Seq<Seq<u8>> {
        abi_fields(
            self.recipient@,
            self.relayer@,
            self.ext_amount,
            self.fee,
            self.encrypted_output1@,
            self.encrypted_output2@,
        )
    }

    /// Whether every field is short enough to be ABI-encoded.
    pub open spec fn fits_abi(&self) -> bool {
        &&& self.recipient@.len() <= MAX_ABI_FIELD_LEN
        &&& self.relayer@.len() <= MAX_ABI_FIELD_LEN
        &&& self.encrypted_output1@.len() <= MAX_ABI_FIELD_LEN
        &&& self.encrypted_output2@.len() <= MAX_ABI_FIELD_LEN
    }

    /// The field element that binds this data into a proof, as 32
    /// little-endian bytes.
    pub fn get_encode(&self) -> (r: Vec<u8>)
        requires
            self.fits_abi(),
        ensures
            r@ == binding_hash(self.spec_abi_fields()),
    {
        let mut fields: Vec<Vec<u8>> = Vec::new();
        fields.push(self.recipient.clone());
        fields.push(self.relayer.clone());
        fields.push(encode_i128(self.ext_amount));
        fields.push(encode_u128(self.fee));
        fields.push(self.encrypted_output1.clone());
        fields.push(self.encrypted_output2.clone());
        assert(fields@.map_values(|f: Vec<u8>| f@) =~= self.spec_abi_fields());
        proof {
            crate::field::lemma_le_bytes_len(twos_complement_128(self.ext_amount), 16);
            crate::field::lemma_le_bytes_len(self.fee as nat, 16);
            assert(fields@[2]@ == le_bytes(twos_complement_128(self.ext_amount), 16));
            assert(fields@[3]@ == le_bytes(self.fee as nat, 16));
        }
        let codec = abi_encode_bytes_tuple(&fields);
        let digest = keccak256(codec.as_slice());
        let reduced = reduce_mod_order(&digest);
        proof {
            lemma_le_bytes_of_value(reduced@);
        }
        let mut out: Vec<u8> = Vec::new();
        let mut i: usize = 0;
        while i < 32
            invariant
                i <= 32,
                out@ == reduced@.subrange(0, i as int),
            decreases 32 - i,
        {
            out.push(reduced[i]);
            i = i + 1;
            assert(out@ =~= reduced@.subrange(0, i as int));
        }
        assert(out@ =~= reduced@);
        out
    }
}

} // verus!
