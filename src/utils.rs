use vstd::prelude::*;

verus! {

/// The byte at position `i` of `v` copied into a zero-filled buffer of `n` bytes:
/// `v` is truncated to `n` bytes, or padded on the right with zeros.
pub open spec fn padded(v: Seq<u8>, n: nat) -> Seq<u8> {
    Seq::new(n, |i: int| if i < v.len() { v[i] } else { 0u8 })
}

/// Copies the leading bytes of `v` into the zero-filled `out`.
fn copy_prefix<const N: usize>(v: &[u8], out: &mut [u8; N])
    requires
        forall|i: int| 0 <= i < N ==> old(out)@[i] == 0u8,
    ensures
        final(out)@ == padded(v@, N as nat),
{
    let mut i: usize = 0;
    while i < N && i < v.len()
        invariant
            i <= N,
            i <= v@.len(),
            forall|j: int| 0 <= j < i ==> out@[j] == v@[j],
            forall|j: int| i <= j < N ==> out@[j] == 0u8,
            out@.len() == N,
        decreases N - i,
    {
        out[i] = v[i];
        i = i + 1;
    }
    assert forall|j: int| 0 <= j < N implies out@[j] == padded(v@, N as nat)[j] by {
        if j >= i {
            assert(j >= v@.len());
        }
    }
    assert(out@ =~= padded(v@, N as nat));
}

/// Places `v` in a 32-byte field element: truncated, or padded with zeros.
pub fn element_encoder(v: &[u8]) -> (r: [u8; 32])
    ensures
        r@ == padded(v@, 32),
{
    let mut output = [0u8; 32];
    copy_prefix(v, &mut output);
    output
}

/// Places `v` in an array of 4 bytes: truncated, or padded with zeros.
pub fn element_encoder_for_four_bytes(v: &[u8]) -> (r: [u8; 4])
    ensures
        r@ == padded(v@, 4),
{
    let mut output = [0u8; 4];
    copy_prefix(v, &mut output);
    output
}

/// Places `v` in an array of 8 bytes: truncated, or padded with zeros.
pub fn element_encoder_for_eight_bytes(v: &[u8]) -> (r: [u8; 8])
    ensures
        r@ == padded(v@, 8),
{
    let mut output = [0u8; 8];
    copy_prefix(v, &mut output);
    output
}

/// Places `v` in an array of 16 bytes: truncated, or padded with zeros.
pub fn element_encoder_for_sixteen_bytes(v: &[u8]) -> (r: [u8; 16])
    ensures
        r@ == padded(v@, 16),
{
    let mut output = [0u8; 16];
    copy_prefix(v, &mut output);
    output
}

/// Places `v` in an array of 1 byte: its first byte, or zero.
pub fn element_encoder_for_one_byte(v: &[u8]) -> (r: [u8; 1])
    ensures
        r@ == padded(v@, 1),
{
    let mut output = [0u8; 1];
    copy_prefix(v, &mut output);
    output
}

/// Places `v` in an array of 2 bytes: truncated, or padded with zeros.
pub fn element_encoder_for_two_bytes(v: &[u8]) -> (r: [u8; 2])
    ensures
        r@ == padded(v@, 2),
{
    let mut output = [0u8; 2];
    copy_prefix(v, &mut output);
    output
}

/// The 20 leading bytes of `t` followed by 12 zero bytes.
pub fn truncate_and_pad(t: &[u8]) -> (r: Vec<u8>)
    requires
        t@.len() >= 20,
    ensures
        r@ == t@.subrange(0, 20) + Seq::new(12, |i: int| 0u8),
{
    let mut out: Vec<u8> = Vec::new();
    let mut i: usize = 0;
    while i < 20
        invariant
            i <= 20,
            t@.len() >= 20,
            out@ == t@.subrange(0, i as int),
        decreases 20 - i,
    {
        out.push(t[i]);
        i = i + 1;
        assert(out@ =~= t@.subrange(0, i as int));
    }
    let mut k: usize = 0;
    while k < 12
        invariant
            k <= 12,
            out@ == t@.subrange(0, 20) + Seq::new(k as nat, |i: int| 0u8),
        decreases 12 - k,
    {
        out.push(0u8);
        k = k + 1;
        assert(out@ =~= t@.subrange(0, 20) + Seq::new(k as nat, |i: int| 0u8));
    }
    out
}

/// Whether `account_id` is the zero account.
pub fn is_account_id_zero(account_id: [u8; 32]) -> (r: bool)
    ensures
        r == (account_id@ == Seq::new(32, |i: int| 0u8)),
{
    let r = crate::root_history::is_zero_element(&account_id);
    proof {
        assert(crate::root_history::zero_element() =~= Seq::new(32, |i: int| 0u8));
    }
    r
}

/// The big-endian bytes of `x`.
pub fn transform_u32_to_array_of_u8(x: u32) -> (r: [u8; 4])
    ensures
        r@ == seq![(x / 0x1000000) as u8, ((x / 0x10000) % 0x100) as u8, ((x / 0x100) % 0x100) as u8, (x % 0x100) as u8],
{
    let b1: u8 = ((x >> 24) & 0xff) as u8;
    let b2: u8 = ((x >> 16) & 0xff) as u8;
    let b3: u8 = ((x >> 8) & 0xff) as u8;
    let b4: u8 = (x & 0xff) as u8;
    assert(((x >> 24) & 0xff) == x / 0x1000000) by (bit_vector);
    assert(((x >> 16) & 0xff) == (x / 0x10000) % 0x100) by (bit_vector);
    assert(((x >> 8) & 0xff) == (x / 0x100) % 0x100) by (bit_vector);
    assert((x & 0xff) == x % 0x100) by (bit_vector);
    let r = [b1, b2, b3, b4];
    assert(r@ =~= seq![(x / 0x1000000) as u8, ((x / 0x10000) % 0x100) as u8, ((x / 0x100) % 0x100) as u8, (x % 0x100) as u8]);
    r
}

} // verus!
