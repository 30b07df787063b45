use vstd::prelude::*;

verus! {

/// Varint (LEB128) encoding of an unsigned integer: seven bits per byte,
/// least significant group first, the high bit set on every byte but the
/// last. Zero encodes as a single zero byte.
pub open spec fn spec_varint(n: nat) -> Seq<u8>
    decreases n,
{
    if n < 128 {
        seq![n as u8]
    } else {
        seq![(n % 128 + 128) as u8] + spec_varint(n / 128)
    }
}

/// Number of bytes in the varint encoding of `n`: one per seven-bit group,
/// at least one.
pub open spec fn varint_len(n: nat) -> nat
    decreases n,
{
    if n < 128 {
        1
    } else {
        1 + varint_len(n / 128)
    }
}

/// The length formula agrees with the encoding itself.
pub proof fn lemma_spec_varint_len(n: nat)
    ensures
        spec_varint(n).len() == varint_len(n),
    decreases n,
{
    if n >= 128 {
        lemma_spec_varint_len(n / 128);
    }
}

/// Relies on integer_encoding's `VarInt::required_space` for `usize`: it
/// counts the seven-bit groups of its argument, returning at least one.
#[verifier::external_body]
pub(crate) fn varint_required_space(n: usize) -> (r: usize)
    ensures
        r == varint_len(n as nat),
{
    integer_encoding::VarInt::required_space(n)
}

/// Relies on integer_encoding's `VarInt::encode_var_vec` for `usize`: it
/// returns the LEB128 bytes of its argument, least significant group first,
/// with the continuation bit on every byte but the last.
#[verifier::external_body]
pub(crate) fn varint_encode(n: usize) -> (r: Vec<u8>)
    ensures
        r@ == spec_varint(n as nat),
{
    integer_encoding::VarInt::encode_var_vec(n)
}

} // verus!
