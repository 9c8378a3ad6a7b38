//! Little-endian numbers as sequences of bytes.
//!
//! The model is positional notation in base 256, least significant digit
//! first. `put_le` and `get_le` are the only two places where a number meets
//! its bytes; both copy byte by byte and never reinterpret memory.

use vstd::prelude::*;

verus! {

/// 256 to the power `n`: how many numbers `n` bytes can tell apart.
pub open spec fn radix_pow(n: nat) -> nat
    decreases n,
{
    if n == 0 {
        1
    } else {
        256 * radix_pow((n - 1) as nat)
    }
}

/// The `width` low-order base-256 digits of `value`, least significant first.
pub open spec fn le_bytes(value: nat, width: nat) -> Seq<u8>
    decreases width,
{
    if width == 0 {
        Seq::empty()
    } else {
        seq![(value % 256) as u8] + le_bytes(value / 256, (width - 1) as nat)
    }
}

/// The number whose base-256 digits, least significant first, are `bytes`.
pub open spec fn le_value(bytes: Seq<u8>) -> nat
    decreases bytes.len(),
{
    if bytes.len() == 0 {
        0
    } else {
        bytes[0] as nat + 256 * le_value(bytes.drop_first())
    }
}

/// The powers of 256 at the widths this crate uses.
pub proof fn lemma_radix_pow_values()
    ensures
        radix_pow(0) == 1,
        radix_pow(1) == 0x100,
        radix_pow(4) == 0x1_0000_0000,
        radix_pow(8) == 0x1_0000_0000_0000_0000,
        radix_pow(16) == 0x1_0000_0000_0000_0000_0000_0000_0000_0000,
{
    reveal_with_fuel(radix_pow, 17);
}

/// An encoding is exactly as long as the width asked for.
pub proof fn lemma_le_bytes_len(value: nat, width: nat)
    ensures
        le_bytes(value, width).len() == width,
    decreases width,
{
    if width > 0 {
        lemma_le_bytes_len(value / 256, (width - 1) as nat);
    }
}

/// `n` bytes hold a number below 256 to the `n`.
pub proof fn lemma_le_value_bound(bytes: Seq<u8>)
    ensures
        le_value(bytes) < radix_pow(bytes.len()),
    decreases bytes.len(),
{
    if bytes.len() > 0 {
        lemma_le_value_bound(bytes.drop_first());
    }
}

/// Decoding undoes encoding for every number that fits the width.
pub proof fn lemma_le_value_of_le_bytes(value: nat, width: nat)
    requires
        value < radix_pow(width),
    ensures
        le_value(le_bytes(value, width)) == value,
    decreases width,
{
    if width > 0 {
        let rest = le_bytes(value / 256, (width - 1) as nat);
        let all = le_bytes(value, width);
        assert(all.drop_first() =~= rest);
        lemma_le_value_of_le_bytes(value / 256, (width - 1) as nat);
    }
}

/// Encoding undoes decoding: the bytes of a number are unique.
pub proof fn lemma_le_bytes_of_le_value(bytes: Seq<u8>)
    ensures
        le_bytes(le_value(bytes), bytes.len()) == bytes,
    decreases bytes.len(),
{
    if bytes.len() > 0 {
        lemma_le_bytes_of_le_value(bytes.drop_first());
    }
}

/// Appends the `width` low-order bytes of `value` to `out`, least
/// significant first.
pub fn put_le(out: &mut Vec<u8>, value: u128, width: usize)
    ensures
        final(out)@ == old(out)@ + le_bytes(value as nat, width as nat),
{
    let ghost before = out@;
    let mut rest: u128 = value;
    let mut written: usize = 0;
    while written < width
        invariant
            written <= width,
            out@ + le_bytes(rest as nat, (width - written) as nat) == before + le_bytes(
                value as nat,
                width as nat,
            ),
        decreases width - written,
    {
        let digit: u8 = (rest % 256) as u8;
        out.push(digit);
        rest = rest / 256;
        written = written + 1;
    }
}

/// Reads all of `bytes`, at most sixteen, as one little-endian number.
pub fn get_le(bytes: &[u8]) -> (value: u128)
    requires
        bytes.len() <= 16,
    ensures
        value == le_value(bytes@),
{
    let mut value: u128 = 0;
    let mut at: usize = bytes.len();
    while at > 0
        invariant
            at <= bytes.len() <= 16,
            value == le_value(bytes@.subrange(at as int, bytes.len() as int)),
        decreases at,
    {
        let ghost tail = bytes@.subrange(at as int, bytes.len() as int);
        at = at - 1;
        let ghost span = bytes@.subrange(at as int, bytes.len() as int);
        proof {
            assert(span.drop_first() =~= tail);
            lemma_le_value_bound(tail);
            reveal_with_fuel(radix_pow, 16);
        }
        value = value * 256 + bytes[at] as u128;
    }
    assert(bytes@.subrange(0, bytes.len() as int) =~= bytes@);
    value
}

} // verus!
