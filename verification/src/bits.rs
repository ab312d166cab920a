//! Numbers written as little-endian bits and bytes.

use vstd::arithmetic::power2::{lemma2_to64, lemma_pow2_unfold, pow2};
use vstd::prelude::*;

verus! {

/// The number that one bit stands for.
pub open spec fn bit_value(b: bool) -> nat {
    if b {
        1
    } else {
        0
    }
}

/// The number that a sequence of bits writes, least significant bit first.
pub open spec fn le_bits_value(bits: Seq<bool>) -> nat
    decreases bits.len(),
{
    if bits.len() == 0 {
        0
    } else {
        bit_value(bits[0]) + 2 * le_bits_value(bits.drop_first())
    }
}

/// The `n` lowest bits of `value`, least significant bit first.
pub open spec fn le_bits(value: nat, n: nat) -> Seq<bool>
    decreases n,
{
    if n == 0 {
        Seq::empty()
    } else {
        seq![value % 2 == 1] + le_bits(value / 2, (n - 1) as nat)
    }
}

/// The number that a sequence of bytes writes, least significant byte first.
pub open spec fn le_bytes_value(bytes: Seq<u8>) -> nat
    decreases bytes.len(),
{
    if bytes.len() == 0 {
        0
    } else {
        bytes[0] as nat + 256 * le_bytes_value(bytes.drop_first())
    }
}

/// `n` bits write a number below two to the power `n`.
pub proof fn lemma_le_bits_value_bound(bits: Seq<bool>)
    ensures
        le_bits_value(bits) < pow2(bits.len()),
    decreases bits.len(),
{
    if bits.len() == 0 {
        lemma2_to64();
    } else {
        lemma_le_bits_value_bound(bits.drop_first());
        lemma_pow2_unfold(bits.len());
    }
}

/// `le_bits` yields `n` bits.
pub proof fn lemma_le_bits_len(value: nat, n: nat)
    ensures
        le_bits(value, n).len() == n,
    decreases n,
{
    if n > 0 {
        lemma_le_bits_len(value / 2, (n - 1) as nat);
    }
}

/// Bits are the decomposition of the number that they write.
pub proof fn lemma_le_bits_of_value(bits: Seq<bool>)
    ensures
        le_bits(le_bits_value(bits), bits.len()) == bits,
    decreases bits.len(),
{
    if bits.len() > 0 {
        let rest = bits.drop_first();
        lemma_le_bits_of_value(rest);
        let v: nat = le_bits_value(bits);
        assert(v % 2 == bit_value(bits[0]) && v / 2 == le_bits_value(rest)) by {
            assert(v == bit_value(bits[0]) + 2 * le_bits_value(rest));
        }
        assert(le_bits(v, bits.len()) =~= bits);
    }
}

/// The `n` lowest bits of a number below two to the power `n` write that number.
pub proof fn lemma_value_of_le_bits(value: nat, n: nat)
    requires
        value < pow2(n),
    ensures
        le_bits_value(le_bits(value, n)) == value,
    decreases n,
{
    if n == 0 {
        lemma2_to64();
    } else {
        lemma_pow2_unfold(n);
        lemma_value_of_le_bits(value / 2, (n - 1) as nat);
        let bits = le_bits(value, n);
        assert(bits.drop_first() =~= le_bits(value / 2, (n - 1) as nat));
    }
}

/// Writing and decomposing are inverse to each other: bits write a number if
/// and only if they are the lowest bits of that number and the number needs no
/// more bits than there are.
pub proof fn lemma_bits_write_iff_decompose(bits: Seq<bool>, value: nat)
    ensures
        le_bits_value(bits) == value <==> (bits == le_bits(value, bits.len()) && value < pow2(
            bits.len(),
        )),
{
    lemma_le_bits_len(value, bits.len());
    if le_bits_value(bits) == value {
        lemma_le_bits_of_value(bits);
        lemma_le_bits_value_bound(bits);
    }
    if bits == le_bits(value, bits.len()) && value < pow2(bits.len()) {
        lemma_value_of_le_bits(value, bits.len());
    }
}

} // verus!
