//! Little-endian integers and byte-string helpers shared by the decoders.

use vstd::prelude::*;

verus! {

/// `256` to the power `exponent`.
pub open spec fn radix_pow(exponent: nat) -> nat
    decreases exponent,
{
    if exponent == 0 {
        1
    } else {
        256 * radix_pow((exponent - 1) as nat)
    }
}

/// The number that `bytes` spells in little-endian order.
pub open spec fn le_value(bytes: Seq<u8>) -> nat
    decreases bytes.len(),
{
    if bytes.len() == 0 {
        0
    } else {
        bytes[0] as nat + 256 * le_value(bytes.drop_first())
    }
}

/// The `width` low-order bytes of `value`, least significant first.
pub open spec fn le_bytes(value: nat, width: nat) -> Seq<u8>
    decreases width,
{
    if width == 0 {
        Seq::empty()
    } else {
        seq![(value % 256) as u8] + le_bytes(value / 256, (width - 1) as nat)
    }
}

/// The powers of `256` for the widths of the integers that are read.
pub proof fn lemma_radix_pow_values()
    ensures
        radix_pow(0) == 1,
        radix_pow(1) == 0x100,
        radix_pow(2) == 0x1_0000,
        radix_pow(4) == 0x1_0000_0000,
        radix_pow(8) == 0x1_0000_0000_0000_0000,
        radix_pow(16) == 0x1_0000_0000_0000_0000_0000_0000_0000_0000,
{
    reveal_with_fuel(radix_pow, 17);
}

/// A higher power of `256` is not smaller, and none is zero.
pub proof fn lemma_radix_pow_monotonic(low: nat, high: nat)
    requires
        low <= high,
    ensures
        1 <= radix_pow(low) <= radix_pow(high),
    decreases high,
{
    if high == 0 {
    } else if low == high {
        lemma_radix_pow_monotonic((low - 1) as nat, (high - 1) as nat);
    } else {
        lemma_radix_pow_monotonic(low, (high - 1) as nat);
    }
}

/// A little-endian number of `n` bytes is below `256^n`.
pub proof fn lemma_le_value_bound(bytes: Seq<u8>)
    ensures
        le_value(bytes) < radix_pow(bytes.len()),
    decreases bytes.len(),
{
    if bytes.len() > 0 {
        lemma_le_value_bound(bytes.drop_first());
    }
}

/// Writing at a width gives that many bytes.
pub proof fn lemma_le_bytes_len(value: nat, width: nat)
    ensures
        le_bytes(value, width).len() == width,
    decreases width,
{
    if width > 0 {
        lemma_le_bytes_len(value / 256, (width - 1) as nat);
    }
}

/// Reading back the bytes written for `value` gives `value`, as long as
/// `value` fits in `width` bytes.
pub proof fn lemma_le_value_of_le_bytes(value: nat, width: nat)
    requires
        value < radix_pow(width),
    ensures
        le_value(le_bytes(value, width)) == value,
    decreases width,
{
    if width > 0 {
        let rest = le_bytes(value / 256, (width - 1) as nat);
        lemma_le_value_of_le_bytes(value / 256, (width - 1) as nat);
        assert(le_bytes(value, width).drop_first() =~= rest);
    }
}

/// Writing the number that `bytes` spell, at the width of `bytes`, gives
/// `bytes`.
pub proof fn lemma_le_bytes_of_le_value(bytes: Seq<u8>)
    ensures
        le_bytes(le_value(bytes), bytes.len()) == bytes,
    decreases bytes.len(),
{
    if bytes.len() > 0 {
        lemma_le_bytes_of_le_value(bytes.drop_first());
        assert(le_bytes(le_value(bytes), bytes.len()) =~= bytes);
    }
}

/// Reads the `width` bytes of `bytes` that start at `start` as a little-endian
/// number.
pub(crate) fn read_le(bytes: &[u8], start: usize, width: usize) -> (value: u128)
    requires
        width <= 16,
        start + width <= bytes@.len(),
    ensures
        value == le_value(bytes@.subrange(start as int, start + width)),
        value < radix_pow(width as nat),
{
    let total: usize = bytes.len();
    let end: usize = start + width;
    let mut value: u128 = 0;
    let mut at: usize = end;
    while at > start
        invariant
            start <= at <= end,
            end == start + width,
            width <= 16,
            end <= total == bytes@.len(),
            value == le_value(bytes@.subrange(at as int, end as int)),
        decreases at,
    {
        at = at - 1;
        proof {
            let tail = bytes@.subrange(at as int, end as int);
            assert(tail.drop_first() =~= bytes@.subrange(at + 1, end as int));
            lemma_le_value_bound(tail);
            lemma_radix_pow_monotonic(tail.len(), 16);
            lemma_radix_pow_values();
        }
        value = value * 256 + bytes[at] as u128;
    }
    proof {
        lemma_le_value_bound(bytes@.subrange(start as int, end as int));
    }
    value
}

/// Appends the `width` low-order bytes of `value` to `out`, least significant
/// first.
pub(crate) fn push_le(out: &mut Vec<u8>, value: u128, width: usize)
    ensures
        final(out)@ == old(out)@ + le_bytes(value as nat, width as nat),
{
    let mut rest: u128 = value;
    let mut written: usize = 0;
    while written < width
        invariant
            written <= width,
            old(out)@ + le_bytes(value as nat, width as nat) == out@ + le_bytes(
                rest as nat,
                (width - written) as nat,
            ),
        decreases width - written,
    {
        out.push((rest % 256) as u8);
        rest = rest / 256;
        written = written + 1;
    }
}

/// Appends a copy of `bytes` to `out`.
pub(crate) fn push_all(out: &mut Vec<u8>, bytes: &[u8])
    ensures
        final(out)@ == old(out)@ + bytes@,
{
    let mut at: usize = 0;
    while at < bytes.len()
        invariant
            at <= bytes@.len(),
            out@ == old(out)@ + bytes@.take(at as int),
        decreases bytes@.len() - at,
    {
        out.push(bytes[at]);
        at = at + 1;
    }
}

/// A copy of the bytes of `bytes` from `start` up to `end`.
pub(crate) fn copy_range(bytes: &[u8], start: usize, end: usize) -> (copy: Vec<u8>)
    requires
        start <= end <= bytes@.len(),
    ensures
        copy@ == bytes@.subrange(start as int, end as int),
{
    let mut copy: Vec<u8> = Vec::new();
    let mut at: usize = start;
    while at < end
        invariant
            start <= at <= end <= bytes@.len(),
            copy@ == bytes@.subrange(start as int, at as int),
        decreases end - at,
    {
        copy.push(bytes[at]);
        at = at + 1;
    }
    copy
}

/// Whether two byte strings hold the same bytes.
pub(crate) fn same_bytes(left: &[u8], right: &[u8]) -> (same: bool)
    ensures
        same == (left@ == right@),
{
    if left.len() != right.len() {
        return false;
    }
    let mut at: usize = 0;
    while at < left.len()
        invariant
            at <= left@.len(),
            left@.len() == right@.len(),
            forall|i: int| 0 <= i < at ==> left@[i] == right@[i],
        decreases left@.len() - at,
    {
        if left[at] != right[at] {
            return false;
        }
        at = at + 1;
    }
    proof {
        assert(left@ =~= right@);
    }
    true
}

} // verus!
