//! The building blocks of the two encodings that reach the core: fixed-width
//! little-endian integers, lengths in the compact form of SCALE, and byte
//! strings that follow their length.
//!
//! Each block is stated twice: as a spec function that reads a value off the
//! front of a byte sequence and says how many bytes it took, and as a function
//! that does the same at a position of a slice.

use vstd::prelude::*;
use crate::bytes::{
    copy_range,
    le_bytes,
    le_value,
    lemma_le_bytes_len,
    lemma_le_bytes_of_le_value,
    lemma_le_value_bound,
    lemma_le_value_of_le_bytes,
    lemma_radix_pow_values,
    radix_pow,
    read_le,
};

verus! {

/// A little-endian integer of `width` bytes at the front of `bytes`.
pub open spec fn parse_le(bytes: Seq<u8>, width: nat) -> Option<(nat, nat)> {
    if bytes.len() < width {
        None
    } else {
        Some((le_value(bytes.take(width as int)), width))
    }
}

/// A compact length at the front of `bytes`. The two low bits of the first
/// byte give the form: the value in the six bits above them, in the fourteen
/// bits above them of a two-byte integer, in the thirty bits above them of a
/// four-byte integer, or in the four bytes that follow. A value is only
/// accepted in the shortest form that holds it.
pub open spec fn parse_compact(bytes: Seq<u8>) -> Option<(nat, nat)> {
    if bytes.len() == 0 {
        None
    } else if bytes[0] % 4 == 0 {
        Some(((bytes[0] / 4) as nat, 1))
    } else if bytes[0] % 4 == 1 {
        if bytes.len() >= 2 && le_value(bytes.take(2)) / 4 >= 0x40 {
            Some((le_value(bytes.take(2)) / 4, 2))
        } else {
            None
        }
    } else if bytes[0] % 4 == 2 {
        if bytes.len() >= 4 && le_value(bytes.take(4)) / 4 >= 0x4000 {
            Some((le_value(bytes.take(4)) / 4, 4))
        } else {
            None
        }
    } else {
        if bytes[0] == 3 && bytes.len() >= 5 && le_value(bytes.subrange(1, 5)) >= 0x4000_0000 {
            Some((le_value(bytes.subrange(1, 5)), 5))
        } else {
            None
        }
    }
}

/// The byte string that follows a length which was read as `length`: the
/// value of the length and the bytes it took.
pub open spec fn parse_counted(bytes: Seq<u8>, length: Option<(nat, nat)>) -> Option<
    (Seq<u8>, nat),
> {
    match length {
        None => None,
        Some((count, used)) => if bytes.len() < used + count {
            None
        } else {
            Some((bytes.subrange(used as int, (used + count) as int), used + count))
        },
    }
}

/// A byte string behind its compact length.
pub open spec fn parse_compact_bytes(bytes: Seq<u8>) -> Option<(Seq<u8>, nat)> {
    parse_counted(bytes, parse_compact(bytes))
}

/// A byte string behind its length as a four-byte little-endian integer.
pub open spec fn parse_u32_bytes(bytes: Seq<u8>) -> Option<(Seq<u8>, nat)> {
    parse_counted(bytes, parse_le(bytes, 4))
}

/// The compact form of a length below `2^32`.
pub open spec fn compact_bytes(value: nat) -> Seq<u8> {
    if value < 0x40 {
        seq![(4 * value) as u8]
    } else if value < 0x4000 {
        le_bytes(4 * value + 1, 2)
    } else if value < 0x4000_0000 {
        le_bytes(4 * value + 2, 4)
    } else {
        seq![3u8] + le_bytes(value, 4)
    }
}

/// A compact length is read back as it was written, whatever follows it.
pub proof fn lemma_compact_round_trip(value: nat, rest: Seq<u8>)
    requires
        value < 0x1_0000_0000,
    ensures
        parse_compact(compact_bytes(value) + rest) == Some((value, compact_bytes(value).len())),
{
    let written = compact_bytes(value);
    let bytes = written + rest;
    lemma_radix_pow_values();
    if 0x40 <= value < 0x4000 {
        lemma_le_bytes_len(4 * value + 1, 2);
        lemma_le_value_of_le_bytes(4 * value + 1, 2);
        assert(bytes.take(2) =~= written);
    } else if 0x4000 <= value < 0x4000_0000 {
        lemma_le_bytes_len(4 * value + 2, 4);
        lemma_le_value_of_le_bytes(4 * value + 2, 4);
        assert(bytes.take(4) =~= written);
    } else if 0x4000_0000 <= value {
        lemma_le_bytes_len(value, 4);
        lemma_le_value_of_le_bytes(value, 4);
        assert(bytes.subrange(1, 5) =~= le_bytes(value, 4));
    }
}

/// A little-endian integer that fits its width is read back as it was
/// written, whatever follows it.
pub proof fn lemma_le_round_trip(value: nat, width: nat, rest: Seq<u8>)
    requires
        value < radix_pow(width),
    ensures
        parse_le(le_bytes(value, width) + rest, width) == Some((value, width)),
{
    let written = le_bytes(value, width);
    lemma_le_bytes_len(value, width);
    lemma_le_value_of_le_bytes(value, width);
    assert((written + rest).take(width as int) =~= written);
}

/// A byte string behind its compact length is read back as it was written,
/// whatever follows it.
pub proof fn lemma_compact_bytes_round_trip(data: Seq<u8>, rest: Seq<u8>)
    requires
        data.len() < 0x1_0000_0000,
    ensures
        parse_compact_bytes(compact_bytes(data.len()) + data + rest) == Some(
            (data, compact_bytes(data.len()).len() + data.len()),
        ),
{
    let length = compact_bytes(data.len());
    let bytes = length + data + rest;
    assert(bytes =~= length + (data + rest));
    lemma_compact_round_trip(data.len(), data + rest);
}

/// A byte string behind its four-byte length is read back as it was written,
/// whatever follows it.
pub proof fn lemma_u32_bytes_round_trip(data: Seq<u8>, rest: Seq<u8>)
    requires
        data.len() < 0x1_0000_0000,
    ensures
        parse_u32_bytes(le_bytes(data.len(), 4) + data + rest) == Some((data, 4 + data.len())),
{
    let length = le_bytes(data.len(), 4);
    let bytes = length + data + rest;
    lemma_radix_pow_values();
    lemma_le_bytes_len(data.len(), 4);
    assert(bytes =~= length + (data + rest));
    lemma_le_round_trip(data.len(), 4, data + rest);
}

/// Only the bytes that are written for a little-endian integer are read as
/// that integer.
pub proof fn lemma_le_parse_is_canonical(bytes: Seq<u8>, width: nat)
    requires
        parse_le(bytes, width) is Some,
    ensures
        ({
            let (value, used) = parse_le(bytes, width).unwrap();
            &&& used == width <= bytes.len()
            &&& value < radix_pow(width)
            &&& bytes.take(used as int) == le_bytes(value, width)
        }),
{
    lemma_le_value_bound(bytes.take(width as int));
    lemma_le_bytes_of_le_value(bytes.take(width as int));
}

/// Only the bytes that the compact form writes for a length are read as that
/// length.
pub proof fn lemma_compact_parse_is_canonical(bytes: Seq<u8>)
    requires
        parse_compact(bytes) is Some,
    ensures
        ({
            let (value, used) = parse_compact(bytes).unwrap();
            &&& used <= bytes.len()
            &&& value < 0x1_0000_0000
            &&& bytes.take(used as int) == compact_bytes(value)
        }),
{
    reveal_with_fuel(le_value, 5);
    lemma_radix_pow_values();
    if bytes[0] % 4 == 0 {
        assert(bytes.take(1) =~= compact_bytes((bytes[0] / 4) as nat));
    } else if bytes[0] % 4 == 1 {
        let read = bytes.take(2);
        assert(le_value(read) == read[0] + 256 * read[1]);
        lemma_le_bytes_of_le_value(read);
    } else if bytes[0] % 4 == 2 {
        let read = bytes.take(4);
        assert(le_value(read) == read[0] + 256 * (read[1] + 256 * (read[2] + 256 * read[3])));
        lemma_le_bytes_of_le_value(read);
    } else {
        let read = bytes.subrange(1, 5);
        lemma_le_value_bound(read);
        lemma_le_bytes_of_le_value(read);
        assert(bytes.take(5) =~= seq![3u8] + read);
    }
}

/// Only the bytes that are written for a byte string behind its compact
/// length are read as that byte string.
pub proof fn lemma_compact_bytes_parse_is_canonical(bytes: Seq<u8>)
    requires
        parse_compact_bytes(bytes) is Some,
    ensures
        ({
            let (data, used) = parse_compact_bytes(bytes).unwrap();
            &&& used <= bytes.len()
            &&& data.len() < 0x1_0000_0000
            &&& bytes.take(used as int) == compact_bytes(data.len()) + data
        }),
{
    lemma_compact_parse_is_canonical(bytes);
    let (count, start) = parse_compact(bytes).unwrap();
    assert(bytes.take((start + count) as int) =~= bytes.take(start as int) + bytes.subrange(
        start as int,
        (start + count) as int,
    ));
}

/// Only the bytes that are written for a byte string behind its four-byte
/// length are read as that byte string.
pub proof fn lemma_u32_bytes_parse_is_canonical(bytes: Seq<u8>)
    requires
        parse_u32_bytes(bytes) is Some,
    ensures
        ({
            let (data, used) = parse_u32_bytes(bytes).unwrap();
            &&& used <= bytes.len()
            &&& data.len() < 0x1_0000_0000
            &&& bytes.take(used as int) == le_bytes(data.len(), 4) + data
        }),
{
    lemma_le_parse_is_canonical(bytes, 4);
    lemma_radix_pow_values();
    let (count, start) = parse_le(bytes, 4).unwrap();
    assert(bytes.take((start + count) as int) =~= bytes.take(start as int) + bytes.subrange(
        start as int,
        (start + count) as int,
    ));
}

/// Reads a little-endian integer of `width` bytes at position `at`.
pub(crate) fn take_le(bytes: &[u8], at: usize, width: usize) -> (taken: Option<(u128, usize)>)
    requires
        at <= bytes@.len(),
        width <= 16,
    ensures
        match taken {
            Some((value, next)) => next == at + width && next <= bytes@.len() && parse_le(
                bytes@.skip(at as int),
                width as nat,
            ) == Some((value as nat, width as nat)) && value < radix_pow(width as nat),
            None => parse_le(bytes@.skip(at as int), width as nat) is None,
        },
{
    if bytes.len() - at < width {
        None
    } else {
        let value = read_le(bytes, at, width);
        proof {
            assert(bytes@.skip(at as int).take(width as int) =~= bytes@.subrange(
                at as int,
                at + width,
            ));
        }
        Some((value, at + width))
    }
}

/// Reads a compact length at position `at`.
pub(crate) fn take_compact(bytes: &[u8], at: usize) -> (taken: Option<(u32, usize)>)
    requires
        at <= bytes@.len(),
    ensures
        match taken {
            Some((value, next)) => at < next <= bytes@.len() && parse_compact(
                bytes@.skip(at as int),
            ) == Some((value as nat, (next - at) as nat)),
            None => parse_compact(bytes@.skip(at as int)) is None,
        },
{
    let total: usize = bytes.len();
    if at >= total {
        return None;
    }
    let ghost rest = bytes@.skip(at as int);
    let first: u8 = bytes[at];
    let mode: u8 = first % 4;
    proof {
        lemma_radix_pow_values();
    }
    if mode == 0 {
        Some(((first / 4) as u32, at + 1))
    } else if mode == 1 {
        if total - at < 2 {
            return None;
        }
        let value: u128 = read_le(bytes, at, 2) / 4;
        proof {
            assert(rest.take(2) =~= bytes@.subrange(at as int, at + 2));
        }
        if value >= 0x40 {
            Some((value as u32, at + 2))
        } else {
            None
        }
    } else if mode == 2 {
        if total - at < 4 {
            return None;
        }
        let value: u128 = read_le(bytes, at, 4) / 4;
        proof {
            assert(rest.take(4) =~= bytes@.subrange(at as int, at + 4));
        }
        if value >= 0x4000 {
            Some((value as u32, at + 4))
        } else {
            None
        }
    } else {
        if first != 3 || total - at < 5 {
            return None;
        }
        let value: u128 = read_le(bytes, at + 1, 4);
        proof {
            assert(rest.subrange(1, 5) =~= bytes@.subrange(at + 1, at + 5));
        }
        if value >= 0x4000_0000 {
            Some((value as u32, at + 5))
        } else {
            None
        }
    }
}

/// Copies the `count` bytes at position `at`.
pub(crate) fn take_bytes(bytes: &[u8], at: usize, count: usize) -> (taken: Option<(Vec<u8>, usize)>)
    requires
        at <= bytes@.len(),
    ensures
        match taken {
            Some((copy, next)) => next == at + count && next <= bytes@.len() && copy@
                == bytes@.subrange(at as int, at + count),
            None => bytes@.len() < at + count,
        },
{
    if bytes.len() - at < count {
        None
    } else {
        Some((copy_range(bytes, at, at + count), at + count))
    }
}

/// Reads a byte string behind its compact length at position `at`.
pub(crate) fn take_compact_bytes(bytes: &[u8], at: usize) -> (taken: Option<(Vec<u8>, usize)>)
    requires
        at <= bytes@.len(),
    ensures
        match taken {
            Some((copy, next)) => at < next <= bytes@.len() && parse_compact_bytes(
                bytes@.skip(at as int),
            ) == Some((copy@, (next - at) as nat)),
            None => parse_compact_bytes(bytes@.skip(at as int)) is None,
        },
{
    match take_compact(bytes, at) {
        None => None,
        Some((count, start)) => {
            match take_bytes(bytes, start, count as usize) {
                None => None,
                Some((copy, next)) => {
                    Some((copy, next))
                },
            }
        },
    }
}

/// Reads a byte string behind its four-byte length at position `at`.
pub(crate) fn take_u32_bytes(bytes: &[u8], at: usize) -> (taken: Option<(Vec<u8>, usize)>)
    requires
        at <= bytes@.len(),
    ensures
        match taken {
            Some((copy, next)) => at < next <= bytes@.len() && parse_u32_bytes(
                bytes@.skip(at as int),
            ) == Some((copy@, (next - at) as nat)),
            None => parse_u32_bytes(bytes@.skip(at as int)) is None,
        },
{
    match take_le(bytes, at, 4) {
        None => None,
        Some((count, start)) => {
            proof {
                lemma_radix_pow_values();
            }
            match take_bytes(bytes, start, count as usize) {
                None => None,
                Some((copy, next)) => {
                    Some((copy, next))
                },
            }
        },
    }
}

} // verus!
