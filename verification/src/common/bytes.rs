//! Big-endian integers as bytes.

use vstd::prelude::*;

verus! {

/// The low `len` base-256 digits of `n`, most significant first.
pub open spec fn be_bytes(n: nat, len: nat) -> Seq<u8>
    decreases len,
{
    if len == 0 {
        Seq::empty()
    } else {
        be_bytes(n / 256, (len - 1) as nat).push((n % 256) as u8)
    }
}

/// The number whose base-256 digits are `bytes`, most significant first.
pub open spec fn be_value(bytes: Seq<u8>) -> nat
    decreases bytes.len(),
{
    if bytes.len() == 0 {
        0
    } else {
        be_value(bytes.drop_last()) * 256 + bytes.last() as nat
    }
}

/// How many numbers `len` bytes can hold.
pub open spec fn byte_room(len: nat) -> nat
    decreases len,
{
    if len == 0 {
        1
    } else {
        256 * byte_room((len - 1) as nat)
    }
}

pub proof fn lemma_be_bytes_len(n: nat, len: nat)
    ensures
        be_bytes(n, len).len() == len,
    decreases len,
{
    if len > 0 {
        lemma_be_bytes_len(n / 256, (len - 1) as nat);
    }
}

/// Reading the digits of a number that fits gives the number back.
pub proof fn lemma_be_round_trip(n: nat, len: nat)
    requires
        n < byte_room(len),
    ensures
        be_value(be_bytes(n, len)) == n,
    decreases len,
{
    if len > 0 {
        let b = be_bytes(n, len);
        assert(b.drop_last() =~= be_bytes(n / 256, (len - 1) as nat));
        lemma_be_round_trip(n / 256, (len - 1) as nat);
    }
}

/// Writing the number read from some bytes gives those bytes back.
pub proof fn lemma_be_value_round_trip(bytes: Seq<u8>)
    ensures
        be_bytes(be_value(bytes), bytes.len()) == bytes,
        be_value(bytes) < byte_room(bytes.len()),
    decreases bytes.len(),
{
    if bytes.len() > 0 {
        let init = bytes.drop_last();
        lemma_be_value_round_trip(init);
        assert(be_value(bytes) / 256 == be_value(init));
        assert(be_value(bytes) % 256 == bytes.last());
        assert(init.push(bytes.last()) =~= bytes);
    }
}

pub proof fn lemma_byte_room_values()
    ensures
        byte_room(4) == 0x1_0000_0000,
        byte_room(8) == 0x1_0000_0000_0000_0000,
{
    reveal_with_fuel(byte_room, 9);
}

/// Appends `n` as eight bytes, most significant first.
pub fn push_be_u64(out: &mut Vec<u8>, n: u64)
    ensures
        final(out)@ == old(out)@ + be_bytes(n as nat, 8),
{
    let d0: u64 = n / 256;
    let d1: u64 = d0 / 256;
    let d2: u64 = d1 / 256;
    let d3: u64 = d2 / 256;
    let d4: u64 = d3 / 256;
    let d5: u64 = d4 / 256;
    let d6: u64 = d5 / 256;
    assert(d6 / 256 == 0 && d6 < 256);
    out.push((d6 % 256) as u8);
    out.push((d5 % 256) as u8);
    out.push((d4 % 256) as u8);
    out.push((d3 % 256) as u8);
    out.push((d2 % 256) as u8);
    out.push((d1 % 256) as u8);
    out.push((d0 % 256) as u8);
    out.push((n % 256) as u8);
    proof {
        reveal_with_fuel(be_bytes, 9);
        assert(out@ =~= old(out)@ + be_bytes(n as nat, 8));
    }
}

/// Appends `n` as four bytes, most significant first.
pub fn push_be_u32(out: &mut Vec<u8>, n: u32)
    ensures
        final(out)@ == old(out)@ + be_bytes(n as nat, 4),
{
    let d0: u32 = n / 256;
    let d1: u32 = d0 / 256;
    let d2: u32 = d1 / 256;
    out.push((d2 % 256) as u8);
    out.push((d1 % 256) as u8);
    out.push((d0 % 256) as u8);
    out.push((n % 256) as u8);
    proof {
        reveal_with_fuel(be_bytes, 5);
        assert(out@ =~= old(out)@ + be_bytes(n as nat, 4));
    }
}

/// The number in the eight bytes that start at `at`.
pub fn take_be_u64(bytes: &[u8], at: usize) -> (r: u64)
    requires
        at + 8 <= bytes@.len(),
    ensures
        r == be_value(bytes@.subrange(at as int, at + 8)),
{
    let ghost part = bytes@.subrange(at as int, at + 8);
    let end: usize = bytes.len();
    let mut n: u64 = 0;
    let mut i: usize = 0;
    while i < 8
        invariant
            i <= 8,
            end == bytes@.len(),
            at + 8 <= end,
            part == bytes@.subrange(at as int, at + 8),
            n == be_value(part.take(i as int)),
            n < byte_room(i as nat),
        decreases 8 - i,
    {
        proof {
            let next = part.take(i + 1);
            assert(next.drop_last() =~= part.take(i as int));
            reveal_with_fuel(byte_room, 9);
            lemma_be_value_round_trip(next);
        }
        n = n * 256 + bytes[at + i] as u64;
        i += 1;
    }
    assert(part.take(8) =~= part);
    n
}

/// The number in the four bytes that start at `at`.
pub fn take_be_u32(bytes: &[u8], at: usize) -> (r: u32)
    requires
        at + 4 <= bytes@.len(),
    ensures
        r == be_value(bytes@.subrange(at as int, at + 4)),
{
    let ghost part = bytes@.subrange(at as int, at + 4);
    let end: usize = bytes.len();
    let mut n: u32 = 0;
    let mut i: usize = 0;
    while i < 4
        invariant
            i <= 4,
            end == bytes@.len(),
            at + 4 <= end,
            part == bytes@.subrange(at as int, at + 4),
            n == be_value(part.take(i as int)),
            n < byte_room(i as nat),
        decreases 4 - i,
    {
        proof {
            let next = part.take(i + 1);
            assert(next.drop_last() =~= part.take(i as int));
            reveal_with_fuel(byte_room, 5);
            lemma_be_value_round_trip(next);
        }
        n = n * 256 + bytes[at + i] as u32;
        i += 1;
    }
    assert(part.take(4) =~= part);
    n
}

/// A 64-bit number is written behind what is there, and read back from there.
pub proof fn lemma_long_number_reads_back(
    out: &mut Vec<u8>,
    n: u64,
    bytes: &[u8],
    r: u64,
)
    requires
        call_ensures(push_be_u64, (out, n), ()),
        bytes@ == final(out)@,
        old(out)@.len() <= usize::MAX,
        call_ensures(take_be_u64, (bytes, old(out)@.len() as usize), r),
    ensures
        final(out)@.len() == old(out)@.len() + 8,
        final(out)@.take(old(out)@.len() as int) == old(out)@,
        r == n,
{
    let at = old(out)@.len() as int;
    lemma_be_bytes_len(n as nat, 8);
    assert(final(out)@.take(at) =~= old(out)@);
    assert(bytes@.subrange(at, at + 8) =~= be_bytes(n as nat, 8));
    lemma_byte_room_values();
    lemma_be_round_trip(n as nat, 8);
}

/// A 32-bit number is written behind what is there, and read back from there.
pub proof fn lemma_number_reads_back(
    out: &mut Vec<u8>,
    n: u32,
    bytes: &[u8],
    r: u32,
)
    requires
        call_ensures(push_be_u32, (out, n), ()),
        bytes@ == final(out)@,
        old(out)@.len() <= usize::MAX,
        call_ensures(take_be_u32, (bytes, old(out)@.len() as usize), r),
    ensures
        final(out)@.len() == old(out)@.len() + 4,
        final(out)@.take(old(out)@.len() as int) == old(out)@,
        r == n,
{
    let at = old(out)@.len() as int;
    lemma_be_bytes_len(n as nat, 4);
    assert(final(out)@.take(at) =~= old(out)@);
    assert(bytes@.subrange(at, at + 4) =~= be_bytes(n as nat, 4));
    lemma_byte_room_values();
    lemma_be_round_trip(n as nat, 4);
}

/// A 64-bit number is read from eight bytes, the highest first.
pub proof fn lemma_long_number_layout(bytes: &[u8], at: usize, r: u64)
    requires
        call_ensures(take_be_u64, (bytes, at), r),
        at + 8 <= bytes@.len(),
    ensures
        r == ((((((bytes@[at as int] * 256 + bytes@[at + 1]) * 256 + bytes@[at + 2]) * 256
            + bytes@[at + 3]) * 256 + bytes@[at + 4]) * 256 + bytes@[at + 5]) * 256 + bytes@[at
            + 6]) * 256 + bytes@[at + 7],
{
    reveal_with_fuel(be_value, 9);
}

/// A 32-bit number is read from four bytes, the highest first.
pub proof fn lemma_number_layout(bytes: &[u8], at: usize, r: u32)
    requires
        call_ensures(take_be_u32, (bytes, at), r),
        at + 4 <= bytes@.len(),
    ensures
        r == ((bytes@[at as int] * 256 + bytes@[at + 1]) * 256 + bytes@[at + 2]) * 256 + bytes@[at
            + 3],
{
    reveal_with_fuel(be_value, 5);
}

} // verus!
