//! Primitive values of the signaling wire format, as `postcard` lays them out.
//!
//! Integers travel as little-endian base-128 varints, booleans as one byte,
//! strings as a varint byte count followed by their UTF-8 bytes. Compound
//! values are the concatenation of their parts.

use vstd::prelude::*;
use vstd::utf8::{decode_utf8, encode_utf8, valid_utf8};

verus! {

/// Why a primitive could not be read.
pub enum WireFault {
    UnexpectedEnd,
    BadVarint,
    BadBool,
    BadUtf8,
    UnknownVariant,
}

impl WireFault {
    /// The text `postcard` displays for the fault.
    pub open spec fn text(self) -> Seq<char> {
        match self {
            WireFault::UnexpectedEnd => "Hit the end of buffer, expected more data"@,
            WireFault::BadVarint =>
                "Found a varint that didn't terminate. Is the usize too big for this platform?"@,
            WireFault::BadBool => "Found a bool that wasn't 0 or 1"@,
            WireFault::BadUtf8 => "Tried to parse invalid utf-8"@,
            WireFault::UnknownVariant => "Serde Deserialization Error"@,
        }
    }
}

/// The varint that carries `n`: seven bits per byte, lowest first, the high bit
/// set on every byte but the last.
pub open spec fn varint(n: nat) -> Seq<u8>
    decreases n,
{
    if n < 128 {
        seq![n as u8]
    } else {
        seq![(128 + n % 128) as u8] + varint(n / 128)
    }
}

/// Reads the groups of a varint of at most `max_len` bytes; yields the number
/// and what follows it.
pub open spec fn read_groups(bytes: Seq<u8>, max_len: nat) -> Result<(nat, Seq<u8>), WireFault>
    decreases max_len,
{
    if max_len == 0 {
        Err(WireFault::BadVarint)
    } else if bytes.len() == 0 {
        Err(WireFault::UnexpectedEnd)
    } else if bytes[0] < 128 {
        Ok((bytes[0] as nat, bytes.skip(1)))
    } else {
        match read_groups(bytes.skip(1), (max_len - 1) as nat) {
            Ok((high, rest)) => Ok(((bytes[0] - 128) as nat + 128 * high, rest)),
            Err(fault) => Err(fault),
        }
    }
}

/// Reads a varint of an unsigned type of `bits` bits whose largest value is `max`.
pub open spec fn read_varint(bytes: Seq<u8>, bits: nat, max: nat) -> Result<
    (nat, Seq<u8>),
    WireFault,
> {
    match read_groups(bytes, (bits + 6) / 7) {
        Ok((n, rest)) => if n <= max {
            Ok((n, rest))
        } else {
            Err(WireFault::BadVarint)
        },
        Err(fault) => Err(fault),
    }
}

pub open spec fn read_u32(bytes: Seq<u8>) -> Result<(nat, Seq<u8>), WireFault> {
    read_varint(bytes, 32, u32::MAX as nat)
}

pub open spec fn read_u64(bytes: Seq<u8>) -> Result<(nat, Seq<u8>), WireFault> {
    read_varint(bytes, 64, u64::MAX as nat)
}

pub open spec fn read_usize(bytes: Seq<u8>) -> Result<(nat, Seq<u8>), WireFault> {
    read_varint(bytes, usize::BITS as nat, usize::MAX as nat)
}

/// A boolean is one byte, 0 or 1.
pub open spec fn bool_bytes(b: bool) -> Seq<u8> {
    seq![if b { 1u8 } else { 0u8 }]
}

pub open spec fn read_bool(bytes: Seq<u8>) -> Result<(bool, Seq<u8>), WireFault> {
    if bytes.len() == 0 {
        Err(WireFault::UnexpectedEnd)
    } else if bytes[0] == 0 {
        Ok((false, bytes.skip(1)))
    } else if bytes[0] == 1 {
        Ok((true, bytes.skip(1)))
    } else {
        Err(WireFault::BadBool)
    }
}

/// A string is its UTF-8 byte count, then its UTF-8 bytes.
pub open spec fn string_bytes(s: Seq<char>) -> Seq<u8> {
    varint(encode_utf8(s).len()) + encode_utf8(s)
}

pub open spec fn read_string(bytes: Seq<u8>) -> Result<(Seq<char>, Seq<u8>), WireFault> {
    match read_usize(bytes) {
        Ok((n, rest)) => if rest.len() < n {
            Err(WireFault::UnexpectedEnd)
        } else if !valid_utf8(rest.take(n as int)) {
            Err(WireFault::BadUtf8)
        } else {
            Ok((decode_utf8(rest.take(n as int)), rest.skip(n as int)))
        },
        Err(fault) => Err(fault),
    }
}

/// Calls `postcard::to_allocvec` on a `u32`: it succeeds and yields the varint.
#[verifier::external_body]
pub(crate) fn put_u32(value: u32) -> (r: Result<Vec<u8>, String>)
    ensures
        r is Ok,
        r->Ok_0@ == varint(value as nat),
{
    postcard::to_allocvec(&value).map_err(|e| format!("{e}"))
}

/// Calls `postcard::to_allocvec` on a `u64`: it succeeds and yields the varint.
#[verifier::external_body]
pub(crate) fn put_u64(value: u64) -> (r: Result<Vec<u8>, String>)
    ensures
        r is Ok,
        r->Ok_0@ == varint(value as nat),
{
    postcard::to_allocvec(&value).map_err(|e| format!("{e}"))
}

/// A count, which travels as the varint of its value.
pub(crate) fn put_usize(value: usize) -> (r: Result<Vec<u8>, String>)
    ensures
        r is Ok,
        r->Ok_0@ == varint(value as nat),
{
    put_u64(value as u64)
}

/// Calls `postcard::to_allocvec` on a `bool`: it succeeds and yields one byte.
#[verifier::external_body]
pub(crate) fn put_bool(value: bool) -> (r: Result<Vec<u8>, String>)
    ensures
        r is Ok,
        r->Ok_0@ == bool_bytes(value),
{
    postcard::to_allocvec(&value).map_err(|e| format!("{e}"))
}

/// Calls `postcard::to_allocvec` on a string slice: it succeeds and yields the
/// byte count as a varint, then the UTF-8 bytes.
#[verifier::external_body]
pub(crate) fn put_str(value: &str) -> (r: Result<Vec<u8>, String>)
    ensures
        r is Ok,
        r->Ok_0@ == string_bytes(value@),
{
    postcard::to_allocvec(value).map_err(|e| format!("{e}"))
}

/// Calls `postcard::take_from_bytes` for a `u32`: the varint at the front and
/// what follows it, or the displayed text of the fault.
#[verifier::external_body]
pub(crate) fn take_u32(bytes: &[u8]) -> (r: Result<(u32, &[u8]), String>)
    ensures
        match (r, read_u32(bytes@)) {
            (Ok((value, rest)), Ok((n, tail))) => value == n && rest@ == tail,
            (Err(text), Err(fault)) => text@ == fault.text(),
            _ => false,
        },
{
    postcard::take_from_bytes::<u32>(bytes).map_err(|e| format!("{e}"))
}

/// Calls `postcard::take_from_bytes` for a `u64`: the varint at the front and
/// what follows it, or the displayed text of the fault.
#[verifier::external_body]
pub(crate) fn take_u64(bytes: &[u8]) -> (r: Result<(u64, &[u8]), String>)
    ensures
        match (r, read_u64(bytes@)) {
            (Ok((value, rest)), Ok((n, tail))) => value == n && rest@ == tail,
            (Err(text), Err(fault)) => text@ == fault.text(),
            _ => false,
        },
{
    postcard::take_from_bytes::<u64>(bytes).map_err(|e| format!("{e}"))
}

/// Reads a count: a varint of the machine's word size.
pub(crate) fn take_usize(bytes: &[u8]) -> (r: Result<(usize, &[u8]), String>)
    ensures
        match (r, read_usize(bytes@)) {
            (Ok((value, rest)), Ok((n, tail))) => value == n && rest@ == tail,
            (Err(text), Err(fault)) => text@ == fault.text(),
            _ => false,
        },
{
    if usize::BITS == 64 {
        match take_u64(bytes) {
            Ok((value, rest)) => Ok((value as usize, rest)),
            Err(text) => Err(text),
        }
    } else {
        match take_u32(bytes) {
            Ok((value, rest)) => Ok((value as usize, rest)),
            Err(text) => Err(text),
        }
    }
}

/// Calls `postcard::take_from_bytes` for a `bool`: the byte at the front and what
/// follows it, or the displayed text of the fault.
#[verifier::external_body]
pub(crate) fn take_bool(bytes: &[u8]) -> (r: Result<(bool, &[u8]), String>)
    ensures
        match (r, read_bool(bytes@)) {
            (Ok((value, rest)), Ok((b, tail))) => value == b && rest@ == tail,
            (Err(text), Err(fault)) => text@ == fault.text(),
            _ => false,
        },
{
    postcard::take_from_bytes::<bool>(bytes).map_err(|e| format!("{e}"))
}

/// Calls `postcard::take_from_bytes` for a `String`: the counted UTF-8 text at the
/// front and what follows it, or the displayed text of the fault.
#[verifier::external_body]
pub(crate) fn take_string(bytes: &[u8]) -> (r: Result<(String, &[u8]), String>)
    ensures
        match (r, read_string(bytes@)) {
            (Ok((value, rest)), Ok((s, tail))) => value@ == s && rest@ == tail,
            (Err(text), Err(fault)) => text@ == fault.text(),
            _ => false,
        },
{
    postcard::take_from_bytes::<String>(bytes).map_err(|e| format!("{e}"))
}


/// 128 to the power `k`: how many numbers fit in `k` varint bytes.
pub open spec fn varint_room(k: nat) -> nat
    decreases k,
{
    if k == 0 {
        1
    } else {
        128 * varint_room((k - 1) as nat)
    }
}

/// Reading back a varint that fits in `max_len` bytes yields the number and
/// leaves what follows untouched.
pub proof fn lemma_groups_round_trip(n: nat, max_len: nat, rest: Seq<u8>)
    requires
        n < varint_room(max_len),
        max_len > 0,
    ensures
        read_groups(varint(n) + rest, max_len) == Ok::<(nat, Seq<u8>), WireFault>((n, rest)),
    decreases n,
{
    let bytes = varint(n) + rest;
    if n < 128 {
        assert(bytes.skip(1) =~= rest);
    } else {
        let high = n / 128;
        assert(max_len > 1) by {
            if max_len == 1 {
                assert(varint_room(1) == 128 * varint_room(0));
            }
        }
        assert(bytes.skip(1) =~= varint(high) + rest);
        lemma_groups_round_trip(high, (max_len - 1) as nat, rest);
    }
}

proof fn lemma_varint_room_values()
    ensures
        varint_room(5) == 0x8_0000_0000,
        varint_room(10) == 0x40_0000_0000_0000_0000,
{
    reveal_with_fuel(varint_room, 11);
}

pub proof fn lemma_u32_round_trip(n: u32, rest: Seq<u8>)
    ensures
        read_u32(varint(n as nat) + rest) == Ok::<(nat, Seq<u8>), WireFault>((n as nat, rest)),
{
    lemma_varint_room_values();
    lemma_groups_round_trip(n as nat, 5, rest);
}

pub proof fn lemma_u64_round_trip(n: u64, rest: Seq<u8>)
    ensures
        read_u64(varint(n as nat) + rest) == Ok::<(nat, Seq<u8>), WireFault>((n as nat, rest)),
{
    lemma_varint_room_values();
    lemma_groups_round_trip(n as nat, 10, rest);
}

pub proof fn lemma_usize_round_trip(n: usize, rest: Seq<u8>)
    ensures
        read_usize(varint(n as nat) + rest) == Ok::<(nat, Seq<u8>), WireFault>((n as nat, rest)),
{
    lemma_varint_room_values();
    if usize::BITS == 32 {
        lemma_groups_round_trip(n as nat, 5, rest);
    } else {
        assert(usize::BITS == 64);
        lemma_groups_round_trip(n as nat, 10, rest);
    }
}

pub proof fn lemma_bool_round_trip(b: bool, rest: Seq<u8>)
    ensures
        read_bool(bool_bytes(b) + rest) == Ok::<(bool, Seq<u8>), WireFault>((b, rest)),
{
    assert((bool_bytes(b) + rest).skip(1) =~= rest);
}

/// A string of at most `usize::MAX` bytes reads back as itself.
pub proof fn lemma_string_round_trip(s: Seq<char>, rest: Seq<u8>)
    requires
        encode_utf8(s).len() <= usize::MAX,
    ensures
        read_string(string_bytes(s) + rest) == Ok::<(Seq<char>, Seq<u8>), WireFault>((s, rest)),
{
    let body = encode_utf8(s);
    let after = body + rest;
    assert(string_bytes(s) + rest =~= varint(body.len()) + after);
    lemma_usize_round_trip(body.len() as usize, after);
    assert(after.take(body.len() as int) =~= body);
    assert(after.skip(body.len() as int) =~= rest);
    vstd::utf8::encode_utf8_valid_utf8(s);
    vstd::utf8::encode_utf8_decode_utf8(s);
}

} // verus!
