//! Hexadecimal text and SHA-256 fingerprints.

use vstd::prelude::*;
use vstd::string::*;
use vstd::utf8::encode_utf8;

verus! {

/// The lower-case digit of a number below sixteen.
pub open spec fn hex_char(d: int) -> char {
    if d < 10 {
        (48 + d) as char
    } else {
        (87 + d) as char
    }
}

/// Bytes as text: two lower-case digits each, the high one first.
pub open spec fn hex_of(bytes: Seq<u8>) -> Seq<char> {
    Seq::new(
        2 * bytes.len(),
        |i: int|
            hex_char(
                if i % 2 == 0 {
                    bytes[i / 2] as int / 16
                } else {
                    bytes[i / 2] as int % 16
                },
            ),
    )
}

fn hex_digit(d: u8) -> (r: char)
    requires
        d < 16,
    ensures
        r == hex_char(d as int),
{
    match d {
        0 => '0',
        1 => '1',
        2 => '2',
        3 => '3',
        4 => '4',
        5 => '5',
        6 => '6',
        7 => '7',
        8 => '8',
        9 => '9',
        10 => 'a',
        11 => 'b',
        12 => 'c',
        13 => 'd',
        14 => 'e',
        _ => 'f',
    }
}

pub fn hex_text(bytes: &[u8]) -> (r: String)
    ensures
        r@ == hex_of(bytes@),
{
    let mut out = String::new();
    let mut i: usize = 0;
    assert(out@ =~= hex_of(bytes@.take(0)));
    while i < bytes.len()
        invariant
            i <= bytes@.len(),
            out@ == hex_of(bytes@.take(i as int)),
        decreases bytes@.len() - i,
    {
        let b: u8 = bytes[i];
        out.push(hex_digit(b / 16));
        out.push(hex_digit(b % 16));
        assert(out@ =~= hex_of(bytes@.take(i + 1)));
        i = i + 1;
    }
    assert(bytes@.take(bytes@.len() as int) =~= bytes@);
    out
}

/// The number that a byte denotes as a digit of either case.
pub open spec fn hex_value(b: u8) -> Option<u8> {
    if 48 <= b <= 57 {
        Some((b - 48) as u8)
    } else if 97 <= b <= 102 {
        Some((b - 87) as u8)
    } else if 65 <= b <= 70 {
        Some((b - 55) as u8)
    } else {
        None
    }
}

/// The byte that a pair of characters denotes: two digits, or a plus sign and one.
pub open spec fn pair_value(a: u8, b: u8) -> Option<u8> {
    match (hex_value(a), hex_value(b)) {
        (Some(high), Some(low)) => Some((16 * high + low) as u8),
        (None, Some(low)) => if a == 43 {
            Some(low)
        } else {
            None
        },
        _ => None,
    }
}

/// What reading a text pair by pair comes to.
pub enum HexScan {
    Bytes { bytes: Seq<u8> },
    /// A pair that is no number.
    Invalid,
    /// A pair that ends inside a character.
    Split,
}

/// Reads UTF-8 bytes two at a time, up to the first pair that fails.
pub open spec fn scan_hex(text: Seq<u8>) -> HexScan
    decreases text.len(),
{
    if text.len() < 2 {
        HexScan::Bytes { bytes: seq![] }
    } else if text.len() > 2 && 0x80 <= text[2] < 0xc0 {
        HexScan::Split
    } else {
        match pair_value(text[0], text[1]) {
            None => HexScan::Invalid,
            Some(v) => match scan_hex(text.skip(2)) {
                HexScan::Bytes { bytes } => HexScan::Bytes { bytes: seq![v] + bytes },
                other => other,
            },
        }
    }
}

/// Whether the pairs of a text, up to the first that is no number, fall between
/// its characters.
pub open spec fn pairs_up(s: Seq<char>) -> bool {
    encode_utf8(s).len() % 2 == 0 ==> !(scan_hex(encode_utf8(s)) is Split)
}

fn digit_value(b: u8) -> (r: Option<u8>)
    ensures
        r == hex_value(b),
{
    if 48 <= b && b <= 57 {
        Some(b - 48)
    } else if 97 <= b && b <= 102 {
        Some(b - 87)
    } else if 65 <= b && b <= 70 {
        Some(b - 55)
    } else {
        None
    }
}

fn pair(a: u8, b: u8) -> (r: Option<u8>)
    ensures
        r == pair_value(a, b),
{
    let low: u8 = match digit_value(b) {
        Some(low) => low,
        None => {
            return None;
        },
    };
    match digit_value(a) {
        Some(high) => Some(16 * high + low),
        None => {
            if a == 43 {
                Some(low)
            } else {
                None
            }
        },
    }
}

/// What came of a scan.
enum Scanned {
    Bytes(Vec<u8>),
    Invalid,
    Split,
}

fn scan(text: &[u8]) -> (r: Scanned)
    ensures
        match (r, scan_hex(text@)) {
            (Scanned::Bytes(v), HexScan::Bytes { bytes }) => v@ == bytes,
            (Scanned::Invalid, HexScan::Invalid) => true,
            (Scanned::Split, HexScan::Split) => true,
            _ => false,
        },
{
    let mut out: Vec<u8> = Vec::new();
    let mut i: usize = 0;
    let end: usize = text.len();
    assert(text@.skip(0) =~= text@);
    while end - i >= 2
        invariant
            i <= end == text@.len(),
            match scan_hex(text@.skip(i as int)) {
                HexScan::Bytes { bytes } => scan_hex(text@) == (HexScan::Bytes {
                    bytes: out@ + bytes,
                }),
                other => scan_hex(text@) == other,
            },
        decreases end - i,
    {
        let ghost rest = text@.skip(i as int);
        assert(rest.skip(2) =~= text@.skip(i + 2));
        if end - i > 2 && 0x80 <= text[i + 2] && text[i + 2] < 0xc0 {
            assert(rest[2] == text@[i + 2]);
            return Scanned::Split;
        }
        assert(rest.len() > 2 ==> rest[2] == text@[i + 2]);
        assert(rest[0] == text@[i as int] && rest[1] == text@[i + 1]);
        let ghost before = out@;
        match pair(text[i], text[i + 1]) {
            Some(v) => {
                out.push(v);
                assert forall|tail: Seq<u8>| before + (seq![v] + tail) == #[trigger] (out@
                    + tail) by {
                    assert(before + (seq![v] + tail) =~= out@ + tail);
                }
            },
            None => {
                return Scanned::Invalid;
            },
        }
        i = i + 2;
    }
    assert(out@ + Seq::<u8>::empty() =~= out@);
    Scanned::Bytes(out)
}

/// Whether [`decode_hex`] can read a text.
pub fn is_paired(s: &str) -> (r: bool)
    ensures
        r == pairs_up(s@),
{
    let text = s.as_bytes();
    if text.len() % 2 != 0 {
        return true;
    }
    match scan(text) {
        Scanned::Split => false,
        _ => true,
    }
}

/// Reads bytes from hexadecimal text.
pub fn decode_hex(s: &str) -> (r: Result<Vec<u8>, &'static str>)
    requires
        pairs_up(s@),
    ensures
        ({
            let text = encode_utf8(s@);
            match r {
                Ok(v) => text.len() % 2 == 0 && scan_hex(text) == (HexScan::Bytes { bytes: v@ }),
                Err(why) => {
                    ||| text.len() % 2 != 0 && why@ == "hex string must have even length"@
                    ||| text.len() % 2 == 0 && scan_hex(text) is Invalid && why@
                        == "invalid digit found in string"@
                },
            }
        }),
{
    let text = s.as_bytes();
    if text.len() % 2 != 0 {
        return Err("hex string must have even length");
    }
    match scan(text) {
        Scanned::Bytes(bytes) => Ok(bytes),
        _ => Err("invalid digit found in string"),
    }
}

/// The most bytes that SHA-256 takes: their bits are counted in 64 bits.
pub const MAX_DIGEST_INPUT: u64 = 0x1fff_ffff_ffff_ffff;

/// The SHA-256 digest of some bytes.
pub uninterp spec fn sha256_of(data: Seq<u8>) -> Seq<u8>;

/// Calls `ring::digest::digest` with `SHA256`: the digest of the input, which is
/// 32 bytes long. It panics on longer input than the algorithm is defined for.
#[verifier::external_body]
pub(crate) fn sha256(data: &[u8]) -> (r: Vec<u8>)
    requires
        data@.len() <= MAX_DIGEST_INPUT,
    ensures
        r@ == sha256_of(data@),
        r@.len() == 32,
{
    ring::digest::digest(&ring::digest::SHA256, data).as_ref().to_vec()
}

/// A digit, or one of the letters `a` to `f`.
pub open spec fn is_lower_hex(c: char) -> bool {
    '0' <= c <= '9' || 'a' <= c <= 'f'
}

/// Whether a text has the form of a fingerprint: 64 lower-case digits.
pub open spec fn is_fingerprint(s: Seq<char>) -> bool {
    &&& s.len() == 64
    &&& forall|i: int| 0 <= i < s.len() ==> is_lower_hex(#[trigger] s[i])
}

/// The fingerprint of a certificate: the hexadecimal SHA-256 digest of its DER form.
pub fn fingerprint(cert_der: &[u8]) -> (r: String)
    requires
        cert_der@.len() <= MAX_DIGEST_INPUT,
    ensures
        r@ == hex_of(sha256_of(cert_der@)),
        is_fingerprint(r@),
{
    let digest = sha256(cert_der);
    proof {
        lemma_hex_is_lower_case_digits(digest@);
    }
    hex_text(digest.as_slice())
}

// ---------------------------------------------------------------------------
// Laws
// ---------------------------------------------------------------------------

/// The digits as bytes.
spec fn hex_bytes(bytes: Seq<u8>) -> Seq<u8> {
    Seq::new(hex_of(bytes).len(), |i: int| hex_of(bytes)[i] as u8)
}

proof fn lemma_scan_reads_digits(bytes: Seq<u8>)
    ensures
        scan_hex(hex_bytes(bytes)) == (HexScan::Bytes { bytes }),
    decreases bytes.len(),
{
    let text = hex_bytes(bytes);
    if bytes.len() == 0 {
        assert(bytes =~= Seq::<u8>::empty());
    } else {
        let rest = bytes.skip(1);
        lemma_scan_reads_digits(rest);
        assert(text.skip(2) =~= hex_bytes(rest)) by {
            assert forall|i: int| 0 <= i < text.skip(2).len() implies text.skip(2)[i]
                == hex_bytes(rest)[i] by {
                assert((i + 2) / 2 == i / 2 + 1);
                assert((i + 2) % 2 == i % 2);
                assert(rest[i / 2] == bytes[i / 2 + 1]);
            }
        }
        let b = bytes[0];
        assert(text[0] == hex_char(b as int / 16) as u8);
        assert(text[1] == hex_char(b as int % 16) as u8);
        assert(hex_value(text[0]) == Some((b / 16) as u8));
        assert(hex_value(text[1]) == Some((b % 16) as u8));
        assert(pair_value(text[0], text[1]) == Some(b));
        if text.len() > 2 {
            assert(text[2] == hex_char(bytes[1] as int / 16) as u8);
        }
        assert(seq![b] + rest =~= bytes);
    }
}

proof fn lemma_digits_are_ascii(bytes: Seq<u8>)
    ensures
        encode_utf8(hex_of(bytes)) == hex_bytes(bytes),
{
    let s = hex_of(bytes);
    assert(vstd::utf8::is_ascii_chars(s)) by {
        assert forall|i: int| 0 <= i < s.len() implies '\0' <= #[trigger] s[i] <= '\u{7f}' by {}
    }
    vstd::utf8::is_ascii_chars_encode_utf8(s);
    assert(encode_utf8(s) =~= hex_bytes(bytes));
}

/// A fingerprint's alphabet: hexadecimal text has two characters for each byte,
/// and each is a digit or one of the letters `a` to `f`.
pub proof fn lemma_hex_is_lower_case_digits(bytes: Seq<u8>)
    ensures
        hex_of(bytes).len() == 2 * bytes.len(),
        forall|i: int| 0 <= i < hex_of(bytes).len() ==> is_lower_hex(#[trigger] hex_of(bytes)[i]),
{
    assert forall|i: int| 0 <= i < hex_of(bytes).len() implies is_lower_hex(
        #[trigger] hex_of(bytes)[i],
    ) by {
        let b = bytes[i / 2];
        assert(0 <= b as int / 16 < 16);
    }
}

/// Bytes written in hexadecimal are read back as they were.
pub proof fn lemma_hex_round_trip(bytes: Seq<u8>)
    ensures
        pairs_up(hex_of(bytes)),
        encode_utf8(hex_of(bytes)).len() == 2 * bytes.len(),
        scan_hex(encode_utf8(hex_of(bytes))) == (HexScan::Bytes { bytes }),
{
    lemma_digits_are_ascii(bytes);
    lemma_scan_reads_digits(bytes);
}

// ---------------------------------------------------------------------------
// Laws, said of the calls
// ---------------------------------------------------------------------------

/// A character is the lower-case digit of a number below sixteen.
pub open spec fn is_digit_of(c: char, v: int) -> bool {
    ||| 0 <= v < 10 && c as int == 48 + v
    ||| 10 <= v < 16 && c as int == 87 + v
}

/// A character is a digit, of either case, for a number below sixteen.
pub open spec fn stands_for(c: char, v: int) -> bool {
    ||| is_digit_of(c, v)
    ||| 10 <= v < 16 && c as int == 55 + v
}

/// Each byte is written as two digits, the high one first.
pub proof fn lemma_two_digits_a_byte(bytes: &[u8], r: String, i: int)
    requires
        call_ensures(hex_text, (bytes,), r),
        0 <= i < bytes@.len(),
    ensures
        r@.len() == 2 * bytes@.len(),
        is_digit_of(r@[2 * i], bytes@[i] as int / 16),
        is_digit_of(r@[2 * i + 1], bytes@[i] as int % 16),
{
    assert((2 * i) / 2 == i && (2 * i) % 2 == 0);
    assert((2 * i + 1) / 2 == i && (2 * i + 1) % 2 == 1);
}

proof fn lemma_ascii_bytes(s: Seq<char>)
    requires
        forall|i: int| 0 <= i < s.len() ==> '\0' <= #[trigger] s[i] <= '\u{7f}',
    ensures
        encode_utf8(s).len() == s.len(),
        forall|i: int| 0 <= i < s.len() ==> #[trigger] encode_utf8(s)[i] == s[i] as u8,
{
    assert(vstd::utf8::is_ascii_chars(s)) by {
        assert forall|i: int| 0 <= i < s.len() implies '\0' <= #[trigger] s[i] <= '\u{7f}' by {}
    }
    vstd::utf8::is_ascii_chars_encode_utf8(s);
}

/// A fingerprint is the digest of the certificate, written in hexadecimal.
pub proof fn lemma_fingerprint_is_the_digest(cert_der: &[u8], r: String, digest: &[u8], text: String)
    requires
        call_ensures(fingerprint, (cert_der,), r),
        call_ensures(hex_text, (digest,), text),
        cert_der@.len() <= MAX_DIGEST_INPUT,
    ensures
        digest@ == sha256_of(cert_der@) ==> r@ == text@,
        r@.len() == 64,
{
}
/// A character is a digit of either case.
pub open spec fn is_digit(c: char) -> bool {
    exists|v: int| #[trigger] stands_for(c, v)
}

/// A text is hexadecimal if its characters come in pairs of a first one, which is a
/// digit or a plus sign, and a second one, which is a digit.
pub open spec fn is_hexadecimal(s: Seq<char>) -> bool {
    &&& s.len() % 2 == 0
    &&& forall|j: int|
        0 <= j < s.len() ==> is_digit(#[trigger] s[j]) || (j % 2 == 0 && s[j]
            == '+')
}

proof fn lemma_char_number(c: char)
    ensures
        '\0' <= c,
        c > '\u{7f}' ==> c as u32 > 0x7f,
{
}

/// Some byte of a text that is not ASCII is above the ASCII range.
proof fn lemma_foreign_byte(s: Seq<char>, i: int) -> (j: int)
    requires
        0 <= i < s.len(),
        s[i] > '\u{7f}',
    ensures
        0 <= j < encode_utf8(s).len(),
        encode_utf8(s)[j] > 0x7f,
    decreases i,
{
    vstd::utf8::encode_utf8_first_scalar(s);
    let head = vstd::utf8::encode_scalar(s[0] as u32);
    if i == 0 {
        lemma_char_number(s[0]);
        assert(encode_utf8(s)[0] == head[0]);
        0
    } else {
        let rest = s.drop_first();
        assert(rest[i - 1] == s[i]);
        let j = lemma_foreign_byte(rest, i - 1);
        assert(encode_utf8(s)[head.len() + j] == encode_utf8(rest)[j]);
        head.len() + j
    }
}

proof fn lemma_scan_reads_pairs(text: Seq<u8>, i: int)
    requires
        scan_hex(text) is Bytes,
        text.len() % 2 == 0,
        0 <= i < text.len() / 2,
    ensures
        pair_value(text[2 * i], text[2 * i + 1]) is Some,
        i < scan_hex(text)->bytes.len(),
        scan_hex(text)->bytes[i] == pair_value(text[2 * i], text[2 * i + 1])->Some_0,
    decreases text.len(),
{
    let rest = text.skip(2);
    if i > 0 {
        lemma_scan_reads_pairs(rest, i - 1);
        assert(rest[2 * (i - 1)] == text[2 * i]);
        assert(rest[2 * (i - 1) + 1] == text[2 * i + 1]);
    }
}

proof fn lemma_scan_accepts(text: Seq<u8>)
    requires
        text.len() % 2 == 0,
        forall|j: int| 0 <= j < text.len() ==> #[trigger] text[j] <= 0x7f,
        forall|i: int|
            0 <= i < text.len() / 2 ==> pair_value(#[trigger] text[2 * i], text[2 * i + 1]) is Some,
    ensures
        scan_hex(text) is Bytes,
        scan_hex(text)->bytes.len() == text.len() / 2,
    decreases text.len(),
{
    if text.len() >= 2 {
        let rest = text.skip(2);
        let first = 0int;
        assert(text[2 * first] == text[0] && text[2 * first + 1] == text[1]);
        assert forall|i: int| 0 <= i < rest.len() / 2 implies pair_value(
            #[trigger] rest[2 * i],
            rest[2 * i + 1],
        ) is Some by {
            assert(rest[2 * i] == text[2 * (i + 1)]);
            assert(rest[2 * i + 1] == text[2 * (i + 1) + 1]);
        }
        lemma_scan_accepts(rest);
    }
}

/// A text is read exactly if it is hexadecimal; it gives one byte for each pair.
pub proof fn lemma_only_hexadecimal_is_read(s: &str, r: Result<Vec<u8>, &'static str>)
    requires
        call_ensures(decode_hex, (s,), r),
    ensures
        r is Ok <==> is_hexadecimal(s@),
        r is Ok ==> 2 * r->Ok_0@.len() == s@.len(),
        r is Err ==> r->Err_0@ == (if encode_utf8(s@).len() % 2 != 0 {
            "hex string must have even length"@
        } else {
            "invalid digit found in string"@
        }),
{
    let text = encode_utf8(s@);
    if is_hexadecimal(s@) {
        assert forall|j: int| 0 <= j < s@.len() implies '\0' <= #[trigger] s@[j] <= '\u{7f}' by {
            assert(is_digit(s@[j]) || s@[j] == '+');
        }
        lemma_ascii_bytes(s@);
        assert forall|i: int| 0 <= i < text.len() / 2 implies pair_value(
            #[trigger] text[2 * i],
            text[2 * i + 1],
        ) is Some by {
            assert(text[2 * i] == s@[2 * i] as u8);
            assert(text[2 * i + 1] == s@[2 * i + 1] as u8);
            assert((2 * i + 1) % 2 == 1);
            assert(is_digit(s@[2 * i]) || s@[2 * i] == '+');
            assert(is_digit(s@[2 * i + 1]));
        }
        assert forall|j: int| 0 <= j < text.len() implies #[trigger] text[j] <= 0x7f by {
            assert(text[j] == s@[j] as u8);
        }
        lemma_scan_accepts(text);
    }
    if r is Ok {
        assert forall|j: int| 0 <= j < text.len() implies #[trigger] text[j] <= 0x7f && (hex_value(
            text[j],
        ) is Some || (j % 2 == 0 && text[j] == 43)) by {
            lemma_scan_reads_pairs(text, j / 2);
        }
        assert forall|j: int| 0 <= j < s@.len() implies '\0' <= #[trigger] s@[j] <= '\u{7f}' by {
            lemma_char_number(s@[j]);
            if s@[j] > '\u{7f}' {
                let k = lemma_foreign_byte(s@, j);
                assert(text[k] <= 0x7f);
            }
        }
        lemma_ascii_bytes(s@);
        assert forall|j: int| 0 <= j < s@.len() implies is_digit(
            #[trigger] s@[j],
        ) || (j % 2 == 0 && s@[j] == '+') by {
            assert(text[j] == s@[j] as u8);
            if hex_value(text[j]) is Some {
                assert(stands_for(s@[j], hex_value(text[j])->Some_0 as int));
            }
        }
    }
}

/// Two digits, of either case, are read as one byte, the high one first.
pub proof fn lemma_digits_are_read_in_pairs(
    s: &str,
    r: Result<Vec<u8>, &'static str>,
    i: int,
    high: int,
    low: int,
)
    requires
        call_ensures(decode_hex, (s,), r),
        is_hexadecimal(s@),
        0 <= i < s@.len() / 2,
        stands_for(s@[2 * i], high),
        stands_for(s@[2 * i + 1], low),
    ensures
        r is Ok,
        r->Ok_0@[i] == 16 * high + low,
{
    lemma_only_hexadecimal_is_read(s, r);
    assert forall|j: int| 0 <= j < s@.len() implies '\0' <= #[trigger] s@[j] <= '\u{7f}' by {
        assert(is_digit(s@[j]) || s@[j] == '+');
    }
    lemma_ascii_bytes(s@);
    let text = encode_utf8(s@);
    lemma_scan_reads_pairs(text, i);
    assert(text[2 * i] == s@[2 * i] as u8);
    assert(text[2 * i + 1] == s@[2 * i + 1] as u8);
}

/// A plus sign before a digit counts for nothing.
pub proof fn lemma_plus_sign_counts_for_nothing(
    s: &str,
    r: Result<Vec<u8>, &'static str>,
    i: int,
    low: int,
)
    requires
        call_ensures(decode_hex, (s,), r),
        is_hexadecimal(s@),
        0 <= i < s@.len() / 2,
        s@[2 * i] == '+',
        stands_for(s@[2 * i + 1], low),
    ensures
        r->Ok_0@[i] == low,
{
    lemma_only_hexadecimal_is_read(s, r);
    assert forall|j: int| 0 <= j < s@.len() implies '\0' <= #[trigger] s@[j] <= '\u{7f}' by {
        assert(is_digit(s@[j]) || s@[j] == '+');
    }
    lemma_ascii_bytes(s@);
    let text = encode_utf8(s@);
    lemma_scan_reads_pairs(text, i);
    assert(text[2 * i] == s@[2 * i] as u8);
    assert(text[2 * i + 1] == s@[2 * i + 1] as u8);
}

/// Every ASCII text can be handed to [`decode_hex`].
pub proof fn lemma_ascii_is_paired(s: &str, r: bool)
    requires
        call_ensures(is_paired, (s,), r),
        forall|j: int| 0 <= j < s@.len() ==> '\0' <= #[trigger] s@[j] <= '\u{7f}',
    ensures
        r,
{
    lemma_ascii_bytes(s@);
    let text = encode_utf8(s@);
    assert forall|j: int| 0 <= j < text.len() implies #[trigger] text[j] <= 0x7f by {
        assert(text[j] == s@[j] as u8);
    }
    lemma_ascii_never_splits(text);
}

proof fn lemma_ascii_never_splits(text: Seq<u8>)
    requires
        forall|j: int| 0 <= j < text.len() ==> #[trigger] text[j] <= 0x7f,
    ensures
        !(scan_hex(text) is Split),
    decreases text.len(),
{
    if text.len() >= 2 {
        lemma_ascii_never_splits(text.skip(2));
    }
}

} // verus!
