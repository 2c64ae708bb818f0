//! Transaction decoder: turns a hex-encoded blob into transaction bytes.
//!
//! A blob is accepted when it is a `0x`-prefixed string of hexadecimal digit
//! pairs and the decoded bytes form a well-formed transaction: a compact
//! length prefix that announces exactly the number of bytes following it.
//! Decoding is a pure function of the input; it performs no pool interaction.

use vstd::prelude::*;
use vstd::string::StringSliceAdditionalSpecFns;

verus! {

broadcast use vstd::string::is_ascii_spec_bytes;

/// Why a transaction blob failed to decode.
#[derive(Clone, Copy, Debug, PartialEq, Eq, Structural)]
pub enum DecodeError {
    /// Not a `0x`-prefixed, even-length string of hexadecimal digits.
    InvalidHex,
    /// Hex-decoded, but the bytes are not a well-formed transaction.
    MalformedTransaction,
}

/// A hexadecimal digit, in either case.
pub open spec fn is_hex_digit(c: char) -> bool {
    ('0' <= c && c <= '9') || ('a' <= c && c <= 'f') || ('A' <= c && c <= 'F')
}

/// The numeric value of a hexadecimal digit (0 for any other character).
pub open spec fn hex_digit_value(c: char) -> u8 {
    if '0' <= c && c <= '9' {
        (c as u8 - 0x30) as u8
    } else if 'a' <= c && c <= 'f' {
        (c as u8 - 0x61 + 10) as u8
    } else if 'A' <= c && c <= 'F' {
        (c as u8 - 0x41 + 10) as u8
    } else {
        0
    }
}

/// A valid hex blob: the prefix `0x` followed by an even number of
/// hexadecimal digits.
pub open spec fn hex_ok(s: Seq<char>) -> bool {
    &&& s.len() >= 2
    &&& s[0] == '0'
    &&& s[1] == 'x'
    &&& s.len() % 2 == 0
    &&& forall|i: int| 2 <= i < s.len() ==> is_hex_digit(#[trigger] s[i])
}

/// The bytes a valid hex blob denotes: one byte per digit pair after the
/// prefix.
pub open spec fn hex_bytes_of(s: Seq<char>) -> Seq<u8> {
    Seq::new(
        ((s.len() - 2) / 2) as nat,
        |k: int| (16 * hex_digit_value(s[2 + 2 * k]) + hex_digit_value(s[2 + 2 * k + 1])) as u8,
    )
}

/// [`is_hex_digit`], on the byte of an ASCII character.
pub open spec fn is_hex_digit_byte(b: u8) -> bool {
    (0x30 <= b && b <= 0x39) || (0x61 <= b && b <= 0x66) || (0x41 <= b && b <= 0x46)
}

/// [`hex_digit_value`], on the byte of an ASCII character.
pub open spec fn hex_digit_value_byte(b: u8) -> u8 {
    if 0x30 <= b && b <= 0x39 {
        (b - 0x30) as u8
    } else if 0x61 <= b && b <= 0x66 {
        (b - 0x61 + 10) as u8
    } else if 0x41 <= b && b <= 0x46 {
        (b - 0x41 + 10) as u8
    } else {
        0
    }
}

/// The byte-level and the character-level readings of a hex digit agree on
/// ASCII characters.
proof fn lemma_hex_digit_byte_char(c: char)
    requires
        c <= '\u{7f}',
    ensures
        is_hex_digit_byte(c as u8) == is_hex_digit(c),
        hex_digit_value_byte(c as u8) == hex_digit_value(c),
{
}

/// The numeric value of an ASCII hexadecimal digit given as its byte,
/// `None` for any other byte.
fn hex_digit_value_of_byte(b: u8) -> (r: Option<u8>)
    ensures
        r is Some <==> is_hex_digit_byte(b),
        r matches Some(v) ==> v == hex_digit_value_byte(b) && v < 16,
{
    if 0x30 <= b && b <= 0x39 {
        Some(b - 0x30)
    } else if 0x61 <= b && b <= 0x66 {
        Some(b - 0x61 + 10)
    } else if 0x41 <= b && b <= 0x46 {
        Some(b - 0x41 + 10)
    } else {
        None
    }
}

/// Decode a `0x`-prefixed hex string into its bytes. Returns `InvalidHex`
/// exactly on the blobs that [`hex_ok`] rejects.
pub fn decode_hex(s: &str) -> (r: Result<Vec<u8>, DecodeError>)
    ensures
        r is Ok <==> hex_ok(s@),
        r matches Ok(bytes) ==> bytes@ == hex_bytes_of(s@),
        r is Err ==> r == Err::<Vec<u8>, DecodeError>(DecodeError::InvalidHex),
{
    if !s.is_ascii() {
        proof {
            // A non-ASCII character can be neither the prefix nor a digit.
            assert(!hex_ok(s@)) by {
                if hex_ok(s@) {
                    assert forall|i| 0 <= i < s@.len() implies '\0' <= #[trigger] s@[i]
                        <= '\u{7f}' by {
                        if i >= 2 {
                            assert(is_hex_digit(s@[i]));
                        }
                    }
                }
            }
        }
        return Err(DecodeError::InvalidHex);
    }
    let b: &[u8] = s.as_bytes();
    let n: usize = b.len();
    if n < 2 || n % 2 != 0 {
        return Err(DecodeError::InvalidHex);
    }
    let b0: u8 = b[0];
    let b1: u8 = b[1];
    if b0 != 0x30 || b1 != 0x78 {
        proof {
            assert(s@[0] as u8 == b@[0] && s@[1] as u8 == b@[1]);
            assert(s@[0] == '0' ==> b@[0] == 0x30);
            assert(s@[1] == 'x' ==> b@[1] == 0x78);
        }
        return Err(DecodeError::InvalidHex);
    }
    assert(s@[0] == '0' && s@[1] == 'x');
    let mut out: Vec<u8> = Vec::new();
    let mut i: usize = 2;
    while i < n
        invariant
            s.is_ascii(),
            b@ == s.spec_bytes(),
            n == b@.len(),
            n == s@.len(),
            n % 2 == 0,
            2 <= i <= n,
            i % 2 == 0,
            forall|j: int| 2 <= j < i ==> is_hex_digit(#[trigger] s@[j]),
            out@.len() == (i - 2) / 2,
            forall|k: int| 0 <= k < out@.len() ==> out@[k] == (16 * hex_digit_value(
                s@[2 + 2 * k],
            ) + hex_digit_value(s@[2 + 2 * k + 1])) as u8,
        decreases n - i,
    {
        proof {
            lemma_hex_digit_byte_char(s@[i as int]);
            lemma_hex_digit_byte_char(s@[i + 1]);
        }
        let hi = match hex_digit_value_of_byte(b[i]) {
            Some(v) => v,
            None => {
                assert(!is_hex_digit(s@[i as int]));
                return Err(DecodeError::InvalidHex);
            },
        };
        let lo = match hex_digit_value_of_byte(b[i + 1]) {
            Some(v) => v,
            None => {
                assert(!is_hex_digit(s@[i + 1]));
                return Err(DecodeError::InvalidHex);
            },
        };
        out.push(16 * hi + lo);
        i = i + 2;
    }
    assert(out@ =~= hex_bytes_of(s@));
    Ok(out)
}

/// The value of a little-endian byte sequence.
pub open spec fn le_value(b: Seq<u8>) -> nat
    decreases b.len(),
{
    if b.len() == 0 {
        0
    } else {
        (b[0] + 256 * le_value(b.subrange(1, b.len() as int))) as nat
    }
}

/// The compact length prefix of a transaction blob: the number of header
/// bytes and the payload length they announce, or `None` when the blob is too
/// short to hold the header its first byte selects. The two low bits of the
/// first byte select the header width; the remaining bits, together with any
/// further header bytes read little-endian, carry the length.
pub open spec fn compact_prefix(b: Seq<u8>) -> Option<(int, int)> {
    if b.len() == 0 {
        None
    } else if b[0] % 4 == 0 {
        Some((1int, b[0] as int / 4))
    } else if b[0] % 4 == 1 {
        if b.len() >= 2 {
            Some((2int, (b[0] + 256 * b[1]) / 4))
        } else {
            None
        }
    } else if b[0] % 4 == 2 {
        if b.len() >= 4 {
            Some((4int, (b[0] + 256 * b[1] + 65536 * b[2] + 16777216 * b[3]) / 4))
        } else {
            None
        }
    } else {
        let extra = b[0] / 4 + 4;
        if b.len() >= 1 + extra {
            Some((1 + extra, le_value(b.subrange(1, 1 + extra)) as int))
        } else {
            None
        }
    }
}

/// A well-formed transaction blob: a compact length prefix announcing exactly
/// the number of bytes that follow it.
pub open spec fn framing_ok(b: Seq<u8>) -> bool {
    compact_prefix(b) matches Some((h, n)) && b.len() == h + n
}

/// A little-endian byte sequence equals `v` exactly when its first byte is
/// the low byte of `v` and the rest equals `v / 256`.
proof fn lemma_le_value_step(b: Seq<u8>, v: nat)
    requires
        b.len() >= 1,
    ensures
        le_value(b) == v <==> (b[0] == v % 256 && le_value(b.subrange(1, b.len() as int)) == v
            / 256),
{
    let rest = le_value(b.subrange(1, b.len() as int));
    assert(le_value(b) == b[0] + 256 * rest);
    if b[0] == v % 256 && rest == v / 256 {
        assert(v == 256 * (v / 256) + v % 256) by (nonlinear_arith);
    }
    if le_value(b) == v {
        assert(b[0] == v % 256 && rest == v / 256) by (nonlinear_arith)
            requires
                v == b[0] + 256 * rest,
                0 <= b[0] < 256,
        ;
    }
}

/// Whether the byte region `b[from..to]`, read little-endian, equals `v`.
fn le_region_equals(b: &[u8], from: usize, to: usize, v: usize) -> (r: bool)
    requires
        from <= to <= b@.len(),
    ensures
        r == (le_value(b@.subrange(from as int, to as int)) == v),
{
    let mut rem: usize = v;
    let mut j: usize = from;
    while j < to
        invariant
            from <= j <= to <= b@.len(),
            (le_value(b@.subrange(from as int, to as int)) == v) == (le_value(
                b@.subrange(j as int, to as int),
            ) == rem),
        decreases to - j,
    {
        let ghost before = b@.subrange(j as int, to as int);
        proof {
            lemma_le_value_step(before, rem as nat);
            assert(before.subrange(1, before.len() as int) =~= b@.subrange(j + 1, to as int));
        }
        if b[j] != (rem % 256) as u8 {
            return false;
        }
        rem = rem / 256;
        j = j + 1;
    }
    assert(b@.subrange(to as int, to as int) =~= Seq::<u8>::empty());
    rem == 0
}

/// Whether the bytes form a well-formed, length-framed transaction.
pub fn check_framing(b: &[u8]) -> (r: bool)
    ensures
        r == framing_ok(b@),
{
    let n: usize = b.len();
    if n == 0 {
        return false;
    }
    let first: u8 = b[0];
    let mode: u8 = first % 4;
    if mode == 0 {
        let announced: usize = (first / 4) as usize;
        n - 1 == announced
    } else if mode == 1 {
        if n < 2 {
            return false;
        }
        let raw: u32 = first as u32 + 256 * (b[1] as u32);
        let announced: u32 = raw / 4;
        n >= 2 && (n - 2) as u64 == announced as u64
    } else if mode == 2 {
        if n < 4 {
            return false;
        }
        let raw: u64 = first as u64 + 256 * (b[1] as u64) + 65536 * (b[2] as u64) + 16777216 * (
        b[3] as u64);
        let announced: u64 = raw / 4;
        (n - 4) as u64 == announced
    } else {
        let extra: usize = (first / 4) as usize + 4;
        if n < 1 + extra {
            return false;
        }
        le_region_equals(b, 1, 1 + extra, n - 1 - extra)
    }
}

/// The blobs the decoder accepts: valid hex whose bytes are a well-formed
/// transaction.
pub open spec fn decodes(s: Seq<char>) -> bool {
    hex_ok(s) && framing_ok(hex_bytes_of(s))
}

/// Decode a hex-encoded transaction blob into its transaction bytes.
/// Succeeds exactly on the blobs that [`decodes`] accepts; distinguishes a
/// hex error from a framing error.
pub fn decode_transaction(s: &str) -> (r: Result<Vec<u8>, DecodeError>)
    ensures
        r is Ok <==> decodes(s@),
        r matches Ok(bytes) ==> bytes@ == hex_bytes_of(s@) && framing_ok(bytes@),
        !hex_ok(s@) ==> r == Err::<Vec<u8>, DecodeError>(DecodeError::InvalidHex),
        hex_ok(s@) && !framing_ok(hex_bytes_of(s@)) ==> r == Err::<Vec<u8>, DecodeError>(
            DecodeError::MalformedTransaction,
        ),
{
    let bytes = match decode_hex(s) {
        Ok(bytes) => bytes,
        Err(e) => {
            return Err(e);
        },
    };
    if check_framing(bytes.as_slice()) {
        Ok(bytes)
    } else {
        Err(DecodeError::MalformedTransaction)
    }
}

} // verus!
