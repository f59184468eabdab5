//! Decoding of hexadecimal strings into bytes.
use crate::text::to_chars;
use vstd::prelude::*;

verus! {

/// Why a string is not a hexadecimal encoding of bytes.
#[derive(Debug, Clone, Copy, PartialEq, Eq, Structural)]
pub enum HexError {
    /// The string has an odd number of characters.
    OddLength,
    /// A character is not one of `0-9`, `a-f`, `A-F`.
    InvalidDigit,
}

/// Whether a character is one of `0-9`, `A-F`, `a-f`.
pub open spec fn is_hex_digit(c: char) -> bool {
    let n = c as u32;
    (0x30 <= n <= 0x39) || (0x41 <= n <= 0x46) || (0x61 <= n <= 0x66)
}

/// The value, 0 to 15, of a hexadecimal digit.
pub open spec fn hex_value(c: char) -> nat {
    let n = c as u32;
    if 0x30 <= n <= 0x39 {
        (n - 0x30) as nat
    } else if 0x41 <= n <= 0x46 {
        (n - 0x41 + 10) as nat
    } else {
        (n - 0x61 + 10) as nat
    }
}

/// Whether every character is a hexadecimal digit.
pub open spec fn all_hex(s: Seq<char>) -> bool {
    forall|i: int| 0 <= i < s.len() ==> is_hex_digit(#[trigger] s[i])
}

/// The byte that the `i`-th pair of digits of `s` encodes, high digit first.
pub open spec fn hex_byte_at(s: Seq<char>, i: int) -> u8 {
    (hex_value(s[2 * i]) * 16 + hex_value(s[2 * i + 1])) as u8
}

/// The bytes that `s` encodes, two digits to a byte.
pub open spec fn hex_bytes(s: Seq<char>) -> Seq<u8> {
    Seq::new(s.len() / 2, |i: int| hex_byte_at(s, i))
}

/// What decoding `s` gives: its bytes, or the reason why it has none.
pub open spec fn hex_decoded(s: Seq<char>) -> Result<Seq<u8>, HexError> {
    if s.len() % 2 != 0 {
        Err(HexError::OddLength)
    } else if !all_hex(s) {
        Err(HexError::InvalidDigit)
    } else {
        Ok(hex_bytes(s))
    }
}

fn hex_digit(c: char) -> (r: Option<u8>)
    ensures
        r is Some <==> is_hex_digit(c),
        r matches Some(v) ==> v == hex_value(c) && v < 16,
{
    let n: u32 = c as u32;
    if 0x30 <= n && n <= 0x39 {
        Some((n - 0x30) as u8)
    } else if 0x41 <= n && n <= 0x46 {
        Some((n - 0x41 + 10) as u8)
    } else if 0x61 <= n && n <= 0x66 {
        Some((n - 0x61 + 10) as u8)
    } else {
        None
    }
}

/// Decodes a run of hexadecimal digits.
pub fn decode_hex(s: &[char]) -> (r: Result<Vec<u8>, HexError>)
    ensures
        match r {
            Ok(v) => hex_decoded(s@) == Ok::<Seq<u8>, HexError>(v@),
            Err(e) => hex_decoded(s@) == Err::<Seq<u8>, HexError>(e),
        },
{
    let n: usize = s.len();
    if n % 2 != 0 {
        return Err(HexError::OddLength);
    }
    let mut out: Vec<u8> = Vec::new();
    let mut bad: bool = false;
    let mut i: usize = 0;
    while i < n / 2
        invariant
            n == s.len(),
            n % 2 == 0,
            i <= n / 2,
            !bad ==> out@.len() == i,
            !bad ==> forall|j: int| 0 <= j < i ==> out@[j] == hex_byte_at(s@, j),
            !bad ==> forall|j: int| 0 <= j < 2 * i ==> is_hex_digit(#[trigger] s@[j]),
            bad ==> !all_hex(s@),
        decreases n / 2 - i,
    {
        let hi: Option<u8> = hex_digit(s[2 * i]);
        let lo: Option<u8> = hex_digit(s[2 * i + 1]);
        match (hi, lo) {
            (Some(h), Some(l)) => {
                if !bad {
                    out.push(h * 16 + l);
                }
            },
            _ => {
                bad = true;
            },
        }
        i += 1;
    }
    if bad {
        Err(HexError::InvalidDigit)
    } else {
        assert(out@ =~= hex_bytes(s@));
        Ok(out)
    }
}

/// Decodes a hexadecimal string, two digits to a byte and the high digit
/// first. A string of odd length, or one that holds anything but hexadecimal
/// digits, is refused.
pub fn hex_to_bytes(s: &str) -> (r: Result<Vec<u8>, HexError>)
    ensures
        match r {
            Ok(v) => hex_decoded(s@) == Ok::<Seq<u8>, HexError>(v@),
            Err(e) => hex_decoded(s@) == Err::<Seq<u8>, HexError>(e),
        },
{
    let chars: Vec<char> = to_chars(s);
    decode_hex(chars.as_slice())
}

} // verus!
