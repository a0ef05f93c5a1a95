//! The coding of ray parameters as integers.
//!
//! A parameter arrives as the 64 bits of an IEEE 754 double: one sign bit
//! above 63 bits of magnitude, where a larger magnitude is a number farther
//! from zero, `INFINITE` is the magnitude of infinity, and every magnitude
//! above it is not a number. Its code is the same number read as sign and
//! magnitude, so that the codes are ordered as the numbers are, and both
//! zeros share the code 0.

use vstd::prelude::*;

verus! {

/// The sign bit of a bit pattern.
pub const SIGN: u64 = 0x8000_0000_0000_0000;

/// The magnitude of infinity: the largest magnitude that is a number.
pub const INFINITE: u64 = 0x7FF0_0000_0000_0000;

/// The code of positive infinity: the largest code.
pub const MAX_CODE: i64 = 0x7FF0_0000_0000_0000;

/// Whether the sign bit of `bits` is set.
pub open spec fn negative(bits: u64) -> bool {
    bits >= SIGN
}

/// The 63 bits of `bits` below the sign bit.
pub open spec fn magnitude(bits: u64) -> u64 {
    if bits >= SIGN {
        (bits - SIGN) as u64
    } else {
        bits
    }
}

/// Whether `bits` is a number, finite or infinite.
pub open spec fn is_number(bits: u64) -> bool {
    magnitude(bits) <= INFINITE
}

/// The code of the number `bits`: its magnitude, negated under the sign bit.
pub open spec fn code_of(bits: u64) -> int {
    if negative(bits) {
        -(magnitude(bits) as int)
    } else {
        magnitude(bits) as int
    }
}

/// Whether `key` is the code of a number.
pub open spec fn is_code(key: i64) -> bool {
    -MAX_CODE <= key <= MAX_CODE
}

/// The bit pattern with the code `key`; of the two zeros, the positive one.
pub open spec fn bits_of(key: i64) -> u64 {
    if key >= 0 {
        key as u64
    } else {
        (SIGN + (-key)) as u64
    }
}

/// The code of the number with the bit pattern `bits`, and nothing for a
/// pattern that is not a number.
pub fn encode(bits: u64) -> (r: Option<i64>)
    ensures
        is_number(bits) ==> r == Some(code_of(bits) as i64) && is_code(r.unwrap()),
        !is_number(bits) ==> r is None,
{
    if bits >= SIGN {
        let m: u64 = bits - SIGN;
        if m <= INFINITE {
            let k: i64 = m as i64;
            Some(-k)
        } else {
            None
        }
    } else if bits <= INFINITE {
        Some(bits as i64)
    } else {
        None
    }
}

/// The bit pattern of the number with the code `key`, and nothing for an
/// integer that is no code.
pub fn decode(key: i64) -> (r: Option<u64>)
    ensures
        is_code(key) ==> r == Some(bits_of(key)) && is_number(r.unwrap()),
        !is_code(key) ==> r is None,
{
    if key > MAX_CODE || key < -MAX_CODE {
        None
    } else if key >= 0 {
        Some(key as u64)
    } else {
        let m: i64 = -key;
        Some(SIGN + (m as u64))
    }
}

/// Decoding a code gives back the number that was encoded, but for negative
/// zero, which comes back as positive zero.
pub proof fn lemma_decode_encode(bits: u64)
    requires
        is_number(bits),
    ensures
        is_code(code_of(bits) as i64),
        bits_of(code_of(bits) as i64) == if bits == SIGN {
            0
        } else {
            bits
        },
{
}

/// Encoding what a code decodes to gives back the code.
pub proof fn lemma_encode_decode(key: i64)
    requires
        is_code(key),
    ensures
        is_number(bits_of(key)),
        code_of(bits_of(key)) == key,
{
}

/// The codes are ordered as the numbers are: among numbers without the sign
/// by magnitude, among numbers with it against magnitude, and a number with
/// the sign comes before one without unless both are zero.
pub proof fn lemma_order(a: u64, b: u64)
    requires
        is_number(a),
        is_number(b),
    ensures
        code_of(a) < code_of(b) <==> if negative(a) {
            if negative(b) {
                magnitude(a) > magnitude(b)
            } else {
                magnitude(a) > 0 || magnitude(b) > 0
            }
        } else {
            !negative(b) && magnitude(a) < magnitude(b)
        },
        code_of(a) == code_of(b) <==> magnitude(a) == magnitude(b) && (negative(a) == negative(b)
            || magnitude(a) == 0),
{
}

} // verus!
