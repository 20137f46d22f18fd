//! Hexadecimal digits, UTF-16 code units and surrogate-pair recombination:
//! everything the `\uXXXX` escape decoding rests on.

use vstd::prelude::*;
use vstd::utf8::char_u32_cast;

verus! {

/// Whether `c` is a hexadecimal digit (`0-9`, `a-f`, `A-F`).
pub open spec fn is_hex_digit(c: char) -> bool {
    ('0' as u32 <= c as u32 && c as u32 <= '9' as u32) || ('a' as u32 <= c as u32 && c as u32
        <= 'f' as u32) || ('A' as u32 <= c as u32 && c as u32 <= 'F' as u32)
}

/// The numeric value of a hexadecimal digit; 0 for anything else.
pub open spec fn hexv(c: char) -> int {
    if '0' as u32 <= c as u32 && c as u32 <= '9' as u32 {
        c as u32 - '0' as u32
    } else if 'a' as u32 <= c as u32 && c as u32 <= 'f' as u32 {
        c as u32 - 'a' as u32 + 10
    } else if 'A' as u32 <= c as u32 && c as u32 <= 'F' as u32 {
        c as u32 - 'A' as u32 + 10
    } else {
        0
    }
}

/// Decodes one hexadecimal digit to its value, `None` for any other
/// character.
pub fn hex_digit_to_byte(hex_digit: char) -> (r: Option<u8>)
    ensures
        r == if is_hex_digit(hex_digit) {
            Some(hexv(hex_digit) as u8)
        } else {
            None::<u8>
        },
{
    match hex_digit {
        '0' => Some(0),
        '1' => Some(1),
        '2' => Some(2),
        '3' => Some(3),
        '4' => Some(4),
        '5' => Some(5),
        '6' => Some(6),
        '7' => Some(7),
        '8' => Some(8),
        '9' => Some(9),
        'a' | 'A' => Some(0xA),
        'b' | 'B' => Some(0xB),
        'c' | 'C' => Some(0xC),
        'd' | 'D' => Some(0xD),
        'e' | 'E' => Some(0xE),
        'f' | 'F' => Some(0xF),
        _ => None,
    }
}

/// Whether the UTF-16 code unit `w` is a surrogate (not a scalar value on
/// its own).
pub open spec fn is_surrogate_unit(w: u16) -> bool {
    0xD800 <= w && w <= 0xDFFF
}

/// Whether `w` is a high (leading) surrogate.
pub open spec fn is_high_surrogate(w: u16) -> bool {
    0xD800 <= w && w <= 0xDBFF
}

/// Whether `w` is a low (trailing) surrogate.
pub open spec fn is_low_surrogate(w: u16) -> bool {
    0xDC00 <= w && w <= 0xDFFF
}

/// The Unicode scalar value encoded by the surrogate pair `hi`, `lo`.
pub open spec fn combined_scalar(hi: u16, lo: u16) -> u32 {
    (0x10000 + (hi - 0xD800) * 0x400 + (lo - 0xDC00)) as u32
}

/// Relies on `char::from_u32` of std: it returns `Some` exactly for code
/// points that are Unicode scalar values (not surrogates, at most
/// U+10FFFF), and the returned `char` is that code point.
pub assume_specification[ char::from_u32 ](v: u32) -> (r: Option<char>)
    ensures
        (r is Some) == (v < 0xD800 || (0xE000 <= v && v <= 0x10FFFF)),
        r matches Some(c) ==> c as u32 == v,
;

/// The scalar value carried by a single non-surrogate UTF-16 code unit.
pub fn decode_single_unit(w: u16) -> (r: Option<char>)
    ensures
        (r is Some) == !is_surrogate_unit(w),
        r matches Some(c) ==> c == ((w as u32) as char) && c as u32 == w as u32,
{
    let r = char::from_u32(w as u32);
    proof {
        if let Some(c) = r {
            char_u32_cast(c, w as u32);
        }
    }
    r
}

/// The single scalar value encoded by a valid surrogate pair.
pub fn combine_surrogate_pair(hi: u16, lo: u16) -> (r: char)
    requires
        is_high_surrogate(hi),
        is_low_surrogate(lo),
    ensures
        r == (combined_scalar(hi, lo) as char),
        r as u32 == combined_scalar(hi, lo),
{
    let v: u32 = 0x10000 + (hi as u32 - 0xD800) * 0x400 + (lo as u32 - 0xDC00);
    proof {
        assert(v == combined_scalar(hi, lo));
        assert(0x10000 <= v && v <= 0x10FFFF);
    }
    match char::from_u32(v) {
        Some(c) => {
            proof {
                char_u32_cast(c, v);
            }
            c
        },
        None => {
            proof {
                assert(false);
            }
            ' '
        },
    }
}

} // verus!
