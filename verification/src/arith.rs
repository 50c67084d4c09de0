//! Integer helpers shared by every codec: saturation, floor division,
//! nibbles, and 16-bit words laid out as bytes.

use vstd::prelude::*;

verus! {

/// `x` saturated to the range `lo..=hi`.
pub open spec fn clamp(x: int, lo: int, hi: int) -> int {
    if x < lo {
        lo
    } else if x > hi {
        hi
    } else {
        x
    }
}

/// `x` saturated to the signed 16-bit range.
pub open spec fn clamp16(x: int) -> int {
    clamp(x, -32768, 32767)
}

/// The absolute value of `x`.
pub open spec fn magnitude(x: int) -> int {
    if x < 0 {
        -x
    } else {
        x
    }
}

/// The signed value of the 16-bit word `w`, for `0 <= w < 65536`.
pub open spec fn signed16(w: int) -> int {
    if w < 32768 {
        w
    } else {
        w - 65536
    }
}

/// The signed 16-bit value stored in two bytes, low byte first.
pub open spec fn word_le(lo: u8, hi: u8) -> int {
    signed16(lo as int + 256 * hi as int)
}

/// The low byte of the two's-complement word of `x`.
pub open spec fn low_byte(x: int) -> u8 {
    (x % 256) as u8
}

/// The high byte of the 16-bit two's-complement word of `x`.
pub open spec fn high_byte(x: int) -> u8 {
    ((x / 256) % 256) as u8
}

/// The low nibble of a byte.
pub open spec fn low_nibble(b: u8) -> int {
    b as int % 16
}

/// The high nibble of a byte.
pub open spec fn high_nibble(b: u8) -> int {
    b as int / 16
}

/// Saturates `x` to `lo..=hi`.
pub fn clamp_i32(x: i32, lo: i32, hi: i32) -> (r: i32)
    requires
        lo <= hi,
    ensures
        r == clamp(x as int, lo as int, hi as int),
{
    if x < lo {
        lo
    } else if x > hi {
        hi
    } else {
        x
    }
}

/// Saturates `x` to the signed 16-bit range.
pub fn clamp_i16(x: i64) -> (r: i16)
    ensures
        r == clamp16(x as int),
{
    if x < -32768 {
        -32768
    } else if x > 32767 {
        32767
    } else {
        x as i16
    }
}

/// `x / d` rounded towards negative infinity.
pub fn div_floor(x: i64, d: i64) -> (r: i64)
    requires
        d > 0,
        x > i64::MIN,
    ensures
        r == x as int / d as int,
{
    if x >= 0 {
        x / d
    } else {
        let m: i64 = -(x + 1);
        let q: i64 = m / d;
        proof {
            let a = x as int;
            let b = d as int;
            let p = m as int;
            assert(p == -a - 1);
            assert(a / b == -(p / b) - 1) by (nonlinear_arith)
                requires
                    b > 0,
                    p == -a - 1,
            ;
            assert(0 <= p / b <= p) by (nonlinear_arith)
                requires
                    b > 0,
                    p >= 0,
            ;
        }
        -q - 1
    }
}

/// Reads a signed 16-bit little-endian word.
pub fn read_i16(lo: u8, hi: u8) -> (r: i16)
    ensures
        r == word_le(lo, hi),
{
    let w: i32 = lo as i32 + 256 * hi as i32;
    if w < 32768 {
        w as i16
    } else {
        (w - 65536) as i16
    }
}

/// The bytes of `x mod 65536`, low byte first.
pub fn word_bytes(x: i32) -> (r: (u8, u8))
    ensures
        r.0 == low_byte(x as int),
        r.1 == high_byte(x as int),
{
    let hi: i64 = div_floor(x as i64, 256);
    let lo: i64 = x as i64 - 256 * hi;
    let top: i64 = div_floor(hi, 256);
    (lo as u8, (hi - 256 * top) as u8)
}

/// Reading back the two bytes of a 16-bit value gives the value.
pub proof fn word_bytes_round_trip(x: int)
    requires
        -32768 <= x <= 32767,
    ensures
        word_le(low_byte(x), high_byte(x)) == x,
{
}

/// The least of `f(0)`, .., `f(k - 1)`, by the first index that has it.
pub open spec fn least(f: spec_fn(int) -> int, k: int) -> int
    decreases k,
{
    if k <= 1 {
        0
    } else {
        let b = least(f, k - 1);
        if f(k - 1) < f(b) {
            k - 1
        } else {
            b
        }
    }
}

/// Nothing is less than the least, and nothing before it is as little.
pub proof fn least_is_least(f: spec_fn(int) -> int, k: int)
    requires
        k >= 1,
    ensures
        0 <= least(f, k) < k,
        forall|m: int| 0 <= m < k ==> f(least(f, k)) <= #[trigger] f(m),
        forall|m: int| 0 <= m < least(f, k) ==> f(least(f, k)) < #[trigger] f(m),
    decreases k,
{
    if k > 1 {
        least_is_least(f, k - 1);
    }
}

} // verus!
