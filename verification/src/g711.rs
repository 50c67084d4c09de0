//! G.711 log-PCM words.
//!
//! A word has a sign and one of 128 levels, in eight segments of sixteen. The
//! step doubles from segment to segment.

use vstd::prelude::*;

use crate::arith::{div_floor, magnitude};
use crate::words::{
    bit_length, bit_length_bounds, bit_length_limit, bit_length_of, bit_length_unique,
    power_of_two, signed_of, two_to, two_to_monotonic, two_to_positive, two_to_values,
};

verus! {

/// The companding law.
#[derive(Clone, Copy, Debug, PartialEq, Eq, Structural)]
pub enum Law {
    /// A-law; every other bit of a word is inverted.
    ALaw,
    /// mu-law; every bit of a word is inverted.
    ULaw,
}

/// The bits of a word before inversion.
pub open spec fn plain_bits(s: u8, law: Law) -> u8 {
    match law {
        Law::ALaw => s ^ 0x55u8,
        Law::ULaw => (255 - s) as u8,
    }
}

/// Whether a word is negative.
pub open spec fn is_negative(s: u8, law: Law) -> bool {
    match law {
        Law::ALaw => plain_bits(s, law) < 128,
        Law::ULaw => plain_bits(s, law) >= 128,
    }
}

/// The level of a word.
pub open spec fn level_of(s: u8, law: Law) -> int {
    plain_bits(s, law) as int % 128
}

/// The word with a sign and a level.
pub open spec fn word_of(negative: bool, level: int, law: Law) -> u8 {
    match law {
        Law::ALaw => ((if negative { 0int } else { 128int }) + level) as u8 ^ 0x55u8,
        Law::ULaw => (255 - ((if negative { 128int } else { 0int }) + level)) as u8,
    }
}

/// The magnitude that a level stands for: the middle of its interval.
pub open spec fn level_magnitude(level: int, law: Law) -> int {
    let segment = level / 16;
    let m = level % 16;
    match law {
        Law::ALaw => if segment == 0 {
            2 * (2 * m + 1)
        } else {
            2 * ((2 * m + 33) * two_to(segment - 1))
        },
        Law::ULaw => (2 * m + 33) * two_to(segment) - 33,
    }
}

/// The linear value of a word.
pub open spec fn expanded(s: u8, law: Law) -> int {
    let m = level_magnitude(level_of(s, law), law);
    if is_negative(s, law) {
        -m
    } else {
        m
    }
}

/// The A-law level of a magnitude, where a decision value belongs to the
/// interval above it.
pub open spec fn alaw_level(v: int) -> int {
    if v >= 4096 {
        127
    } else if v < 32 {
        v / 2
    } else {
        let segment = bit_length(v) - 5;
        16 * segment + (v - 32 * two_to(segment - 1)) / two_to(segment)
    }
}

/// The mu-law level of a magnitude.
pub open spec fn ulaw_level(v: int) -> int {
    if v >= 8159 {
        127
    } else {
        let segment = bit_length(v + 33) - 6;
        16 * segment + ((v + 33) / two_to(segment + 1)) % 16
    }
}

/// The level of a linear magnitude. On the negative side of A-law, a decision
/// value belongs to the interval below it.
pub open spec fn level_for(m: int, negative: bool, law: Law) -> int {
    match law {
        Law::ULaw => ulaw_level(m),
        Law::ALaw => if !negative {
            alaw_level(m / 2)
        } else if (m + 1) / 2 >= 4096 {
            127
        } else if (m + 1) / 2 == 0 {
            alaw_level(0)
        } else {
            alaw_level((m + 1) / 2 - 1)
        },
    }
}

/// The word of a linear value (a 16-bit word).
pub open spec fn compressed(sr: int, law: Law) -> u8 {
    let negative = sr >= 32768;
    let m = magnitude(signed_of(sr, 65536)) % 32768;
    word_of(negative, level_for(m, negative, law), law)
}

/// Inverting bits twice changes nothing.
proof fn invert_twice(s: u8)
    ensures
        (s ^ 0x55u8) ^ 0x55u8 == s,
{
    assert((s ^ 0x55u8) ^ 0x55u8 == s) by (bit_vector);
}

/// A word is made of its sign and its level.
pub proof fn word_parts(s: u8, law: Law)
    ensures
        0 <= level_of(s, law) < 128,
        word_of(is_negative(s, law), level_of(s, law), law) == s,
{
    invert_twice(s);
}

/// A sign and a level can be read back from their word.
pub proof fn word_parts_back(negative: bool, level: int, law: Law)
    requires
        0 <= level < 128,
    ensures
        is_negative(word_of(negative, level, law), law) == negative,
        level_of(word_of(negative, level, law), law) == level,
{
    invert_twice(((if negative { 0int } else { 128int }) + level) as u8);
}

/// Levels stand for magnitudes of at most 8064.
pub proof fn level_magnitude_range(level: int, law: Law)
    requires
        0 <= level < 128,
    ensures
        0 <= level_magnitude(level, law) <= 8064,
{
    two_to_values();
    let segment = level / 16;
    assert(0 <= segment <= 7);
    let m = level % 16;
    match law {
        Law::ALaw => {
            if segment > 0 {
                let p = two_to(segment - 1);
                two_to_monotonic(segment - 1, 6);
                two_to_positive(segment - 1);
                assert(0 <= (2 * m + 33) * p <= 63 * 64) by (nonlinear_arith)
                    requires
                        0 <= m <= 15,
                        1 <= p <= 64,
                ;
            }
        },
        Law::ULaw => {
            let p = two_to(segment);
            two_to_monotonic(segment, 7);
            two_to_positive(segment);
            assert(33 <= (2 * m + 33) * p <= 63 * 128) by (nonlinear_arith)
                requires
                    0 <= m <= 15,
                    1 <= p <= 128,
            ;
        },
    }
}

/// The bits of a word before inversion.
fn plain(s: u8, law: Law) -> (r: u8)
    ensures
        r == plain_bits(s, law),
{
    match law {
        Law::ALaw => s ^ 0x55u8,
        Law::ULaw => 255 - s,
    }
}

/// A word's sign and level.
fn parts(s: u8, law: Law) -> (r: (bool, u32))
    ensures
        r.0 == is_negative(s, law),
        r.1 == level_of(s, law),
        r.1 < 128,
{
    let b: u8 = plain(s, law);
    let high: bool = b >= 128;
    let negative: bool = match law {
        Law::ALaw => !high,
        Law::ULaw => high,
    };
    (negative, (b % 128) as u32)
}

/// The word with a sign and a level.
fn join(negative: bool, level: u32, law: Law) -> (r: u8)
    requires
        level < 128,
    ensures
        r == word_of(negative, level as int, law),
{
    match law {
        Law::ALaw => {
            let b: u32 = if negative {
                level
            } else {
                128 + level
            };
            b as u8 ^ 0x55u8
        },
        Law::ULaw => {
            let b: u32 = if negative {
                128 + level
            } else {
                level
            };
            (255 - b) as u8
        },
    }
}

/// The magnitude that a level stands for.
fn level_magnitude_of(level: u32, law: Law) -> (r: u32)
    requires
        level < 128,
    ensures
        r == level_magnitude(level as int, law),
        r <= 8064,
{
    proof {
        level_magnitude_range(level as int, law);
        two_to_values();
    }
    let segment: u32 = level / 16;
    let m: u64 = (level % 16) as u64;
    match law {
        Law::ALaw => {
            if segment == 0 {
                (2 * (2 * m + 1)) as u32
            } else {
                let p: u64 = power_of_two(segment - 1);
                proof {
                    two_to_monotonic(segment - 1, 6);
                    assert((2 * m + 33) * p <= 63 * 64) by (nonlinear_arith)
                        requires
                            m <= 15,
                            p <= 64,
                    ;
                }
                (2 * ((2 * m + 33) * p)) as u32
            }
        },
        Law::ULaw => {
            let p: u64 = power_of_two(segment);
            proof {
                two_to_monotonic(segment as int, 7);
                assert(33 <= (2 * m + 33) * p <= 63 * 128) by (nonlinear_arith)
                    requires
                        m <= 15,
                        1 <= p <= 128,
                ;
            }
            ((2 * m + 33) * p - 33) as u32
        },
    }
}

/// Expands a word to a linear value, as a 14-bit word.
pub fn expand(s: u8, law: Law) -> (r: u32)
    ensures
        r < 16384,
        r == expanded(s, law) % 16384,
        signed_of(r as int, 16384) == expanded(s, law),
        -8064 <= expanded(s, law) <= 8064,
{
    let p: (bool, u32) = parts(s, law);
    let m: u32 = level_magnitude_of(p.1, law);
    if p.0 && m > 0 {
        16384 - m
    } else {
        m
    }
}

/// Computes [`alaw_level`].
fn alaw_level_of(v: u32) -> (r: u32)
    ensures
        r == alaw_level(v as int),
        r < 128,
{
    if v >= 4096 {
        return 127;
    }
    if v < 32 {
        return v / 2;
    }
    let length: u32 = bit_length_of(v);
    proof {
        two_to_values();
        bit_length_limit(v as int, 12);
        bit_length_bounds(v as int);
        if length < 6 {
            two_to_monotonic(length as int, 5);
        }
    }
    let segment: u32 = length - 5;
    let half: u64 = power_of_two(segment - 1);
    let whole: u64 = power_of_two(segment);
    proof {
        let k = segment as int;
        assert(two_to(k + 4) == 32 * two_to(k - 1)) by {
            crate::words::two_to_adds(k - 1, 5);
        }
        assert(two_to(k + 5) == 2 * two_to(k + 4));
        let x = v - 32 * half;
        let w = whole as int;
        assert(0 <= x < 16 * w);
        assert(0 <= x / w < 16) by (nonlinear_arith)
            requires
                0 <= x < 16 * w,
                w > 0,
        ;
    }
    16 * segment + ((v as u64 - 32 * half) / whole) as u32
}

/// Computes [`ulaw_level`].
fn ulaw_level_of(v: u32) -> (r: u32)
    ensures
        r == ulaw_level(v as int),
        r < 128,
{
    if v >= 8159 {
        return 127;
    }
    let b: u32 = v + 33;
    let length: u32 = bit_length_of(b);
    proof {
        two_to_values();
        bit_length_limit(b as int, 13);
        bit_length_bounds(b as int);
        if length < 6 {
            two_to_monotonic(length as int, 5);
        }
    }
    let segment: u32 = length - 6;
    let p: u64 = power_of_two(segment + 1);
    16 * segment + ((b as u64 / p) % 16) as u32
}

/// Compresses a linear value (a 16-bit word) to a word.
pub fn compress(sr: u32, law: Law) -> (r: u8)
    requires
        sr < 65536,
    ensures
        r == compressed(sr as int, law),
{
    let negative: bool = sr >= 32768;
    let m: u32 = if negative {
        (65536 - sr) % 32768
    } else {
        sr
    };
    let level: u32 = match law {
        Law::ULaw => ulaw_level_of(m),
        Law::ALaw => if !negative {
            alaw_level_of(m / 2)
        } else {
            let v: u32 = (m + 1) / 2;
            if v >= 4096 {
                127
            } else if v == 0 {
                alaw_level_of(0)
            } else {
                alaw_level_of(v - 1)
            }
        },
    };
    join(negative, level, law)
}

/// Expands a word to a 16-bit sample.
pub fn expand_i16(s: u8, law: Law) -> (r: i16)
    ensures
        r == 4 * expanded(s, law),
{
    let w: u32 = expand(s, law);
    let v: i32 = if w < 8192 {
        w as i32
    } else {
        w as i32 - 16384
    };
    (4 * v) as i16
}

/// Compresses a 16-bit sample, a quarter of it rounded down, to a word.
pub fn compress_i16(s: i16, law: Law) -> (r: u8)
    ensures
        r == compressed((s as int / 4) % 65536, law),
{
    let quarter: i64 = div_floor(s as i64, 4);
    compress(
        if quarter < 0 {
            (65536 + quarter) as u32
        } else {
            quarter as u32
        },
        law,
    )
}

/// The word of the next level up or down; the outermost levels stay. Where the
/// sign changes, mu-law skips the other zero.
pub open spec fn neighbor(s: u8, law: Law, up: bool) -> u8 {
    let negative = is_negative(s, law);
    let level = level_of(s, law);
    if up != negative {
        word_of(negative, if level < 127 { level + 1 } else { 127 }, law)
    } else if level > 0 {
        word_of(negative, level - 1, law)
    } else {
        word_of(
            !negative,
            match law {
                Law::ALaw => 0,
                Law::ULaw => 1,
            },
            law,
        )
    }
}

/// The word of the next level up or down.
pub fn law_neighbor(sp: u8, law: Law, up: bool) -> (r: u8)
    ensures
        r == neighbor(sp, law, up),
{
    let p: (bool, u32) = parts(sp, law);
    let negative: bool = p.0;
    let level: u32 = p.1;
    if up != negative {
        join(negative, if level < 127 {
            level + 1
        } else {
            127
        }, law)
    } else if level > 0 {
        join(negative, level - 1, law)
    } else {
        join(!negative, match law {
            Law::ALaw => 0,
            Law::ULaw => 1,
        }, law)
    }
}

/// The powers of the segments.
proof fn segment_powers(segment: int)
    requires
        0 <= segment <= 7,
    ensures
        segment == 0 ==> two_to(segment) == 1,
        segment == 1 ==> two_to(segment) == 2,
        segment == 2 ==> two_to(segment) == 4,
        segment == 3 ==> two_to(segment) == 8,
        segment == 4 ==> two_to(segment) == 16,
        segment == 5 ==> two_to(segment) == 32,
        segment == 6 ==> two_to(segment) == 64,
        segment == 7 ==> two_to(segment) == 128,
        segment == 1 ==> two_to(segment - 1) == 1,
        segment == 2 ==> two_to(segment - 1) == 2,
        segment == 3 ==> two_to(segment - 1) == 4,
        segment == 4 ==> two_to(segment - 1) == 8,
        segment == 5 ==> two_to(segment - 1) == 16,
        segment == 6 ==> two_to(segment - 1) == 32,
        segment == 7 ==> two_to(segment - 1) == 64,
{
    two_to_values();
}

/// The bit length of a number between a power of two and its double, for the
/// powers that segments need.
proof fn segment_length(v: int, segment: int)
    requires
        0 <= segment <= 7,
        32 * two_to(segment) <= v < 64 * two_to(segment),
    ensures
        bit_length(v) == segment + 6,
{
    two_to_values();
    crate::words::two_to_adds(segment, 5);
    crate::words::two_to_adds(segment, 6);
    bit_length_unique(v, segment + 6);
}

/// An A-law magnitude quantizes to its own level.
proof fn alaw_level_back(level: int)
    requires
        0 <= level < 128,
    ensures
        alaw_level(level_magnitude(level, Law::ALaw) / 2) == level,
        alaw_level(level_magnitude(level, Law::ALaw) / 2 - 1) == level,
        2 <= level_magnitude(level, Law::ALaw) < 8192,
        level_magnitude(level, Law::ALaw) % 2 == 0,
{
    let segment = level / 16;
    let m = level % 16;
    segment_powers(segment);
    if segment > 0 {
        let p = two_to(segment - 1);
        let v = (2 * m + 33) * p;
        assert(level_magnitude(level, Law::ALaw) == 2 * v);
        assert(v == 2 * (m * p) + 33 * p) by (nonlinear_arith)
            requires
                v == (2 * m + 33) * p,
        ;
        assert(0 <= m * p <= 15 * p) by (nonlinear_arith)
            requires
                0 <= m <= 15,
                p >= 1,
        ;
        segment_length(v, segment - 1);
        segment_length(v - 1, segment - 1);
        let w = two_to(segment);
        assert(w == 2 * p);
        assert((v - 32 * p) / w == m) by (nonlinear_arith)
            requires
                v == 2 * (m * p) + 33 * p,
                w == 2 * p,
                p >= 1,
        ;
        assert((v - 1 - 32 * p) / w == m) by (nonlinear_arith)
            requires
                v == 2 * (m * p) + 33 * p,
                w == 2 * p,
                p >= 1,
        ;
    }
}

/// A mu-law magnitude quantizes to its own level.
proof fn ulaw_level_back(level: int)
    requires
        0 <= level < 128,
    ensures
        ulaw_level(level_magnitude(level, Law::ULaw)) == level,
        0 <= level_magnitude(level, Law::ULaw) < 8159,
        level_magnitude(level, Law::ULaw) == 0 <==> level == 0,
{
    let segment = level / 16;
    let m = level % 16;
    segment_powers(segment);
    let p = two_to(segment);
    let b = (2 * m + 33) * p;
    assert(b == 2 * (m * p) + 33 * p) by (nonlinear_arith)
        requires
            b == (2 * m + 33) * p,
    ;
    assert(0 <= m * p <= 15 * p) by (nonlinear_arith)
        requires
            0 <= m <= 15,
            p >= 1,
    ;
    segment_length(b, segment);
    let w = two_to(segment + 1);
    assert(w == 2 * p);
    assert(b / w == m + 16) by (nonlinear_arith)
        requires
            b == 2 * (m * p) + 33 * p,
            w == 2 * p,
            p >= 1,
    ;
    if level == 0 {
        assert(m == 0 && p == 1);
    } else if segment == 0 {
        assert(m * p == m);
    }
}

/// A magnitude quantizes to its own level on either side of zero.
proof fn level_back(level: int, negative: bool, law: Law)
    requires
        0 <= level < 128,
    ensures
        level_for(level_magnitude(level, law), negative, law) == level,
        0 <= level_magnitude(level, law) < 8192,
        level_magnitude(level, law) == 0 ==> law == Law::ULaw && level == 0,
{
    match law {
        Law::ALaw => {
            alaw_level_back(level);
            let m = level_magnitude(level, law);
            assert((m + 1) / 2 == m / 2);
        },
        Law::ULaw => {
            ulaw_level_back(level);
        },
    }
}

/// The word of a small linear value.
proof fn compressed_small(m: int, negative: bool, law: Law)
    requires
        0 <= m < 32768,
        negative ==> m > 0,
    ensures
        compressed((if negative { -m } else { m }) % 65536, law) == word_of(
            negative,
            level_for(m, negative, law),
            law,
        ),
{
    let w = (if negative { -m } else { m }) % 65536;
    assert(w == if negative { 65536 - m } else { m });
    assert(signed_of(w, 65536) == if negative { -m } else { m });
}

/// Compressing the linear value of a word gives the word back; only the
/// negative zero of mu-law comes back as the positive one.
pub proof fn law_round_trip(s: u8, law: Law)
    ensures
        compressed(expanded(s, law) % 65536, law) == (if law == Law::ULaw && s == 0x7f {
            0xffu8
        } else {
            s
        }),
{
    word_parts(s, law);
    let level = level_of(s, law);
    let negative = is_negative(s, law);
    level_back(level, negative, law);
    let m = level_magnitude(level, law);
    if m == 0 {
        assert(s == 0x7f || s == 0xff);
        level_back(level, false, law);
        compressed_small(0, false, law);
    } else {
        compressed_small(m, negative, law);
        if law == Law::ULaw && s == 0x7f {
            assert(level == 0);
            ulaw_level_back(0);
        }
    }
}

/// The next level stands for a larger magnitude.
proof fn level_magnitude_step(level: int, law: Law)
    requires
        0 <= level < 127,
    ensures
        level_magnitude(level, law) < level_magnitude(level + 1, law),
{
    let segment = level / 16;
    let m = level % 16;
    segment_powers(segment);
    let p = two_to(segment);
    let q = two_to(segment - 1);
    let n = (level + 1) % 16;
    if m < 15 {
        assert((level + 1) / 16 == segment && n == m + 1);
        assert((2 * n + 33) * p == (2 * m + 33) * p + 2 * p) by (nonlinear_arith)
            requires
                n == m + 1,
        ;
        assert((2 * n + 33) * q == (2 * m + 33) * q + 2 * q) by (nonlinear_arith)
            requires
                n == m + 1,
        ;
    } else {
        assert((level + 1) / 16 == segment + 1 && n == 0);
        segment_powers(segment + 1);
        assert((2 * m + 33) * p == 63 * p) by (nonlinear_arith)
            requires
                m == 15,
        ;
        assert((2 * m + 33) * q == 63 * q) by (nonlinear_arith)
            requires
                m == 15,
        ;
        let r = two_to(segment + 1);
        assert(r == 2 * p);
        assert((2 * n + 33) * r == 33 * r) by (nonlinear_arith)
            requires
                n == 0,
        ;
        assert((2 * n + 33) * p == 33 * p) by (nonlinear_arith)
            requires
                n == 0,
        ;
        assert(two_to((level + 1) / 16 - 1) == p);
    }
}

/// A higher level stands for a larger magnitude.
proof fn level_magnitude_increases(a: int, b: int, law: Law)
    requires
        0 <= a < b < 128,
    ensures
        level_magnitude(a, law) < level_magnitude(b, law),
    decreases b - a,
{
    level_magnitude_step(b - 1, law);
    if a < b - 1 {
        level_magnitude_increases(a, b - 1, law);
    }
}

/// A signed level: levels above zero count up, those below count down.
spec fn rung(negative: bool, level: int, law: Law) -> int {
    let m = level_magnitude(level, law);
    if negative {
        -m
    } else {
        m
    }
}

/// Away from zero, the next level is the nearest value beyond.
proof fn outward_is_next(negative: bool, a: int, other: bool, b: int, law: Law)
    requires
        0 <= a < 128,
        0 <= b < 128,
    ensures
        ({
            let to: int = if a < 127 {
                a + 1
            } else {
                127
            };
            let here = rung(negative, a, law);
            let there = rung(negative, to, law);
            let probe = rung(other, b, law);
            &&& !negative ==> here <= there && (probe > here ==> here < there <= probe)
            &&& negative ==> there <= here && (probe < here ==> probe <= there < here)
        }),
{
    level_back(a, false, law);
    level_back(b, false, law);
    if a < 127 {
        level_magnitude_step(a, law);
        if a + 1 < b {
            level_magnitude_increases(a + 1, b, law);
        }
    }
    if b < a {
        level_magnitude_increases(b, a, law);
    }
}

/// Towards zero, and across it, the next level is the nearest value beyond.
proof fn inward_is_next(negative: bool, a: int, other: bool, b: int, law: Law)
    requires
        0 <= a < 128,
        0 <= b < 128,
    ensures
        ({
            let here = rung(negative, a, law);
            let there = if a > 0 {
                rung(negative, a - 1, law)
            } else {
                rung(
                    !negative,
                    match law {
                        Law::ALaw => 0,
                        Law::ULaw => 1,
                    },
                    law,
                )
            };
            let probe = rung(other, b, law);
            &&& negative ==> here < there && (probe > here ==> there <= probe)
            &&& !negative ==> there < here && (probe < here ==> probe <= there)
        }),
{
    level_back(a, false, law);
    level_back(b, false, law);
    level_back(0, false, law);
    if law == Law::ULaw {
        ulaw_level_back(0);
        ulaw_level_back(1);
    }
    if a > 0 {
        level_magnitude_step(a - 1, law);
        level_back(a - 1, false, law);
        if b < a - 1 {
            level_magnitude_increases(b, a - 1, law);
        }
        if a < b {
            level_magnitude_increases(a, b, law);
        }
    } else {
        level_magnitude_step(0, law);
        if b > 0 {
            level_magnitude_increases(0, b, law);
        }
        if b > 1 {
            level_magnitude_increases(1, b, law);
        }
    }
}

/// The neighbour of a word is the nearest value beyond it: no word lies
/// between, and it only fails to lie beyond where no word does.
pub proof fn neighbor_is_next(s: u8, t: u8, law: Law)
    ensures
        expanded(neighbor(s, law, true), law) >= expanded(s, law),
        expanded(t, law) > expanded(s, law) ==> expanded(s, law) < expanded(
            neighbor(s, law, true),
            law,
        ) <= expanded(t, law),
        expanded(neighbor(s, law, false), law) <= expanded(s, law),
        expanded(t, law) < expanded(s, law) ==> expanded(t, law) <= expanded(
            neighbor(s, law, false),
            law,
        ) < expanded(s, law),
{
    word_parts(s, law);
    word_parts(t, law);
    let a = level_of(s, law);
    let b = level_of(t, law);
    let negative = is_negative(s, law);
    outward_is_next(negative, a, is_negative(t, law), b, law);
    inward_is_next(negative, a, is_negative(t, law), b, law);
    word_parts_back(negative, if a < 127 { a + 1 } else { 127 }, law);
    if a > 0 {
        word_parts_back(negative, a - 1, law);
    } else {
        word_parts_back(
            !negative,
            match law {
                Law::ALaw => 0,
                Law::ULaw => 1,
            },
            law,
        );
    }
}

/// Where an A-law magnitude lies in its segment.
proof fn alaw_segment(v: int)
    requires
        32 <= v < 4096,
    ensures
        ({
            let k = bit_length(v) - 5;
            &&& 1 <= k <= 7
            &&& 32 * two_to(k - 1) <= v < 32 * two_to(k)
            &&& 16 * k <= alaw_level(v) <= 16 * k + 15
        }),
{
    two_to_values();
    bit_length_limit(v, 12);
    bit_length_bounds(v);
    if bit_length(v) < 6 {
        two_to_monotonic(bit_length(v), 5);
    }
    let k = bit_length(v) - 5;
    crate::words::two_to_adds(k - 1, 5);
    crate::words::two_to_adds(k, 5);
    let x = v - 32 * two_to(k - 1);
    let w = two_to(k);
    assert(0 <= x / w < 16) by (nonlinear_arith)
        requires
            0 <= x < 16 * w,
            w > 0,
    ;
}

/// Where a mu-law magnitude lies in its segment, 33 added to it.
proof fn ulaw_segment(v: int)
    requires
        0 <= v < 8159,
    ensures
        ({
            let k = bit_length(v + 33) - 6;
            &&& 0 <= k <= 7
            &&& 32 * two_to(k) <= v + 33 < 32 * two_to(k + 1)
            &&& ulaw_level(v) == 16 * k + (v + 33) / two_to(k + 1) - 16
            &&& 16 * k <= ulaw_level(v) <= 16 * k + 15
        }),
{
    let b = v + 33;
    two_to_values();
    bit_length_limit(b, 13);
    bit_length_bounds(b);
    if bit_length(b) < 6 {
        two_to_monotonic(bit_length(b), 5);
    }
    let k = bit_length(b) - 6;
    crate::words::two_to_adds(k, 5);
    crate::words::two_to_adds(k + 1, 5);
    let w = two_to(k + 1);
    assert(w == 2 * two_to(k));
    assert(16 <= b / w < 32) by (nonlinear_arith)
        requires
            16 * w <= b < 32 * w,
            w > 0,
    ;
}

/// A larger magnitude has no lower A-law level.
proof fn alaw_level_rises(a: int, b: int)
    requires
        0 <= a <= b,
    ensures
        0 <= alaw_level(a) <= alaw_level(b) <= 127,
{
    if 32 <= a < 4096 {
        alaw_segment(a);
    }
    if 32 <= b < 4096 {
        alaw_segment(b);
    }
    if 32 <= a && b < 4096 {
        let j = bit_length(a) - 5;
        let k = bit_length(b) - 5;
        if j > k {
            two_to_monotonic(k, j - 1);
        } else if j == k {
            two_to_positive(k);
            let x = 32 * two_to(k - 1);
            vstd::arithmetic::div_mod::lemma_div_is_ordered(a - x, b - x, two_to(k));
        }
    }
}

/// A larger magnitude has no lower mu-law level.
proof fn ulaw_level_rises(a: int, b: int)
    requires
        0 <= a <= b,
    ensures
        0 <= ulaw_level(a) <= ulaw_level(b) <= 127,
{
    if a < 8159 {
        ulaw_segment(a);
    }
    if b < 8159 {
        ulaw_segment(b);
        let j = bit_length(a + 33) - 6;
        let k = bit_length(b + 33) - 6;
        if j > k {
            two_to_monotonic(k + 1, j);
        } else if j == k {
            two_to_positive(k + 1);
            vstd::arithmetic::div_mod::lemma_div_is_ordered(a + 33, b + 33, two_to(k + 1));
        }
    }
}

/// A larger magnitude has no lower level.
proof fn level_rises(a: int, b: int, negative: bool, law: Law)
    requires
        0 <= a <= b,
    ensures
        0 <= level_for(a, negative, law) <= level_for(b, negative, law) <= 127,
{
    match law {
        Law::ULaw => {
            ulaw_level_rises(a, b);
        },
        Law::ALaw => {
            alaw_level_rises(a / 2, b / 2);
            alaw_level_rises(0, b);
            if a >= 1 {
                alaw_level_rises((a + 1) / 2 - 1, (b + 1) / 2 - 1);
            } else if b >= 1 {
                alaw_level_rises(0, (b + 1) / 2 - 1);
            }
        },
    }
}

/// A word's magnitude compares with another magnitude as their levels do.
proof fn level_splits(m: int, level: int, negative: bool, law: Law)
    requires
        0 <= m,
        0 <= level < 128,
    ensures
        ({
            let here = level_magnitude(level_for(m, negative, law), law);
            let there = level_magnitude(level, law);
            &&& there <= m ==> there <= here
            &&& there >= m ==> there >= here
        }),
{
    let k = level_for(m, negative, law);
    let there = level_magnitude(level, law);
    level_back(level, negative, law);
    level_rises(m, m, negative, law);
    if there <= m {
        level_rises(there, m, negative, law);
        if level < k {
            level_magnitude_increases(level, k, law);
        }
    }
    if there >= m {
        level_rises(m, there, negative, law);
        if k < level {
            level_magnitude_increases(k, level, law);
        }
    }
}

/// No word lies between a linear value and the word it is compressed to.
pub proof fn compressed_is_adjacent(r: int, t: u8, law: Law)
    requires
        -32768 < r < 32768,
    ensures
        ({
            let here = expanded(compressed(r % 65536, law), law);
            let there = expanded(t, law);
            &&& there <= r ==> there <= here
            &&& there >= r ==> there >= here
        }),
{
    let negative = r < 0;
    let m = magnitude(r);
    compressed_small(m, negative, law);
    level_rises(m, m, negative, law);
    let k = level_for(m, negative, law);
    word_parts_back(negative, k, law);
    word_parts(t, law);
    level_back(k, negative, law);
    level_back(level_of(t, law), negative, law);
    level_splits(m, level_of(t, law), negative, law);
    if m == 0 {
        level_splits(m, 0, negative, law);
    }
}

} // verus!
