//! Which linear values a G.711 word stands for.

use vstd::prelude::*;

use crate::g711::{
    alaw_level, compressed, expanded, is_negative, level_of, plain_bits, ulaw_level, Law,
};
use crate::words::{
    bit_length_unique, signed_of, two_to, two_to_adds, two_to_monotonic, two_to_positive,
    two_to_values,
};

verus! {

/// The value of a word, read from its bits: a sign, three bits of segment and four
/// of mantissa. A-law inverts every other bit and has the highest one set in
/// positive words; mu-law inverts every bit. The values of a segment are evenly
/// spaced, and twice as far apart as those of the segment before; A-law's first
/// two share a spacing of four.
pub proof fn words_expand(word: u8, bits: u8, high: int, segment: int, m: int)
    requires
        0 <= high <= 1,
        0 <= segment <= 7,
        0 <= m <= 15,
        bits == 128 * high + 16 * segment + m,
    ensures
        word == bits ^ 0x55u8 && segment == 0 ==> expanded(word, Law::ALaw) == (2 * high - 1) * (4
            * m + 2),
        word == bits ^ 0x55u8 && segment > 0 ==> expanded(word, Law::ALaw) == (2 * high - 1) * ((4
            * m + 66) * two_to(segment - 1)),
        word == 255 - bits ==> expanded(word, Law::ULaw) == (1 - 2 * high) * ((2 * m + 33)
            * two_to(segment) - 33),
{
    assert((bits ^ 0x55u8) ^ 0x55u8 == bits) by (bit_vector);
    let level = 16 * segment + m;
    assert(level / 16 == segment && level % 16 == m);
    assert(bits as int % 128 == level);
    let p = two_to(segment - 1);
    let a = (4 * m + 66) * p;
    assert(a == 2 * ((2 * m + 33) * p)) by (nonlinear_arith)
        requires
            a == (4 * m + 66) * p,
    ;
    let u = (2 * m + 33) * two_to(segment) - 33;
    assert((2 * high - 1) * a == if high == 1 { a } else { -a }) by (nonlinear_arith)
        requires
            0 <= high <= 1,
    ;
    assert((2 * high - 1) * (4 * m + 2) == if high == 1 { 4 * m + 2 } else { -(4 * m + 2) })
        by (nonlinear_arith)
        requires
            0 <= high <= 1,
    ;
    assert((1 - 2 * high) * u == if high == 1 { -u } else { u }) by (nonlinear_arith)
        requires
            0 <= high <= 1,
    ;
    if word == bits ^ 0x55u8 {
        assert(plain_bits(word, Law::ALaw) == bits);
        assert(level_of(word, Law::ALaw) == level);
        assert(is_negative(word, Law::ALaw) == (high == 0));
    }
    if word == 255 - bits {
        assert(plain_bits(word, Law::ULaw) == bits);
        assert(level_of(word, Law::ULaw) == level);
        assert(is_negative(word, Law::ULaw) == (high == 1));
    }
}

/// The level of an A-law magnitude halved, read from its interval.
proof fn alaw_interval(v: int, segment: int, m: int)
    requires
        0 <= segment <= 7,
        0 <= m <= 15,
        segment == 0 ==> 2 * m <= v < 2 * m + 2,
        segment > 0 ==> (32 + 2 * m) * two_to(segment - 1) <= v < (34 + 2 * m) * two_to(
            segment - 1,
        ),
    ensures
        alaw_level(v) == 16 * segment + m,
        0 <= v < 4096,
{
    two_to_values();
    if segment > 0 {
        let p = two_to(segment - 1);
        two_to_positive(segment - 1);
        two_to_monotonic(segment - 1, 6);
        two_to_adds(segment - 1, 5);
        two_to_adds(segment - 1, 6);
        assert((32 + 2 * m) * p == 32 * p + 2 * (m * p)) by (nonlinear_arith);
        assert((34 + 2 * m) * p == 34 * p + 2 * (m * p)) by (nonlinear_arith);
        assert(0 <= m * p <= 15 * p) by (nonlinear_arith)
            requires
                0 <= m <= 15,
                p >= 1,
        ;
        bit_length_unique(v, segment + 5);
        let w = two_to(segment);
        assert(w == 2 * p);
        assert(m * w == 2 * (m * p)) by (nonlinear_arith)
            requires
                w == 2 * p,
        ;
        vstd::arithmetic::div_mod::lemma_fundamental_div_mod_converse(
            v - 32 * p,
            w,
            m,
            v - 32 * p - m * w,
        );
    }
}

/// The A-law word of a value: a positive value takes the segment and the mantissa
/// of the interval that it lies in, whose lower end belongs to it; of a negative
/// one the interval's upper end does. Past the last interval it is the last word.
pub proof fn alaw_intervals(word: int, x: int, segment: int, m: int)
    requires
        0 <= word < 65536,
        -32768 < x < 32768,
        (x - word) % 65536 == 0,
        0 <= segment <= 7,
        0 <= m <= 15,
    ensures
        segment == 0 && 4 * m <= x < 4 * m + 4 ==> compressed(word, Law::ALaw) == (128 + m) as u8
            ^ 0x55u8,
        segment == 0 && 4 * m < -x <= 4 * m + 4 ==> compressed(word, Law::ALaw) == m as u8
            ^ 0x55u8,
        segment > 0 && (64 + 4 * m) * two_to(segment - 1) <= x < (68 + 4 * m) * two_to(segment - 1)
            ==> compressed(word, Law::ALaw) == (128 + 16 * segment + m) as u8 ^ 0x55u8,
        segment > 0 && (64 + 4 * m) * two_to(segment - 1) < -x <= (68 + 4 * m) * two_to(
            segment - 1,
        ) ==> compressed(word, Law::ALaw) == (16 * segment + m) as u8 ^ 0x55u8,
        x >= 8192 ==> compressed(word, Law::ALaw) == 0xffu8 ^ 0x55u8,
        -x > 8192 ==> compressed(word, Law::ALaw) == 0x7fu8 ^ 0x55u8,
{
    assert(word == x || word == x + 65536);
    assert(signed_of(word, 65536) == x);
    let p = two_to(segment - 1);
    let lo = (32 + 2 * m) * p;
    let hi = (34 + 2 * m) * p;
    assert((64 + 4 * m) * p == 2 * lo) by (nonlinear_arith)
        requires
            lo == (32 + 2 * m) * p,
    ;
    assert((68 + 4 * m) * p == 2 * hi) by (nonlinear_arith)
        requires
            hi == (34 + 2 * m) * p,
    ;
    if segment > 0 {
        two_to_positive(segment - 1);
        assert(lo > 0) by (nonlinear_arith)
            requires
                lo == (32 + 2 * m) * p,
                m >= 0,
                p > 0,
        ;
    }
    if x >= 0 {
        let v = x / 2;
        if (segment == 0 && 4 * m <= x < 4 * m + 4) || (segment > 0 && 2 * lo <= x < 2 * hi) {
            alaw_interval(v, segment, m);
        }
    } else {
        let v = (-x + 1) / 2 - 1;
        if (segment == 0 && 4 * m < -x <= 4 * m + 4) || (segment > 0 && 2 * lo < -x <= 2 * hi) {
            alaw_interval(v, segment, m);
        }
        if v == 4095 {
            two_to_values();
            alaw_interval(v, 7, 15);
        }
    }
}

/// The mu-law word of a value: the segment and the mantissa of the interval that
/// its magnitude, raised by 33, lies in. Past the last interval it is the last
/// word.
pub proof fn ulaw_intervals(word: int, x: int, segment: int, m: int)
    requires
        0 <= word < 65536,
        -32768 < x < 32768,
        (x - word) % 65536 == 0,
        0 <= segment <= 7,
        0 <= m <= 15,
    ensures
        x >= 0 && (32 + 2 * m) * two_to(segment) <= x + 33 < (34 + 2 * m) * two_to(segment)
            ==> compressed(word, Law::ULaw) == 255 - 16 * segment - m,
        x < 0 && (32 + 2 * m) * two_to(segment) <= -x + 33 < (34 + 2 * m) * two_to(segment)
            ==> compressed(word, Law::ULaw) == 127 - 16 * segment - m,
        x >= 8159 ==> compressed(word, Law::ULaw) == 128,
        -x >= 8159 ==> compressed(word, Law::ULaw) == 0,
{
    assert(word == x || word == x + 65536);
    assert(signed_of(word, 65536) == x);
    let v: int = if x < 0 {
        -x
    } else {
        x
    };
    let p = two_to(segment);
    if (32 + 2 * m) * p <= v + 33 < (34 + 2 * m) * p {
        two_to_values();
        two_to_positive(segment);
        two_to_monotonic(segment, 7);
        two_to_adds(segment, 5);
        two_to_adds(segment, 6);
        assert((32 + 2 * m) * p == 32 * p + 2 * (m * p)) by (nonlinear_arith);
        assert((34 + 2 * m) * p == 34 * p + 2 * (m * p)) by (nonlinear_arith);
        assert(0 <= m * p <= 15 * p) by (nonlinear_arith)
            requires
                0 <= m <= 15,
                p >= 1,
        ;
        bit_length_unique(v + 33, segment + 6);
        let w = two_to(segment + 1);
        assert(w == 2 * p);
        assert((16 + m) * w == 32 * p + 2 * (m * p)) by (nonlinear_arith)
            requires
                w == 2 * p,
        ;
        vstd::arithmetic::div_mod::lemma_fundamental_div_mod_converse(
            v + 33,
            w,
            16 + m,
            v + 33 - (16 + m) * w,
        );
        assert(v < 8159) by {
            assert(34 * p + 2 * (m * p) <= 64 * p);
        }
        assert(ulaw_level(v) == 16 * segment + m);
    }
}

} // verus!
