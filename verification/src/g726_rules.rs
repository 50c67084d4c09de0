//! The rules that a G.726 coder goes by, quantity by quantity.

use vstd::prelude::*;

use crate::expansion::settles;
use crate::g726::{
    antilog_of, difference, difference_magnitude, estimate, float_word, input_code, log_of, next,
    next_a1, next_a2, next_b, next_fast, next_long, next_short, next_slow, next_speed,
    partial_estimate, partial_reconstruction, product, quan_code, reached, reconstructed, scale,
    threshold, top_magnitude, transition, transition_threshold, zero_sum, CodecModel, Rate,
};
use crate::words::{bit_length_unique, two_to, two_to_monotonic, two_to_positive, two_to_values};

verus! {

/// `x` is the signed number in the lowest 16 bits of another.
pub open spec fn wraps(y: int, x: int) -> bool {
    &&& -32768 <= x <= 32767
    &&& (y - x) % 65536 == 0
}

// ---- Tables ----

/// A code is as wide as its rate says, and a rate of two to five bits has four to
/// 32 codes. The lower half of them are positive, counting up from the smallest
/// difference; the upper half negative, counting down to it.
pub proof fn codes_mirror(rate: Rate, code: int)
    requires
        0 <= code < rate.code_count(),
    ensures
        rate.code_count() == two_to(rate.width()),
        rate == Rate::R16 ==> rate.width() == 2,
        rate == Rate::R24 ==> rate.width() == 3,
        rate == Rate::R32 ==> rate.width() == 4,
        rate == Rate::R40 ==> rate.width() == 5,
        2 * code < rate.code_count() ==> rate.sign_of(code) == 0 && rate.magnitude_of(code) == code,
        2 * code >= rate.code_count() ==> rate.sign_of(code) == 1 && rate.magnitude_of(code)
            == rate.code_count() - 1 - code,
        rate.level(code) == rate.level(rate.code_count() - 1 - code),
{
    two_to_values();
    assert(code == 0 || code == 1 || code == 2 || code == 3 || code == 4 || code == 5 || code == 6
        || code == 7 || code == 8 || code == 9 || code == 10 || code == 11 || code == 12 || code
        == 13 || code == 14 || code == 15 || code == 16 || code == 17 || code == 18 || code == 19
        || code == 20 || code == 21 || code == 22 || code == 23 || code == 24 || code == 25 || code
        == 26 || code == 27 || code == 28 || code == 29 || code == 30 || code == 31);
}

/// What the magnitudes of each rate stand for: the log level that is put out, as
/// the multiplier of the scale factor and as the weight of the averages; a level of
/// 2048 is no difference at all, and 4030 is 66 below zero.
pub proof fn magnitudes_stand_for(rate: Rate, m: int)
    requires
        0 <= m,
        2 * m < rate.code_count(),
    ensures
        rate == Rate::R16 ==> rate.level(m) == seq![116int, 365][m],
        rate == Rate::R16 ==> rate.multiplier(m) == seq![-22int, 439][m],
        rate == Rate::R16 ==> rate.weight(m) == seq![0int, 7][m],
        rate == Rate::R24 ==> rate.level(m) == seq![2048int, 135, 273, 373][m],
        rate == Rate::R24 ==> rate.multiplier(m) == seq![-4int, 30, 137, 582][m],
        rate == Rate::R24 ==> rate.weight(m) == seq![0int, 1, 2, 7][m],
        rate == Rate::R32 ==> rate.level(m) == seq![2048int, 4, 135, 213, 273, 323, 373, 425][m],
        rate == Rate::R32 ==> rate.multiplier(m) == seq![
            -12int,
            18,
            41,
            64,
            112,
            198,
            355,
            1122,
        ][m],
        rate == Rate::R32 ==> rate.weight(m) == seq![0int, 0, 0, 1, 1, 1, 3, 7][m],
        rate == Rate::R40 ==> rate.level(m) == seq![
            2048int,
            4030,
            28,
            104,
            169,
            224,
            274,
            318,
            358,
            395,
            429,
            459,
            488,
            514,
            539,
            566,
        ][m],
        rate == Rate::R40 ==> rate.multiplier(m) == seq![
            14int,
            14,
            24,
            39,
            40,
            41,
            58,
            100,
            141,
            179,
            219,
            280,
            358,
            440,
            529,
            696,
        ][m],
        rate == Rate::R40 ==> rate.weight(m) == seq![
            0int,
            0,
            0,
            0,
            0,
            1,
            1,
            1,
            1,
            1,
            2,
            3,
            4,
            5,
            6,
            6,
        ][m],
{
    assert(m == 0 || m == 1 || m == 2 || m == 3 || m == 4 || m == 5 || m == 6 || m == 7 || m == 8
        || m == 9 || m == 10 || m == 11 || m == 12 || m == 13 || m == 14 || m == 15);
}

/// From where a log difference reaches a magnitude.
pub proof fn magnitudes_begin_at(rate: Rate, m: int)
    requires
        1 <= m,
        2 * m < rate.code_count(),
    ensures
        rate == Rate::R16 ==> threshold(rate, m) == 261,
        rate == Rate::R24 ==> threshold(rate, m) == seq![8int, 218, 331][m - 1],
        rate == Rate::R32 ==> threshold(rate, m) == seq![-124int, 80, 178, 246, 300, 349, 400][m
            - 1],
        rate == Rate::R40 ==> threshold(rate, m) == seq![
            -122int,
            -16,
            68,
            139,
            198,
            250,
            298,
            339,
            378,
            413,
            445,
            475,
            502,
            528,
            553,
        ][m - 1],
{
    assert(m == 1 || m == 2 || m == 3 || m == 4 || m == 5 || m == 6 || m == 7 || m == 8 || m == 9
        || m == 10 || m == 11 || m == 12 || m == 13 || m == 14 || m == 15);
}

// ---- Quantizing ----

/// A difference takes the largest magnitude that it reaches, mirrored where it is
/// negative. Above two bits one that reaches none takes the topmost code, whatever
/// its sign.
pub proof fn the_largest_magnitude_reached(rate: Rate, sign: int, word: int, d: int, m: int)
    requires
        0 <= sign <= 1,
        0 <= word < 4096,
        -2048 <= d < 2048,
        (d - word) % 4096 == 0,
        0 <= m,
        2 * m < rate.code_count(),
        m > 0 ==> d >= threshold(rate, m),
        2 * (m + 1) < rate.code_count() ==> d < threshold(rate, m + 1),
    ensures
        m == 0 && rate != Rate::R16 ==> quan_code(rate, sign, word) == rate.code_count() - 1,
        (m > 0 || rate == Rate::R16) && sign == 0 ==> quan_code(rate, sign, word) == m,
        (m > 0 || rate == Rate::R16) && sign == 1 ==> quan_code(rate, sign, word)
            == rate.code_count() - 1 - m,
{
    assert(word < 2048 ==> d == word);
    assert(word >= 2048 ==> d == word - 4096);
    reached_is(rate, d, m, top_magnitude(rate));
}

proof fn reached_is(rate: Rate, d: int, m: int, top: int)
    requires
        0 <= m <= top <= top_magnitude(rate),
        m > 0 ==> d >= threshold(rate, m),
        m < top_magnitude(rate) ==> d < threshold(rate, m + 1),
    ensures
        reached(rate, d, top) == m,
    decreases top,
{
    if top > m {
        thresholds_rise(rate, m + 1, top);
        reached_is(rate, d, m, top - 1);
    }
}

proof fn thresholds_rise(rate: Rate, a: int, b: int)
    requires
        1 <= a <= b <= top_magnitude(rate),
    ensures
        threshold(rate, a) <= threshold(rate, b),
    decreases b - a,
{
    magnitudes_begin_at(rate, a);
    if a < b {
        magnitudes_begin_at(rate, a + 1);
        assert(a == 1 || a == 2 || a == 3 || a == 4 || a == 5 || a == 6 || a == 7 || a == 8 || a
            == 9 || a == 10 || a == 11 || a == 12 || a == 13 || a == 14);
        thresholds_rise(rate, a + 1, b);
    }
}

/// The code of a value is that of its distance from the estimate: of its sign, and
/// of its logarithm less a quarter of the scale factor.
pub proof fn the_code_of_a_value(s: CodecModel, sl: int, d: int, m: int)
    requires
        wraps(sl - estimate(s), d),
        0 <= m < 32768,
        d >= 0 ==> m == d,
        -32768 < d < 0 ==> m == -d,
        d == -32768 ==> m == 0,
    ensures
        input_code(s, sl) == quan_code(
            s.rate,
            if d < 0 {
                1
            } else {
                0
            },
            (log_of(m) - scale(s) / 4) % 4096,
        ),
{
    reveal(input_code);
    let w = (sl - estimate(s)) % 65536;
    assert(w == d || w == d + 65536);
}

// ---- Logarithms ----

/// The logarithm of a magnitude counts 128 for each doubling, and between two powers
/// of two 128ths of the lower one, rounded down. Nothing and one have none.
pub proof fn logarithms(m: int, e: int, f: int)
    requires
        1 <= m < 32768,
        0 <= e <= 14,
        two_to(e) <= m < two_to(e + 1),
        f * two_to(e) <= 128 * (m - two_to(e)) < (f + 1) * two_to(e),
    ensures
        log_of(m) == 128 * e + f,
        0 <= f < 128,
        log_of(0) == 0,
{
    two_to_values();
    let p = two_to(e);
    two_to_positive(e);
    assert(two_to(e + 1) == 2 * p);
    bit_length_unique(m, e + 1);
    assert(0 <= f < 128) by (nonlinear_arith)
        requires
            f * p <= 128 * (m - p) < (f + 1) * p,
            p <= m < 2 * p,
            p > 0,
    ;
    assert((128 + f) * p == 128 * p + f * p) by (nonlinear_arith);
    vstd::arithmetic::div_mod::lemma_fundamental_div_mod_converse(
        128 * m,
        p,
        128 + f,
        128 * m - (128 + f) * p,
    );
    if m < 2 {
        assert(e == 0) by {
            if e > 0 {
                two_to_monotonic(1, e);
            }
        }
    }
}

/// A log level stands for the magnitude that has it, rounded down; one below zero
/// for nothing.
pub proof fn antilogarithms(level: int, e: int, f: int, m: int)
    requires
        0 <= e,
        0 <= f < 128,
        level == 128 * e + f,
        level < 2048,
        128 * m <= (128 + f) * two_to(e) < 128 * m + 128,
    ensures
        antilog_of(level) == m,
        antilog_of(level + 2048) == 0,
{
    assert(level / 128 == e && level % 128 == f);
}

/// Putting out the logarithm of a magnitude gives it back to within a 128th of the
/// power of two below it.
pub proof fn logarithm_and_back(m: int, e: int)
    requires
        1 <= m < 32768,
        0 <= e <= 14,
        two_to(e) <= m < two_to(e + 1),
    ensures
        antilog_of(log_of(m)) <= m,
        128 * (m - antilog_of(log_of(m))) < two_to(e) + 128,
{
    let p = two_to(e);
    two_to_positive(e);
    let x = 128 * (m - p);
    let f = x / p;
    vstd::arithmetic::div_mod::lemma_fundamental_div_mod(x, p);
    vstd::arithmetic::div_mod::lemma_mod_bound(x, p);
    vstd::arithmetic::mul::lemma_mul_is_commutative(p, f);
    assert((f + 1) * p == f * p + p) by (nonlinear_arith);
    logarithms(m, e, f);
    let y = (128 + f) * p;
    assert(y == 128 * p + f * p) by (nonlinear_arith)
        requires
            y == (128 + f) * p,
    ;
    antilogarithms(log_of(m), e, f, y / 128);
}

// ---- Floating words ----

/// A floating word holds a sign, the length of the magnitude in bits, and its six
/// highest bits. Nothing is half of one.
pub proof fn floating_words(sign: int, m: int, e: int, mantissa: int)
    requires
        1 <= m,
        1 <= e,
        two_to(e - 1) <= m < two_to(e),
        mantissa * two_to(e) <= 64 * m < (mantissa + 1) * two_to(e),
    ensures
        float_word(sign, m) == 1024 * sign + 64 * e + mantissa,
        32 <= mantissa < 64,
        float_word(sign, 0) == 1024 * sign + 32,
{
    bit_length_unique(m, e);
    let p = two_to(e);
    two_to_positive(e);
    assert(p == 2 * two_to(e - 1));
    assert((mantissa + 1) * p == mantissa * p + p) by (nonlinear_arith);
    vstd::arithmetic::div_mod::lemma_fundamental_div_mod_converse(
        64 * m,
        p,
        mantissa,
        64 * m - mantissa * p,
    );
    assert(32 <= mantissa < 64) by (nonlinear_arith)
        requires
            mantissa * p <= 64 * m < (mantissa + 1) * p,
            m < p <= 2 * m,
            p > 0,
    ;
}

/// A coefficient times a floating word: a quarter of the coefficient is brought to
/// six bits, the two mantissas are multiplied and rounded, and the lengths added.
/// The product has the sign of both. Sixteen bits are kept.
pub proof fn floating_products(
    an: int,
    sign: int,
    length: int,
    mantissa: int,
    quarter: int,
    e: int,
    lead: int,
    rounded: int,
    mag: int,
)
    requires
        -32768 < an < 32768,
        0 <= sign <= 1,
        0 <= length < 16,
        0 <= mantissa < 64,
        an >= 0 ==> 4 * quarter <= an < 4 * quarter + 4,
        an < 0 ==> 4 * quarter - 4 < -an <= 4 * quarter,
        quarter < 8192,
        quarter == 0 ==> e == 0 && lead == 32,
        quarter > 0 ==> 1 <= e && two_to(e - 1) <= quarter < two_to(e),
        quarter > 0 ==> lead * two_to(e) <= 64 * quarter < (lead + 1) * two_to(e),
        16 * rounded <= mantissa * lead + 48 < 16 * rounded + 16,
        mag * 524288 <= rounded * two_to(length + e) < (mag + 1) * 524288,
        mag >= 0,
    ensures
        ({
            let r = product(an, 1024 * sign + 64 * length + mantissa);
            &&& (sign == 1) == (an < 0) ==> r == mag % 32768
            &&& (sign == 1) != (an < 0) ==> r == -(mag % 32768)
        }),
{
    reveal(product);
    let f = 1024 * sign + 64 * length + mantissa;
    assert(f % 64 == mantissa && (f / 64) % 16 == length);
    assert(f >= 1024 <==> sign == 1);
    if quarter > 0 {
        bit_length_unique(quarter, e);
        let p = two_to(e);
        two_to_positive(e);
        assert((lead + 1) * p == lead * p + p) by (nonlinear_arith);
        vstd::arithmetic::div_mod::lemma_fundamental_div_mod_converse(
            64 * quarter,
            p,
            lead,
            64 * quarter - lead * p,
        );
    } else {
        assert(quarter == 0);
    }
    assert((mantissa * lead + 48) / 16 == rounded);
    assert((rounded * two_to(length + e)) / 524288 == mag);
}

// ---- Estimates ----

/// The scale factor lies between the slow one and the fast one: at the fast one
/// from a speed of 256 on, and else as many 64ths of the way as the speed has
/// fours, rounded towards the slow one.
pub proof fn the_scale_lies_between(s: CodecModel, slow: int, fours: int, part: int)
    requires
        64 * slow <= s.yl < 64 * slow + 64,
        0 <= s.ap,
        4 * fours <= s.ap < 4 * fours + 4,
        s.ap < 256,
        s.yu >= slow ==> 64 * part <= (s.yu - slow) * fours < 64 * part + 64,
        s.yu < slow ==> 64 * part <= (slow - s.yu) * fours < 64 * part + 64,
    ensures
        s.yu >= slow ==> scale(s) == slow + part,
        s.yu < slow ==> scale(s) == slow - part,
{
    reveal(scale);
}

/// From a speed of 256 on the scale factor is the fast one.
pub proof fn the_scale_when_fast(s: CodecModel)
    requires
        s.ap >= 256,
    ensures
        scale(s) == s.yu,
{
    reveal(scale);
    let d = s.yu - s.yl / 64;
    assert((d * 64) / 64 == d);
    assert(((-d) * 64) / 64 == -d);
}

/// The estimate is half of what the two pole and six zero coefficients make of the
/// last signals and differences, rounded down; the partial one leaves out the poles.
/// Sums are kept to 16 bits.
pub proof fn the_estimate_is_a_half(s: CodecModel, zeros: int, all: int)
    requires
        wraps(
            product(s.b[0], s.dq[0]) + product(s.b[1], s.dq[1]) + product(s.b[2], s.dq[2])
                + product(s.b[3], s.dq[3]) + product(s.b[4], s.dq[4]) + product(s.b[5], s.dq[5]),
            zeros,
        ),
        wraps(zeros + product(s.a1, s.sr[0]) + product(s.a2, s.sr[1]), all),
    ensures
        2 * estimate(s) <= all < 2 * estimate(s) + 2,
        2 * partial_estimate(s) <= zeros < 2 * partial_estimate(s) + 2,
{
    reveal(estimate);
    reveal(partial_estimate);
    reveal_with_fuel(zero_sum, 7);
    let z = zero_sum(s, 6);
    let p = product(s.a2, s.sr[1]) + product(s.a1, s.sr[0]);
    assert((z - zeros) % 65536 == 0);
    assert((z + p - all) % 65536 == 0);
}

/// A code stands for the difference whose log level is the code's, raised by a
/// quarter of the scale factor; the signal is the estimate and it, kept to 16 bits.
pub proof fn the_signal_of_a_code(s: CodecModel, code: int, quarter: int, level: int)
    requires
        0 <= code < s.rate.code_count(),
        4 * quarter <= scale(s) < 4 * quarter + 4,
        0 <= level < 4096,
        (s.rate.level(code) + quarter - level) % 4096 == 0,
    ensures
        s.rate.sign_of(code) == 0 ==> difference(s, code) == antilog_of(level),
        s.rate.sign_of(code) == 1 ==> difference(s, code) == -antilog_of(level),
        wraps(difference(s, code) + estimate(s), reconstructed(s, code)),
        wraps(difference(s, code) + partial_estimate(s), partial_reconstruction(s, code)),
{
    reveal(difference_magnitude);
    assert((s.rate.level(code) + scale(s) / 4) % 4096 == level);
}

// ---- Adaptation ----

/// The fast scale factor goes a 32nd of the way from the scale factor to the
/// multiplier of the code times 32, within 544 and 5120; the slow one a 64th of the
/// way to 64 times the fast one.
pub proof fn scales_follow(s: CodecModel, code: int, way: int, leak: int)
    requires
        ({
            let w = s.rate.multiplier(s.rate.magnitude_of(code));
            32 * way <= 32 * w - scale(s) < 32 * way + 32
        }),
        64 * leak <= -s.yl < 64 * leak + 64,
    ensures
        settles(scale(s) + way, 544, 5120, next(s, code).yu),
        next(s, code).yl == s.yl + next(s, code).yu + leak,
        next(s, code).rate == s.rate,
{
    reveal(next);
    reveal(next_fast);
    reveal(next_slow);
}

/// The short average goes a 32nd of the way to 512 times the weight of the code, and
/// the long one a 128th of the way to 2048 times it.
pub proof fn averages_follow(s: CodecModel, code: int, short: int, long: int)
    requires
        ({
            let w = s.rate.weight(s.rate.magnitude_of(code));
            &&& 32 * short <= 512 * w - s.dms < 32 * short + 32
            &&& 128 * long <= 2048 * w - s.dml < 128 * long + 128
        }),
    ensures
        next(s, code).dms == s.dms + short,
        next(s, code).dml == s.dml + long,
{
    reveal(next);
    reveal(next_short);
    reveal(next_long);
}

/// A code is a transition where the last one left a tone, and its difference is
/// above three quarters of the value that the slow scale factor is the logarithm
/// of.
pub proof fn transitions(
    s: CodecModel,
    code: int,
    e: int,
    f: int,
    value: int,
    half: int,
    limit: int,
)
    requires
        0 <= f < 32,
        32768 * e + 1024 * f <= s.yl < 32768 * e + 1024 * f + 1024,
        0 <= e,
        e <= 9 ==> value == (32 + f) * two_to(e),
        e > 9 ==> value == 31744,
        2 * half <= value < 2 * half + 2,
        2 * limit <= value + half < 2 * limit + 2,
    ensures
        transition(s, code) <==> s.td == 1 && difference_magnitude(s, code) > limit,
{
    reveal(transition);
    reveal(transition_threshold);
    assert(s.yl / 32768 == e);
    assert((s.yl / 1024) % 32 == f);
}

/// The speed goes a 16th of the way to 512, or down where the averages agree to an
/// eighth, the scale factor is 1536 or more and there is no tone. A transition sets
/// it to 256. A tone is where the second pole coefficient is below -11776.
pub proof fn speed_follows(s: CodecModel, code: int, eighth: int, way: int)
    requires
        0 <= s.ap < 1024,
        ({
            let short = next(s, code).dms;
            let long = next(s, code).dml;
            let calm = scale(s) >= 1536 && 4 * short - long < eighth && long - 4 * short < eighth
                && next_a2(s, code) >= -11776;
            &&& 8 * eighth <= long < 8 * eighth + 8
            &&& calm ==> 16 * way <= -s.ap < 16 * way + 16
            &&& !calm ==> 16 * way <= 512 - s.ap < 16 * way + 16
        }),
    ensures
        !transition(s, code) ==> next(s, code).ap == s.ap + way,
        transition(s, code) ==> next(s, code).ap == 256,
        next(s, code).td == 1 <==> !transition(s, code) && next_a2(s, code) < -11776,
        next(s, code).td == 0 || next(s, code).td == 1,
{
    reveal(next);
    reveal(next_speed);
}

/// The second pole coefficient gains a 128th of 16384 where the signs of this and
/// the last but one partial signal agree, and loses it where they differ; gains or
/// loses a 32nd of the first coefficient, held to 8191, where this and the last
/// differ or agree; leaks a 128th; and stays within 12288. Without a partial signal
/// it only leaks.
pub proof fn second_pole_follows(s: CodecModel, code: int, held: int, gain: int, leak: int)
    requires
        settles(s.a1, -8191, 8191, held),
        128 * leak <= s.a2 < 128 * leak + 128,
        ({
            let here: int = if partial_reconstruction(s, code) < 0 {
                1
            } else {
                0
            };
            let first: int = if here == s.pk2 {
                16384
            } else {
                -16384
            };
            let second: int = if here == s.pk1 {
                -4 * held
            } else {
                4 * held
            };
            128 * gain <= first + second < 128 * gain + 128
        }),
    ensures
        partial_reconstruction(s, code) != 0 ==> settles(
            s.a2 + gain - leak,
            -12288,
            12288,
            next_a2(s, code),
        ),
        partial_reconstruction(s, code) == 0 ==> settles(
            s.a2 - leak,
            -12288,
            12288,
            next_a2(s, code),
        ),
        next(s, code).a2 == (if transition(s, code) {
            0
        } else {
            next_a2(s, code)
        }),
        next(s, code).pk2 == s.pk1,
        next(s, code).pk1 == 1 <==> partial_reconstruction(s, code) < 0,
        next(s, code).pk1 == 0 || next(s, code).pk1 == 1,
{
    reveal(next);
    reveal(next_a2);
}

/// The first pole coefficient gains 192 where the signs of this and the last partial
/// signal agree, and loses it where they differ; leaks a 256th; and stays within
/// 15360 less the second one. Without a partial signal it only leaks.
pub proof fn first_pole_follows(s: CodecModel, code: int, leak: int)
    requires
        256 * leak <= s.a1 < 256 * leak + 256,
        !transition(s, code),
        0 <= s.pk1 <= 1,
    ensures
        ({
            let bound = 15360 - next(s, code).a2;
            let sum = s.a1 - leak + (if partial_reconstruction(s, code) == 0 {
                0int
            } else if (partial_reconstruction(s, code) < 0) == (s.pk1 == 1) {
                192int
            } else {
                -192int
            });
            settles(sum, -bound, bound, next(s, code).a1)
        }),
{
    reveal(next);
    reveal(next_a2);
    reveal(next_a1);
}

/// A zero coefficient gains 128 where this and the difference that it weighs have
/// the same sign, and loses it where they differ; leaks a 256th, at five bits a
/// 512th; and is kept to 16 bits. Without a difference it only leaks.
pub proof fn zeros_follow(s: CodecModel, code: int, n: int, leak: int)
    requires
        0 <= n < 6,
        !transition(s, code),
        s.rate != Rate::R40 ==> 256 * leak <= s.b[n] < 256 * leak + 256,
        s.rate == Rate::R40 ==> 512 * leak <= s.b[n] < 512 * leak + 512,
    ensures
        ({
            let sum = s.b[n] - leak + (if difference_magnitude(s, code) == 0 {
                0int
            } else if (s.rate.sign_of(code) == 1) == (s.dq[n] >= 1024) {
                128int
            } else {
                -128int
            });
            wraps(sum, next(s, code).b[n])
        }),
{
    reveal(next);
    reveal(next_b);
}

/// A transition forgets every coefficient.
pub proof fn transitions_forget(s: CodecModel, code: int, n: int)
    requires
        transition(s, code),
        0 <= n < 6,
    ensures
        next(s, code).a1 == 0,
        next(s, code).a2 == 0,
        next(s, code).b[n] == 0,
{
    reveal(next);
}

/// The last six differences and the last two signals are kept as floating words,
/// the newest first.
pub proof fn memories_move_up(s: CodecModel, code: int, n: int)
    requires
        1 <= n < 6,
    ensures
        next(s, code).dq.len() == 6,
        next(s, code).dq[n] == s.dq[n - 1],
        next(s, code).dq[0] == float_word(s.rate.sign_of(code), difference_magnitude(s, code)),
        next(s, code).sr.len() == 2,
        next(s, code).sr[1] == s.sr[0],
        reconstructed(s, code) >= 0 ==> next(s, code).sr[0] == float_word(
            0,
            reconstructed(s, code),
        ),
        -32768 < reconstructed(s, code) < 0 ==> next(s, code).sr[0] == float_word(
            1,
            -reconstructed(s, code),
        ),
{
    reveal(next);
}

} // verus!
