//! ITU-T G.726: 40, 32, 24 and 16 kbit/s.
//!
//! One state machine serves all four rates and both directions; only the
//! quantizer tables depend on the rate. A code gives the quantized difference
//! between the signal and its estimate. The difference moves everything else:
//! the scale of the quantizer, the speed of its adaptation, and the eight
//! coefficients of the predictor.
//!
//! Quantities are stored as words of fixed width, as in the state's fields, and
//! described by their signed values.

use vstd::prelude::*;

use crate::arith::{clamp, clamp_i32, magnitude};
pub use crate::g711::{compress, compress_i16, expand, expand_i16, law_neighbor, Law};
use crate::bits::{
    joined, joined_push, leftover, leftover_short, packed_bytes, pieces, pieces_append,
    pieces_range, to_bits, to_bits_low,
};
pub use crate::bits::{BitOrder, BitPacker, BitUnpacker};
use crate::g711::{compressed, expanded, neighbor};
use crate::lanes::{
    code_seq, lanes_chosen, lanes_run, lanes_step, lanes_track, lanes_track_step,
};
use crate::tables::{
    G726_DQLN_16, G726_DQLN_24, G726_DQLN_32, G726_DQLN_40, G726_FI_16, G726_FI_24, G726_FI_32,
    G726_FI_40, G726_WI_16, G726_WI_24, G726_WI_32, G726_WI_40,
};
use crate::words::{
    bit_length, bit_length_bounds, bit_length_limit, bit_length_of, power_of_two, signed16,
    signed_of, two_to, two_to_adds, two_to_monotonic, two_to_positive, two_to_values, word16,
    word_sum, wrap16,
};

verus! {

/// How many bits a sample is coded with.
#[derive(Clone, Copy, Debug, PartialEq, Eq, Structural)]
pub enum Rate {
    /// Two bits, 16 kbit/s.
    R16,
    /// Three bits, 24 kbit/s.
    R24,
    /// Four bits, 32 kbit/s.
    R32,
    /// Five bits, 40 kbit/s.
    R40,
}

/// Every rate, the narrowest code first.
pub const ALL_RATES: [Rate; 4] = [Rate::R16, Rate::R24, Rate::R32, Rate::R40];

impl Rate {
    /// Bits per code.
    pub open spec fn width(self) -> int {
        match self {
            Rate::R16 => 2,
            Rate::R24 => 3,
            Rate::R32 => 4,
            Rate::R40 => 5,
        }
    }

    /// The number of codes.
    pub open spec fn code_count(self) -> int {
        match self {
            Rate::R16 => 4,
            Rate::R24 => 8,
            Rate::R32 => 16,
            Rate::R40 => 32,
        }
    }

    /// The normalised log level of a code, a 12-bit word.
    pub open spec fn level(self, code: int) -> int {
        match self {
            Rate::R16 => G726_DQLN_16[code] as int,
            Rate::R24 => G726_DQLN_24[code] as int,
            Rate::R32 => G726_DQLN_32[code] as int,
            Rate::R40 => G726_DQLN_40[code] as int,
        }
    }

    /// The scale-factor multiplier of a magnitude, as a signed value.
    pub open spec fn multiplier(self, mag: int) -> int {
        signed_of(
            match self {
                Rate::R16 => G726_WI_16[mag] as int,
                Rate::R24 => G726_WI_24[mag] as int,
                Rate::R32 => G726_WI_32[mag] as int,
                Rate::R40 => G726_WI_40[mag] as int,
            },
            4096,
        )
    }

    /// The adaptation-speed weight of a magnitude.
    pub open spec fn weight(self, mag: int) -> int {
        match self {
            Rate::R16 => G726_FI_16[mag] as int,
            Rate::R24 => G726_FI_24[mag] as int,
            Rate::R32 => G726_FI_32[mag] as int,
            Rate::R40 => G726_FI_40[mag] as int,
        }
    }

    /// The magnitude of a code: codes count up from zero and, in the upper
    /// half, down from the top.
    pub open spec fn magnitude_of(self, code: int) -> int {
        if 2 * code < self.code_count() {
            code
        } else {
            self.code_count() - 1 - code
        }
    }

    /// The sign of a code, one for the upper half.
    pub open spec fn sign_of(self, code: int) -> int {
        if 2 * code < self.code_count() {
            0
        } else {
            1
        }
    }

    /// Every rate, the narrowest code first.
    pub fn all() -> (r: &'static [Rate])
        ensures
            r@ == ALL_RATES@,
    {
        &ALL_RATES
    }

    /// Bits per code.
    pub fn bits(self) -> (r: u8)
        ensures
            r == self.width(),
            2 <= r <= 5,
    {
        match self {
            Rate::R16 => 2,
            Rate::R24 => 3,
            Rate::R32 => 4,
            Rate::R40 => 5,
        }
    }

    /// The rate with codes of this width.
    pub fn from_bits(bits: u8) -> (r: Option<Rate>)
        ensures
            match r {
                Some(rate) => rate.width() == bits,
                None => bits < 2 || bits > 5,
            },
    {
        match bits {
            2 => Some(Rate::R16),
            3 => Some(Rate::R24),
            4 => Some(Rate::R32),
            5 => Some(Rate::R40),
            _ => None,
        }
    }

    /// Bits per second, at 8000 samples per second.
    pub fn bitrate(self) -> (r: u32)
        ensures
            r == 8000 * self.width(),
    {
        8000 * self.bits() as u32
    }

    /// The largest code.
    pub fn code_mask(self) -> (r: u32)
        ensures
            r == self.code_count() - 1,
            r == 3 || r == 7 || r == 15 || r == 31,
    {
        match self {
            Rate::R16 => 3,
            Rate::R24 => 7,
            Rate::R32 => 15,
            Rate::R40 => 31,
        }
    }

    /// The scale-factor multiplier of a magnitude.
    fn multiplier_of(self, mag: u32) -> (r: i32)
        requires
            2 * mag < self.code_count(),
        ensures
            r == self.multiplier(mag as int),
            -22 <= r <= 1122,
    {
        let w: u16 = match self {
            Rate::R16 => G726_WI_16[mag as usize],
            Rate::R24 => G726_WI_24[mag as usize],
            Rate::R32 => G726_WI_32[mag as usize],
            Rate::R40 => G726_WI_40[mag as usize],
        };
        if w < 2048 {
            w as i32
        } else {
            w as i32 - 4096
        }
    }

    /// The adaptation-speed weight of a magnitude.
    fn weight_of(self, mag: u32) -> (r: i32)
        requires
            2 * mag < self.code_count(),
        ensures
            r == self.weight(mag as int),
            0 <= r <= 7,
    {
        match self {
            Rate::R16 => G726_FI_16[mag as usize] as i32,
            Rate::R24 => G726_FI_24[mag as usize] as i32,
            Rate::R32 => G726_FI_32[mag as usize] as i32,
            Rate::R40 => G726_FI_40[mag as usize] as i32,
        }
    }

    /// The magnitude of a code.
    fn code_magnitude(self, code: u32) -> (r: u32)
        requires
            code < self.code_count(),
        ensures
            r == self.magnitude_of(code as int),
            2 * r < self.code_count(),
    {
        let top: u32 = self.code_mask();
        if 2 * code <= top {
            code
        } else {
            top - code
        }
    }
}

/// Widths and rates stand for each other.
pub proof fn rate_width_injective(a: Rate, b: Rate)
    requires
        a.width() == b.width(),
    ensures
        a == b,
{
}

/// The thresholds of the 40 kbit/s quantizer, from magnitude 15 down to 1.
pub const QUAN_40: [i32; 15] = [
    553, 528, 502, 475, 445, 413, 378, 339, 298, 250, 198, 139, 68, -16, -122,
];

/// The thresholds of the 32 kbit/s quantizer, from magnitude 7 down to 1.
pub const QUAN_32: [i32; 7] = [400, 349, 300, 246, 178, 80, -124];

/// The thresholds of the 24 kbit/s quantizer, from magnitude 3 down to 1.
pub const QUAN_24: [i32; 3] = [331, 218, 8];

/// The threshold of the 16 kbit/s quantizer, for magnitude 1.
pub const QUAN_16: [i32; 1] = [261];

/// The largest magnitude of a rate.
pub open spec fn top_magnitude(rate: Rate) -> int {
    rate.code_count() / 2 - 1
}

/// The threshold of a magnitude above zero.
pub open spec fn threshold(rate: Rate, mag: int) -> int {
    let k = top_magnitude(rate) - mag;
    match rate {
        Rate::R16 => QUAN_16[k] as int,
        Rate::R24 => QUAN_24[k] as int,
        Rate::R32 => QUAN_32[k] as int,
        Rate::R40 => QUAN_40[k] as int,
    }
}

/// The largest magnitude, up to `mag`, whose threshold a log difference
/// reaches; zero where it reaches none.
pub open spec fn reached(rate: Rate, difference: int, mag: int) -> int
    decreases mag,
{
    if mag <= 0 {
        0
    } else if difference >= threshold(rate, mag) {
        mag
    } else {
        reached(rate, difference, mag - 1)
    }
}

/// The code of a log difference `dln` (a 12-bit word) with a sign: the largest
/// magnitude it reaches, mirrored for a negative sign. Above 16 kbit/s a
/// difference below all thresholds takes the topmost code whatever its sign.
pub open spec fn quan_code(rate: Rate, sign: int, dln: int) -> int {
    let mag = reached(rate, signed_of(dln, 4096), top_magnitude(rate));
    if mag == 0 && rate != Rate::R16 {
        rate.code_count() - 1
    } else if sign == 0 {
        mag
    } else {
        rate.code_count() - 1 - mag
    }
}

/// Magnitudes stay within those of the rate.
pub proof fn reached_range(rate: Rate, difference: int, mag: int)
    requires
        0 <= mag,
    ensures
        0 <= reached(rate, difference, mag) <= mag,
    decreases mag,
{
    if mag > 0 {
        reached_range(rate, difference, mag - 1);
    }
}

/// The threshold of a magnitude above zero.
fn threshold_of(rate: Rate, mag: u32) -> (r: i32)
    requires
        1 <= mag <= top_magnitude(rate),
    ensures
        r == threshold(rate, mag as int),
{
    match rate {
        Rate::R16 => QUAN_16[(1 - mag) as usize],
        Rate::R24 => QUAN_24[(3 - mag) as usize],
        Rate::R32 => QUAN_32[(7 - mag) as usize],
        Rate::R40 => QUAN_40[(15 - mag) as usize],
    }
}

/// Quantizes a log difference.
pub fn quan(rate: Rate, ds: u32, dln: u32) -> (r: u32)
    requires
        dln < 4096,
    ensures
        r == quan_code(rate, ds as int, dln as int),
        r < rate.code_count(),
{
    let difference: i32 = if dln < 2048 {
        dln as i32
    } else {
        dln as i32 - 4096
    };
    let full: u32 = rate.code_mask();
    let mut mag: u32 = full / 2;
    while mag > 0 && difference < threshold_of(rate, mag)
        invariant
            mag <= full / 2,
            full == rate.code_count() - 1,
            full == 3 || full == 7 || full == 15 || full == 31,
            reached(rate, difference as int, top_magnitude(rate)) == reached(
                rate,
                difference as int,
                mag as int,
            ),
        decreases mag,
    {
        mag = mag - 1;
    }
    if mag == 0 && !matches!(rate, Rate::R16) {
        full
    } else if ds == 0 {
        mag
    } else {
        full - mag
    }
}

/// A code's level and sign.
pub fn reconst(rate: Rate, i: u32) -> (r: (u32, u32))
    requires
        i < rate.code_count(),
    ensures
        r.0 == rate.level(i as int),
        r.1 == rate.sign_of(i as int),
        r.0 <= 566 || r.0 == 2048 || r.0 == 4030,
{
    let level: u16 = match rate {
        Rate::R16 => G726_DQLN_16[i as usize],
        Rate::R24 => G726_DQLN_24[i as usize],
        Rate::R32 => G726_DQLN_32[i as usize],
        Rate::R40 => G726_DQLN_40[i as usize],
    };
    let sign: u32 = if 2 * i <= rate.code_mask() {
        0
    } else {
        1
    };
    (level as u32, sign)
}

/// The level of a code falls into the code's own quantizer interval, except
/// where the level stands for no difference at all.
pub proof fn levels_quantize_to_their_code(rate: Rate, code: int)
    requires
        0 <= code < rate.code_count(),
        rate.level(code) != 2048,
    ensures
        quan_code(rate, rate.sign_of(code), rate.level(code)) == code,
{
    reveal_with_fuel(reached, 16);
}

// ---- Logarithms ----

/// The exponent of a magnitude's logarithm, at most 14.
pub open spec fn log_exponent(m: int) -> int {
    if m < 2 {
        0
    } else if bit_length(m) - 1 > 14 {
        14
    } else {
        bit_length(m) - 1
    }
}

/// The logarithm of a magnitude: the exponent, and seven bits of what follows
/// the leading one.
pub open spec fn log_of(m: int) -> int {
    let e = log_exponent(m);
    128 * e + ((128 * m) / two_to(e)) % 128
}

/// The magnitude of a 16-bit word's signed value, cut to 15 bits.
pub open spec fn magnitude15(w: int) -> int {
    magnitude(signed_of(w, 65536)) % 32768
}

/// The magnitude that a 12-bit log level stands for; none for a negative one.
pub open spec fn antilog_of(dql: int) -> int {
    if dql >= 2048 {
        0
    } else {
        ((128 + dql % 128) * two_to(dql / 128)) / 128
    }
}

/// The magnitude of a 16-bit word's signed value, cut to 15 bits.
fn magnitude15_of(w: u32) -> (r: u32)
    requires
        w < 65536,
    ensures
        r == magnitude15(w as int),
        r < 32768,
{
    if w < 32768 {
        w
    } else {
        (65536 - w) % 32768
    }
}

/// The logarithm and the sign of a 16-bit difference.
pub fn log(d: u32) -> (r: (u32, u32))
    requires
        d < 65536,
    ensures
        r.0 == log_of(magnitude15(d as int)),
        r.1 == (if d < 32768 { 0int } else { 1int }),
        r.0 < 2048,
{
    let m: u32 = magnitude15_of(d);
    let length: u32 = bit_length_of(m);
    proof {
        two_to_values();
        bit_length_limit(m as int, 15);
        bit_length_bounds(m as int);
        if m >= 2 && length < 2 {
            two_to_monotonic(length as int, 1);
        }
    }
    let e: u32 = if m < 2 {
        0
    } else if length > 15 {
        14
    } else {
        length - 1
    };
    let p: u64 = power_of_two(e);
    let mantissa: u32 = (((128 * m as u64) / p) % 128) as u32;
    (128 * e + mantissa, if d < 32768 {
        0
    } else {
        1
    })
}

/// The difference that a 12-bit log level and a sign stand for: 15 bits of
/// magnitude below the sign.
pub fn antilog(dql: u32, dqs: u32) -> (r: u32)
    requires
        dql < 1920 || 2048 <= dql < 4096,
        dqs <= 1,
    ensures
        r == 32768 * dqs + antilog_of(dql as int),
        0 <= antilog_of(dql as int) < 32768,
{
    proof {
        two_to_values();
    }
    let mag: u32 = if dql >= 2048 {
        0
    } else {
        let p: u64 = power_of_two(dql / 128);
        let m: u64 = 128 + (dql % 128) as u64;
        proof {
            two_to_monotonic(dql as int / 128, 14);
            assert(m * p <= 255 * 16384) by (nonlinear_arith)
                requires
                    m <= 255,
                    p <= 16384,
            ;
        }
        ((m * p) / 128) as u32
    };
    32768 * dqs + mag
}

// ---- Floating words ----

/// An 11-bit floating word: a sign, four bits of exponent (the magnitude's bit
/// length) and six bits of mantissa (its leading bits).
pub open spec fn float_word(sign: int, m: int) -> int {
    1024 * sign + 64 * bit_length(m) + (if m == 0 {
        32
    } else {
        (64 * m) / two_to(bit_length(m))
    })
}

/// The leading six bits of a magnitude.
fn mantissa_of(m: u32) -> (r: (u32, u32))
    requires
        m < 32768,
    ensures
        r.0 == bit_length(m as int),
        r.1 == (if m == 0 {
            32
        } else {
            (64 * m as int) / two_to(bit_length(m as int))
        }),
        r.0 <= 15,
        32 <= r.1 < 64,
        m < 8192 ==> r.0 <= 13,
{
    let e: u32 = bit_length_of(m);
    proof {
        two_to_values();
        bit_length_limit(m as int, 15);
        bit_length_bounds(m as int);
        if m < 8192 {
            bit_length_limit(m as int, 13);
        }
    }
    if m == 0 {
        (e, 32)
    } else {
        let p: u64 = power_of_two(e);
        let q: u64 = (64 * m as u64) / p;
        proof {
            let pi = p as int;
            let mi = m as int;
            let qi = q as int;
            assert(pi == 2 * two_to(e - 1));
            assert(32 <= qi < 64) by (nonlinear_arith)
                requires
                    qi == (64 * mi) / pi,
                    pi > 0,
                    mi < pi,
                    pi <= 2 * mi,
            ;
        }
        (e, q as u32)
    }
}

/// The floating word of a sign and a 15-bit magnitude.
fn float_of(sign: u32, m: u32) -> (r: u32)
    requires
        sign <= 1,
        m < 32768,
    ensures
        r == float_word(sign as int, m as int),
        r < 2048,
{
    let f: (u32, u32) = mantissa_of(m);
    1024 * sign + 64 * f.0 + f.1
}

/// The floating word of a 16-bit signal.
pub fn floatb(sr: u32) -> (r: u32)
    requires
        sr < 65536,
    ensures
        r == float_word(if sr < 32768 { 0 } else { 1 }, magnitude15(sr as int)),
        r < 2048,
{
    let m: u32 = magnitude15_of(sr);
    float_of(if sr < 32768 {
        0
    } else {
        1
    }, m)
}

/// The magnitude of a coefficient in quarters, the fraction rounded towards
/// negative infinity of the signed value, cut to 13 bits.
pub open spec fn coefficient_magnitude(an: int) -> int {
    if an >= 0 {
        an / 4
    } else {
        ((3 - an) / 4) % 8192
    }
}

/// The product of a coefficient (signed) and a floating word: the mantissas
/// are multiplied with rounding and the exponents added; the magnitude is cut
/// to 15 bits.
#[verifier::opaque]
pub open spec fn product(an: int, f: int) -> int {
    let m = coefficient_magnitude(an);
    let e = bit_length(m);
    let mantissa = if m == 0 {
        32
    } else {
        (64 * m) / two_to(e)
    };
    let w = ((f % 64) * mantissa + 48) / 16;
    let mag = ((w * two_to((f / 64) % 16 + e)) / 524288) % 32768;
    if (f >= 1024) == (an < 0) {
        mag
    } else {
        -mag
    }
}

/// The product of a coefficient (a 16-bit word) and a floating word, as a
/// 16-bit word.
pub fn fmult(an: u32, srn: u32) -> (r: u32)
    requires
        an < 65536,
        srn < 2048,
    ensures
        r == product(signed_of(an as int, 65536), srn as int) % 65536,
        r < 65536,
        -32767 <= product(signed_of(an as int, 65536), srn as int) <= 32767,
{
    proof {
        reveal(product);
    }
    let m: u32 = if an < 32768 {
        an / 4
    } else {
        ((65536 - an + 3) / 4) % 8192
    };
    let f: (u32, u32) = mantissa_of(m);
    let e: u32 = (srn / 64) % 16 + f.0;
    let p: u64 = power_of_two(e);
    let a: u64 = (srn % 64) as u64;
    let b: u64 = f.1 as u64;
    proof {
        assert(a * b <= 63 * 63) by (nonlinear_arith)
            requires
                a <= 63,
                b <= 63,
        ;
        two_to_values();
        two_to_adds(14, 14);
        two_to_monotonic(e as int, 28);
    }
    let w: u64 = (a * b + 48) / 16;
    proof {
        assert(w * p <= 300 * 0x1000_0000) by (nonlinear_arith)
            requires
                w <= 300,
                p <= 0x1000_0000,
        ;
    }
    let mag: u32 = (((w * p) / 524288) % 32768) as u32;
    if (srn >= 1024) == (an >= 32768) || mag == 0 {
        mag
    } else {
        65536 - mag
    }
}

// ---- The state ----

/// The state of one coder or decoder.
#[derive(Clone, Copy, Debug)]
pub struct State {
    /// The rate.
    pub rate: Rate,
    /// The slow scale factor, times 64.
    pub yl: u32,
    /// The fast scale factor.
    pub yu: u32,
    /// The short-term average of the weights.
    pub dms: u32,
    /// The long-term average of the weights.
    pub dml: u32,
    /// The speed of adaptation.
    pub ap: u32,
    /// The first pole coefficient, a 16-bit word.
    pub a1: u32,
    /// The second pole coefficient, a 16-bit word.
    pub a2: u32,
    /// The zero coefficients, 16-bit words.
    pub b: [u32; 6],
    /// The last quantized differences, floating words, the newest first.
    pub dq: [u32; 6],
    /// The last reconstructed signals, floating words, the newest first.
    pub sr: [u32; 2],
    /// Whether the last partial reconstruction was negative.
    pub pk1: u32,
    /// Whether the partial reconstruction before the last was negative.
    pub pk2: u32,
    /// Whether a tone has been detected.
    pub td: u32,
}

/// The state, with coefficients by their signed values.
#[verifier::ext_equal]
pub struct CodecModel {
    pub rate: Rate,
    pub yl: int,
    pub yu: int,
    pub dms: int,
    pub dml: int,
    pub ap: int,
    pub a1: int,
    pub a2: int,
    pub b: Seq<int>,
    pub dq: Seq<int>,
    pub sr: Seq<int>,
    pub pk1: int,
    pub pk2: int,
    pub td: int,
}

impl View for State {
    type V = CodecModel;

    open spec fn view(&self) -> CodecModel {
        CodecModel {
            rate: self.rate,
            yl: self.yl as int,
            yu: self.yu as int,
            dms: self.dms as int,
            dml: self.dml as int,
            ap: self.ap as int,
            a1: signed_of(self.a1 as int, 65536),
            a2: signed_of(self.a2 as int, 65536),
            b: Seq::new(6, |n: int| signed_of(self.b[n] as int, 65536)),
            dq: Seq::new(6, |n: int| self.dq[n] as int),
            sr: Seq::new(2, |n: int| self.sr[n] as int),
            pk1: self.pk1 as int,
            pk2: self.pk2 as int,
            td: self.td as int,
        }
    }
}

impl CodecModel {
    /// Every quantity is within its bounds.
    pub open spec fn wf(self) -> bool {
        &&& 34816 <= self.yl <= 327680
        &&& 544 <= self.yu <= 5120
        &&& 0 <= self.dms < 4096
        &&& 0 <= self.dml < 16384
        &&& 0 <= self.ap < 1024
        &&& -12288 <= self.a2 <= 12288
        &&& self.a2 - 15360 <= self.a1 <= 15360 - self.a2
        &&& self.b.len() == 6
        &&& forall|n: int| 0 <= n < 6 ==> -32768 <= #[trigger] self.b[n] <= 32767
        &&& self.dq.len() == 6
        &&& forall|n: int| 0 <= n < 6 ==> 0 <= #[trigger] self.dq[n] < 2048
        &&& self.sr.len() == 2
        &&& forall|n: int| 0 <= n < 2 ==> 0 <= #[trigger] self.sr[n] < 2048
        &&& 0 <= self.pk1 <= 1
        &&& 0 <= self.pk2 <= 1
        &&& 0 <= self.td <= 1
    }
}

impl State {
    /// Every word has its width and every quantity is within its bounds.
    pub open spec fn wf(self) -> bool {
        &&& self@.wf()
        &&& self.a1 < 65536
        &&& self.a2 < 65536
        &&& forall|n: int| 0 <= n < 6 ==> (#[trigger] self.b[n]) < 65536
    }
}

/// The state that coding starts from.
pub open spec fn initial(rate: Rate) -> CodecModel {
    CodecModel {
        rate,
        yl: 34816,
        yu: 544,
        dms: 0,
        dml: 0,
        ap: 0,
        a1: 0,
        a2: 0,
        b: seq![0, 0, 0, 0, 0, 0],
        dq: seq![32, 32, 32, 32, 32, 32],
        sr: seq![32, 32],
        pk1: 0,
        pk2: 0,
        td: 0,
    }
}

/// The weight of the fast scale factor, in sixty-fourths.
pub open spec fn speed_limit(ap: int) -> int {
    if ap >= 256 {
        64
    } else {
        ap / 4
    }
}

/// The scale factor: between the slow and the fast one, by the speed of
/// adaptation.
#[verifier::opaque]
pub open spec fn scale(s: CodecModel) -> int {
    let slow = s.yl / 64;
    let d = s.yu - slow;
    let al = speed_limit(s.ap);
    if d >= 0 {
        slow + (d * al) / 64
    } else {
        slow - ((-d) * al) / 64
    }
}

/// The sum of the first `n` zero products.
pub open spec fn zero_sum(s: CodecModel, n: int) -> int
    decreases n,
{
    if n <= 0 {
        0
    } else {
        zero_sum(s, n - 1) + product(s.b[n - 1], s.dq[n - 1])
    }
}

/// The estimate from the zero coefficients.
#[verifier::opaque]
pub open spec fn partial_estimate(s: CodecModel) -> int {
    wrap16(zero_sum(s, 6)) / 2
}

/// The estimate of the signal.
#[verifier::opaque]
pub open spec fn estimate(s: CodecModel) -> int {
    wrap16(zero_sum(s, 6) + product(s.a2, s.sr[1]) + product(s.a1, s.sr[0])) / 2
}

/// The magnitude of the difference that a code stands for.
#[verifier::opaque]
pub open spec fn difference_magnitude(s: CodecModel, code: int) -> int {
    antilog_of((s.rate.level(code) + scale(s) / 4) % 4096)
}

/// The difference that a code stands for.
pub open spec fn difference(s: CodecModel, code: int) -> int {
    if s.rate.sign_of(code) == 0 {
        difference_magnitude(s, code)
    } else {
        -difference_magnitude(s, code)
    }
}

/// The reconstructed signal behind a code.
pub open spec fn reconstructed(s: CodecModel, code: int) -> int {
    wrap16(difference(s, code) + estimate(s))
}

/// The scale factor is between the bounds of the fast one.
pub proof fn scale_range(s: CodecModel)
    requires
        s.wf(),
    ensures
        544 <= scale(s) <= 5120,
{
    reveal(scale);
    let slow = s.yl / 64;
    let d = s.yu - slow;
    let al = speed_limit(s.ap);
    if d >= 0 {
        assert(0 <= (d * al) / 64 <= d) by (nonlinear_arith)
            requires
                0 <= d,
                0 <= al <= 64,
        ;
    } else {
        let m = -d;
        assert(0 <= (m * al) / 64 <= m) by (nonlinear_arith)
            requires
                0 <= m,
                0 <= al <= 64,
        ;
    }
}

/// Limits the fast scale factor.
pub fn limb(yut: u32) -> (r: u32)
    ensures
        r == clamp(yut as int, 544, 5120),
{
    if yut < 544 {
        544
    } else if yut > 5120 {
        5120
    } else {
        yut
    }
}

/// Limits the speed of adaptation.
pub fn lima(ap: u32) -> (r: u32)
    ensures
        r == speed_limit(ap as int),
        r <= 64,
{
    if ap >= 256 {
        64
    } else {
        ap / 4
    }
}

/// Detects a tone from the second pole coefficient.
pub open spec fn is_tone(a2: int) -> bool {
    a2 < -11776
}

/// Detects a tone from the second pole coefficient, a 16-bit word.
pub fn tone(a2p: u32) -> (r: u32)
    requires
        a2p < 65536,
    ensures
        r == (if is_tone(signed_of(a2p as int, 65536)) { 1int } else { 0int }),
{
    if 32768 <= a2p && a2p < 53760 {
        1
    } else {
        0
    }
}

impl State {
    /// The state that coding starts from.
    pub fn new(rate: Rate) -> (r: State)
        ensures
            r@ == initial(rate),
            r.wf(),
    {
        let r: State = State {
            rate,
            yl: 34816,
            yu: 544,
            dms: 0,
            dml: 0,
            ap: 0,
            a1: 0,
            a2: 0,
            b: [0, 0, 0, 0, 0, 0],
            dq: [32, 32, 32, 32, 32, 32],
            sr: [32, 32],
            pk1: 0,
            pk2: 0,
            td: 0,
        };
        assert(r@ =~= initial(rate));
        r
    }

    /// The rate.
    pub fn rate(&self) -> (r: Rate)
        ensures
            r == self.rate,
    {
        self.rate
    }

    /// Changes the rate and keeps everything else.
    pub fn set_rate(&mut self, rate: Rate)
        requires
            old(self).wf(),
        ensures
            final(self).wf(),
            final(self)@ == (CodecModel { rate, ..old(self)@ }),
    {
        self.rate = rate;
        assert(self@ =~= CodecModel { rate, ..old(self)@ });
    }

    /// Goes back to the state that coding starts from, at the current rate.
    pub fn reset(&mut self)
        ensures
            final(self)@ == initial(old(self).rate),
            final(self).wf(),
    {
        *self = State::new(self.rate);
    }

    /// The scale factor.
    pub fn scale_factor(&self) -> (r: u32)
        requires
            self.wf(),
        ensures
            r == scale(self@),
            544 <= r <= 5120,
    {
        proof {
            scale_range(self@);
            reveal(scale);
        }
        let slow: u32 = self.yl / 64;
        let al: u32 = lima(self.ap);
        if self.yu >= slow {
            let d: u32 = self.yu - slow;
            assert(d * al <= 8192 * 64) by (nonlinear_arith)
                requires
                    d <= 8192,
                    al <= 64,
            ;
            slow + (d * al) / 64
        } else {
            let d: u32 = slow - self.yu;
            assert(d * al <= 8192 * 64) by (nonlinear_arith)
                requires
                    d <= 8192,
                    al <= 64,
            ;
            slow - (d * al) / 64
        }
    }

    /// The estimate of the signal, and the estimate from the zero coefficients.
    fn predict(&self) -> (r: (i32, i32))
        requires
            self.wf(),
        ensures
            r.0 == estimate(self@),
            r.1 == partial_estimate(self@),
            -16384 <= r.0 <= 16383,
            -16384 <= r.1 <= 16383,
    {
        proof {
            reveal(estimate);
            reveal(partial_estimate);
        }
        let mut sum: u32 = 0;
        let mut n: usize = 0;
        while n < 6
            invariant
                n <= 6,
                self.wf(),
                sum == zero_sum(self@, n as int) % 65536,
            decreases 6 - n,
        {
            assert(self.dq[n as int] == self@.dq[n as int]);
            assert(self@.b[n as int] == signed_of(self.b[n as int] as int, 65536));
            let p: u32 = fmult(self.b[n], self.dq[n]);
            proof {
                word_sum(zero_sum(self@, n as int), product(self@.b[n as int], self@.dq[n as int]));
            }
            sum = (sum + p) % 65536;
            n = n + 1;
        }
        assert(self.sr[0] == self@.sr[0] && self.sr[1] == self@.sr[1]);
        let ghost zero = zero_sum(self@, 6);
        let ghost second = product(self@.a2, self@.sr[1]);
        let ghost first = product(self@.a1, self@.sr[0]);
        let p2: u32 = fmult(self.a2, self.sr[1]);
        let p1: u32 = fmult(self.a1, self.sr[0]);
        let most: u32 = (sum + p2) % 65536;
        let full: u32 = (most + p1) % 65536;
        proof {
            word_sum(zero, second);
            word_sum(zero + second, first);
        }
        (half(full), half(sum))
    }
}

/// Half of the signed value of a 16-bit word, rounded down.
fn half(w: u32) -> (r: i32)
    requires
        w < 65536,
    ensures
        r == signed_of(w as int, 65536) / 2,
        -16384 <= r <= 16383,
{
    if w < 32768 {
        (w / 2) as i32
    } else {
        (w / 2) as i32 - 32768
    }
}

// ---- Adaptation ----

/// The fast scale factor behind a code.
#[verifier::opaque]
pub open spec fn next_fast(s: CodecModel, code: int) -> int {
    let y = scale(s);
    clamp(y + (32 * s.rate.multiplier(s.rate.magnitude_of(code)) - y) / 32, 544, 5120)
}

/// The slow scale factor behind a code.
#[verifier::opaque]
pub open spec fn next_slow(s: CodecModel, code: int) -> int {
    s.yl + next_fast(s, code) + (-s.yl) / 64
}

/// The short-term average of the weights behind a code.
#[verifier::opaque]
pub open spec fn next_short(s: CodecModel, code: int) -> int {
    s.dms + (512 * s.rate.weight(s.rate.magnitude_of(code)) - s.dms) / 32
}

/// The long-term average of the weights behind a code.
#[verifier::opaque]
pub open spec fn next_long(s: CodecModel, code: int) -> int {
    s.dml + (2048 * s.rate.weight(s.rate.magnitude_of(code)) - s.dml) / 128
}

/// The partial reconstruction behind a code.
pub open spec fn partial_reconstruction(s: CodecModel, code: int) -> int {
    wrap16(difference(s, code) + partial_estimate(s))
}

/// Whether the partial reconstruction behind a code is negative.
pub open spec fn partial_sign(s: CodecModel, code: int) -> int {
    if partial_reconstruction(s, code) < 0 {
        1
    } else {
        0
    }
}

/// The second pole coefficient behind a code: it grows with agreeing signs,
/// leans on the first one, leaks, and stays within three quarters.
#[verifier::opaque]
pub open spec fn next_a2(s: CodecModel, code: int) -> int {
    let pk0 = partial_sign(s, code);
    let f = 4 * clamp(s.a1, -8191, 8191);
    let gain = (if pk0 == s.pk2 { 16384int } else { -16384int }) + (if pk0 != s.pk1 {
        f
    } else {
        -f
    });
    let u = if partial_reconstruction(s, code) == 0 {
        0
    } else {
        gain / 128
    };
    clamp(s.a2 + u - s.a2 / 128, -12288, 12288)
}

/// The first pole coefficient behind a code: it grows with agreeing signs,
/// leaks, and stays where the predictor is stable.
#[verifier::opaque]
pub open spec fn next_a1(s: CodecModel, code: int) -> int {
    let u: int = if partial_reconstruction(s, code) == 0 {
        0
    } else if partial_sign(s, code) == s.pk1 {
        192
    } else {
        -192
    };
    let bound = 15360 - next_a2(s, code);
    clamp(s.a1 + u - s.a1 / 256, -bound, bound)
}

/// Zero coefficient `n` behind a code: it grows with agreeing signs and leaks.
#[verifier::opaque]
pub open spec fn next_b(s: CodecModel, code: int, n: int) -> int {
    let u: int = if difference_magnitude(s, code) == 0 {
        0
    } else if (s.rate.sign_of(code) == 1) == (s.dq[n] >= 1024) {
        128
    } else {
        -128
    };
    let leak = if s.rate == Rate::R40 {
        s.b[n] / 512
    } else {
        s.b[n] / 256
    };
    wrap16(s.b[n] + u - leak)
}

/// How large a difference marks a transition.
#[verifier::opaque]
pub open spec fn transition_threshold(yl: int) -> int {
    let t = if yl / 32768 > 9 {
        31744
    } else {
        (32 + (yl / 1024) % 32) * two_to(yl / 32768)
    };
    (t + t / 2) / 2
}

/// Whether a code is a transition out of a tone.
#[verifier::opaque]
pub open spec fn transition(s: CodecModel, code: int) -> bool {
    s.td == 1 && difference_magnitude(s, code) > transition_threshold(s.yl)
}

/// The speed of adaptation behind a code that is no transition: towards slow
/// where the averages agree, the scale is not small and there is no tone.
#[verifier::opaque]
pub open spec fn next_speed(s: CodecModel, code: int) -> int {
    let short = next_short(s, code);
    let long = next_long(s, code);
    let ax: int = if scale(s) >= 1536 && magnitude(4 * short - long) < long / 8 && !is_tone(
        next_a2(s, code),
    ) {
        0
    } else {
        1
    };
    s.ap + (512 * ax - s.ap) / 16
}

/// The state behind a code.
#[verifier::opaque]
pub open spec fn next(s: CodecModel, code: int) -> CodecModel {
    let tr = transition(s, code);
    let sr = reconstructed(s, code);
    CodecModel {
        rate: s.rate,
        yl: next_slow(s, code),
        yu: next_fast(s, code),
        dms: next_short(s, code),
        dml: next_long(s, code),
        ap: if tr {
            256
        } else {
            next_speed(s, code)
        },
        a1: if tr {
            0
        } else {
            next_a1(s, code)
        },
        a2: if tr {
            0
        } else {
            next_a2(s, code)
        },
        b: Seq::new(
            6,
            |n: int|
                if tr {
                    0
                } else {
                    next_b(s, code, n)
                },
        ),
        dq: Seq::new(
            6,
            |n: int|
                if n == 0 {
                    float_word(s.rate.sign_of(code), difference_magnitude(s, code))
                } else {
                    s.dq[n - 1]
                },
        ),
        sr: Seq::new(
            2,
            |n: int|
                if n == 0 {
                    float_word(if sr < 0 { 1 } else { 0 }, magnitude(sr) % 32768)
                } else {
                    s.sr[0]
                },
        ),
        pk1: partial_sign(s, code),
        pk2: s.pk1,
        td: if !tr && is_tone(next_a2(s, code)) {
            1
        } else {
            0
        },
    }
}

/// Wrapping gives a signed 16-bit value.
proof fn wrap16_range(x: int)
    ensures
        -32768 <= wrap16(x) <= 32767,
{
}

/// The log level of a code lies where it has an antilogarithm.
proof fn level_range(rate: Rate, code: int, y: int)
    requires
        0 <= code < rate.code_count(),
        544 <= y <= 5120,
    ensures
        ({
            let dql = (rate.level(code) + y / 4) % 4096;
            0 <= dql < 1920 || 2048 <= dql < 4096
        }),
{
    let l = rate.level(code);
    assert(0 <= l <= 566 || l == 2048 || l == 4030);
}

/// Floor division.
fn floor_div(x: i32, d: i32) -> (r: i32)
    requires
        0 < d,
        -0x1000_0000 <= x <= 0x1000_0000,
    ensures
        r == x as int / d as int,
        -0x1000_0000 <= r <= 0x1000_0000,
{
    let q: i64 = crate::arith::div_floor(x as i64, d as i64);
    assert(-0x1000_0000 <= q <= 0x1000_0000) by (nonlinear_arith)
        requires
            q == x as int / d as int,
            0 < d,
            -0x1000_0000 <= x <= 0x1000_0000,
    ;
    q as i32
}

/// The second pole coefficient.
fn second_pole(z: i32, pk0: u32, pk1: u32, pk2: u32, a1: i32, a2: i32) -> (r: i32)
    requires
        -32768 <= z <= 32767,
        -32768 <= a1 <= 32767,
        -12288 <= a2 <= 12288,
    ensures
        ({
            let f = 4 * clamp(a1 as int, -8191, 8191);
            let gain = (if pk0 == pk2 { 16384int } else { -16384int }) + (if pk0 != pk1 {
                f
            } else {
                -f
            });
            let u = if z == 0 {
                0
            } else {
                gain / 128
            };
            r == clamp(a2 + u - a2 as int / 128, -12288, 12288)
        }),
{
    let f: i32 = 4 * clamp_i32(a1, -8191, 8191);
    let base: i32 = if pk0 == pk2 {
        16384
    } else {
        -16384
    };
    let gain: i32 = if pk0 != pk1 {
        base + f
    } else {
        base - f
    };
    let u: i32 = if z == 0 {
        0
    } else {
        floor_div(gain, 128)
    };
    clamp_i32(a2 + u - floor_div(a2, 128), -12288, 12288)
}

/// The first pole coefficient.
fn first_pole(z: i32, pk0: u32, pk1: u32, a1: i32, a2p: i32) -> (r: i32)
    requires
        -32768 <= a1 <= 32767,
        -12288 <= a2p <= 12288,
    ensures
        ({
            let u: int = if z == 0 {
                0
            } else if pk0 == pk1 {
                192
            } else {
                -192
            };
            let bound = 15360 - a2p;
            r == clamp(a1 + u - a1 as int / 256, -bound, bound)
        }),
{
    let u: i32 = if z == 0 {
        0
    } else if pk0 == pk1 {
        192
    } else {
        -192
    };
    let bound: i32 = 15360 - a2p;
    clamp_i32(a1 + u - floor_div(a1, 256), -bound, bound)
}

/// A zero coefficient.
fn zero_coefficient(rate: Rate, mag: u32, same_sign: bool, b: i32) -> (r: u32)
    requires
        -32768 <= b <= 32767,
    ensures
        r < 65536,
        ({
            let u: int = if mag == 0 {
                0
            } else if same_sign {
                128
            } else {
                -128
            };
            let leak = if rate == Rate::R40 {
                b as int / 512
            } else {
                b as int / 256
            };
            signed_of(r as int, 65536) == wrap16(b + u - leak)
        }),
{
    let u: i32 = if mag == 0 {
        0
    } else if same_sign {
        128
    } else {
        -128
    };
    let leak: i32 = if matches!(rate, Rate::R40) {
        floor_div(b, 512)
    } else {
        floor_div(b, 256)
    };
    word16(b + u - leak)
}

/// How large a difference marks a transition.
fn transition_threshold_of(yl: u32) -> (r: u32)
    requires
        yl <= 327680,
    ensures
        r == transition_threshold(yl as int),
{
    proof {
        reveal(transition_threshold);
    }
    let whole: u32 = yl / 32768;
    proof {
        two_to_values();
    }
    let t: u64 = if whole > 9 {
        31744
    } else {
        let p: u64 = power_of_two(whole);
        let m: u64 = (32 + (yl / 1024) % 32) as u64;
        proof {
            two_to_monotonic(whole as int, 9);
            assert(m * p <= 63 * 512) by (nonlinear_arith)
                requires
                    m <= 63,
                    p <= 512,
            ;
        }
        m * p
    };
    ((t + t / 2) / 2) as u32
}

/// The speed of adaptation.
fn speed_of(y: u32, short: i32, long: i32, tone_found: bool, ap: u32) -> (r: i32)
    requires
        0 <= short < 4096,
        0 <= long < 16384,
        ap < 1024,
    ensures
        ({
            let ax: int = if y >= 1536 && magnitude(4 * short - long) < long as int / 8
                && !tone_found {
                0
            } else {
                1
            };
            r == ap + (512 * ax - ap) / 16
        }),
        0 <= r < 1024,
{
    let d: i32 = 4 * short - long;
    let m: i32 = if d < 0 {
        -d
    } else {
        d
    };
    let target: i32 = if y >= 1536 && m < long / 8 && !tone_found {
        0
    } else {
        512
    };
    ap as i32 + floor_div(target - ap as i32, 16)
}

/// The scale factors stay within their bounds.
proof fn next_scales_range(s: CodecModel, code: int)
    requires
        s.wf(),
        0 <= code < s.rate.code_count(),
    ensures
        544 <= next_fast(s, code) <= 5120,
        34816 <= next_slow(s, code) <= 327680,
        0 <= next_short(s, code) < 4096,
        0 <= next_long(s, code) < 16384,
        0 <= next_speed(s, code) < 1024,
{
    reveal(next_fast);
    reveal(next_slow);
    reveal(next_short);
    reveal(next_long);
    reveal(next_speed);
    let w = s.rate.weight(s.rate.magnitude_of(code));
    assert(0 <= w <= 7);
}

/// The difference of a code fits 15 bits, and its floating word 11.
proof fn difference_range(s: CodecModel, code: int)
    requires
        s.wf(),
        0 <= code < s.rate.code_count(),
    ensures
        0 <= difference_magnitude(s, code) < 32768,
{
    reveal(difference_magnitude);
    scale_range(s);
    let y = scale(s);
    level_range(s.rate, code, y);
    let dql = (s.rate.level(code) + y / 4) % 4096;
    if dql < 1920 {
        two_to_values();
        two_to_monotonic(dql / 128, 14);
        two_to_positive(dql / 128);
        let m = 128 + dql % 128;
        let p = two_to(dql / 128);
        assert(0 <= m * p <= 255 * 16384) by (nonlinear_arith)
            requires
                0 <= m <= 255,
                0 <= p <= 16384,
        ;
    }
}

/// A floating word is 11 bits wide.
proof fn float_word_range(sign: int, m: int)
    requires
        0 <= sign <= 1,
        0 <= m < 32768,
    ensures
        0 <= float_word(sign, m) < 2048,
{
    two_to_values();
    bit_length_limit(m, 15);
    bit_length_bounds(m);
    if m > 0 {
        let p = two_to(bit_length(m));
        assert(0 <= (64 * m) / p < 64) by (nonlinear_arith)
            requires
                0 <= m < p,
        ;
    }
}

/// Every code keeps the state within its bounds.
pub proof fn next_wf(s: CodecModel, code: int)
    requires
        s.wf(),
        0 <= code < s.rate.code_count(),
    ensures
        next(s, code).wf(),
{
    reveal(next);
    next_scales_range(s, code);
    difference_range(s, code);
    float_word_range(s.rate.sign_of(code), difference_magnitude(s, code));
    let sr = reconstructed(s, code);
    float_word_range(if sr < 0 { 1 } else { 0 }, magnitude(sr) % 32768);
    let t = next(s, code);
    assert forall|n: int| 0 <= n < 6 implies -32768 <= #[trigger] t.b[n] <= 32767 by {
        reveal(next_b);
    }
    assert forall|n: int| 0 <= n < 6 implies 0 <= #[trigger] t.dq[n] < 2048 by {
        if n > 0 {
            assert(0 <= s.dq[n - 1] < 2048);
        }
    }
    assert(0 <= s.sr[0] < 2048);
    reveal(next_a1);
    reveal(next_a2);
}

impl State {
    /// The magnitude of the difference that a code stands for, and whether it
    /// is negative.
    fn quantized(&self, i: u32, y: u32) -> (r: (u32, bool))
        requires
            self.wf(),
            i < self.rate.code_count(),
            y == scale(self@),
        ensures
            r.0 == difference_magnitude(self@, i as int),
            r.0 < 32768,
            r.1 == (self.rate.sign_of(i as int) == 1),
    {
        proof {
            reveal(difference_magnitude);
            scale_range(self@);
            level_range(self.rate, i as int, y as int);
        }
        let rec: (u32, u32) = reconst(self.rate, i);
        let dql: u32 = (rec.0 + y / 4) % 4096;
        assert(dql == (self.rate.level(i as int) + scale(self@) / 4) % 4096);
        let dq: u32 = antilog(dql, rec.1);
        (dq % 32768, rec.1 == 1)
    }

    /// The scale factors behind a code, the fast and the slow one.
    fn next_scales(&self, i: u32, y: u32) -> (r: (i32, i32))
        requires
            self.wf(),
            i < self.rate.code_count(),
            y == scale(self@),
        ensures
            r.0 == next_fast(self@, i as int),
            r.1 == next_slow(self@, i as int),
    {
        proof {
            reveal(next_fast);
            reveal(next_slow);
            scale_range(self@);
        }
        let m: u32 = self.rate.code_magnitude(i);
        let w: i32 = self.rate.multiplier_of(m);
        let fast: i32 = clamp_i32(y as i32 + floor_div(32 * w - y as i32, 32), 544, 5120);
        let slow: i32 = self.yl as i32 + fast + floor_div(-(self.yl as i32), 64);
        (fast, slow)
    }

    /// The averages of the weights behind a code, short-term and long-term.
    fn next_averages(&self, i: u32) -> (r: (i32, i32))
        requires
            self.wf(),
            i < self.rate.code_count(),
        ensures
            r.0 == next_short(self@, i as int),
            r.1 == next_long(self@, i as int),
    {
        proof {
            reveal(next_short);
            reveal(next_long);
        }
        let w: i32 = self.rate.weight_of(self.rate.code_magnitude(i));
        let short: i32 = self.dms as i32 + floor_div(512 * w - self.dms as i32, 32);
        let long: i32 = self.dml as i32 + floor_div(2048 * w - self.dml as i32, 128);
        (short, long)
    }

    /// The pole coefficients behind a code whose partial reconstruction is `z`,
    /// the first and the second one.
    fn next_poles(&self, i: u32, z: i32, pk0: u32) -> (r: (i32, i32))
        requires
            self.wf(),
            z == partial_reconstruction(self@, i as int),
            pk0 == partial_sign(self@, i as int),
        ensures
            r.0 == next_a1(self@, i as int),
            r.1 == next_a2(self@, i as int),
            -12288 <= r.1 <= 12288,
            -27648 <= r.0 <= 27648,
    {
        proof {
            reveal(next_a1);
            reveal(next_a2);
            wrap16_range(difference(self@, i as int) + partial_estimate(self@));
        }
        let a1: i32 = signed16(self.a1);
        let a2: i32 = signed16(self.a2);
        let a2p: i32 = second_pole(z, pk0, self.pk1, self.pk2, a1, a2);
        let a1p: i32 = first_pole(z, pk0, self.pk1, a1, a2p);
        (a1p, a2p)
    }

    /// Moves the state behind a code and returns the reconstructed signal.
    fn update(&mut self, i: u32, y: u32, se: i32, sez: i32) -> (sr: i32)
        requires
            old(self).wf(),
            i < old(self).rate.code_count(),
            y == scale(old(self)@),
            se == estimate(old(self)@),
            sez == partial_estimate(old(self)@),
            -16384 <= se <= 16383,
            -16384 <= sez <= 16383,
        ensures
            final(self).wf(),
            final(self)@ == next(old(self)@, i as int),
            sr == reconstructed(old(self)@, i as int),
            -32768 <= sr <= 32767,
    {
        let ghost s = old(self)@;
        let ghost code = i as int;
        proof {
            next_scales_range(s, code);
            next_wf(s, code);
        }
        let q: (u32, bool) = self.quantized(i, y);
        let mag: u32 = q.0;
        let d: i32 = if q.1 {
            -(mag as i32)
        } else {
            mag as i32
        };
        assert(d == difference(s, code));
        let scales: (i32, i32) = self.next_scales(i, y);
        let averages: (i32, i32) = self.next_averages(i);
        let z: i32 = signed16(word16(d + sez));
        let pk0: u32 = if z < 0 {
            1
        } else {
            0
        };
        let srw: u32 = word16(d + se);
        let sr: i32 = signed16(srw);
        let sr0: u32 = floatb(srw);
        let dq0: u32 = float_of(if q.1 {
            1
        } else {
            0
        }, mag);
        let poles: (i32, i32) = self.next_poles(i, z, pk0);
        let tr: bool = self.td == 1 && mag > transition_threshold_of(self.yl);
        let found: bool = poles.1 < -11776;
        let speed: i32 = speed_of(y, averages.0, averages.1, found, self.ap);
        proof {
            reveal(transition);
            reveal(next_speed);
        }
        let coefficients: [u32; 6] = if tr {
            [0, 0, 0, 0, 0, 0]
        } else {
            self.next_zeros(i, mag, q.1)
        };
        let newest: [u32; 6] = [dq0, self.dq[0], self.dq[1], self.dq[2], self.dq[3], self.dq[4]];
        let signals: [u32; 2] = [sr0, self.sr[0]];
        let next_state: State = State {
            rate: self.rate,
            yl: scales.1 as u32,
            yu: scales.0 as u32,
            dms: averages.0 as u32,
            dml: averages.1 as u32,
            ap: if tr {
                256
            } else {
                speed as u32
            },
            a1: if tr {
                0
            } else {
                word16(poles.0)
            },
            a2: if tr {
                0
            } else {
                word16(poles.1)
            },
            b: coefficients,
            dq: newest,
            sr: signals,
            pk1: pk0,
            pk2: self.pk1,
            td: if !tr && found {
                1
            } else {
                0
            },
        };
        proof {
            reveal(next);
            let t = next(s, code);
            let u = next_state@;
            assert(u.b =~= t.b);
            assert(u.dq =~= t.dq);
            assert(sr0 == float_word(if sr < 0 { 1 } else { 0 }, magnitude(sr as int) % 32768));
            assert(u.sr =~= t.sr);
            assert(u =~= t);
        }
        *self = next_state;
        sr
    }

    /// The zero coefficients behind a code that is no transition.
    fn next_zeros(&self, i: u32, mag: u32, negative: bool) -> (r: [u32; 6])
        requires
            self.wf(),
            i < self.rate.code_count(),
            mag == difference_magnitude(self@, i as int),
            negative == (self.rate.sign_of(i as int) == 1),
        ensures
            forall|n: int|
                0 <= n < 6 ==> (#[trigger] r[n]) < 65536 && signed_of(r[n] as int, 65536) == next_b(
                    self@,
                    i as int,
                    n,
                ),
    {
        let mut r: [u32; 6] = [0, 0, 0, 0, 0, 0];
        let mut n: usize = 0;
        while n < 6
            invariant
                n <= 6,
                self.wf(),
                i < self.rate.code_count(),
                mag == difference_magnitude(self@, i as int),
                negative == (self.rate.sign_of(i as int) == 1),
                forall|q: int|
                    0 <= q < n ==> (#[trigger] r[q]) < 65536 && signed_of(r[q] as int, 65536)
                        == next_b(self@, i as int, q),
            decreases 6 - n,
        {
            proof {
                reveal(next_b);
            }
            assert(self@.dq[n as int] == self.dq[n as int]);
            assert(self@.b[n as int] == signed_of(self.b[n as int] as int, 65536));
            let same: bool = negative == (self.dq[n] >= 1024);
            r[n] = zero_coefficient(self.rate, mag, same, signed16(self.b[n]));
            n = n + 1;
        }
        r
    }
}

// ---- Coding ----

/// The code of a linear value: the quantized logarithm of its distance from the
/// estimate, relative to the scale factor.
#[verifier::opaque]
pub open spec fn input_code(s: CodecModel, sl: int) -> int {
    let d = (sl - estimate(s)) % 65536;
    let sign: int = if d < 32768 {
        0
    } else {
        1
    };
    quan_code(s.rate, sign, (log_of(magnitude15(d)) - scale(s) / 4) % 4096)
}

/// A code in the order of the values it stands for.
pub open spec fn ordered(rate: Rate, code: int) -> int {
    let half = rate.code_count() / 2;
    if code < half {
        code + half
    } else {
        code - half
    }
}

/// The log-PCM word of a code: the word of the reconstructed signal, moved one
/// level up or down where an encoder in this state would give it another code.
pub open spec fn output_word(s: CodecModel, code: int, law: Law) -> u8 {
    let sp = compressed(reconstructed(s, code) % 65536, law);
    let again = ordered(s.rate, input_code(s, expanded(sp, law)));
    if again == ordered(s.rate, code) {
        sp
    } else {
        neighbor(sp, law, again < ordered(s.rate, code))
    }
}

/// Codes are as wide as the rate says.
pub proof fn input_code_range(s: CodecModel, sl: int)
    ensures
        0 <= input_code(s, sl) < s.rate.code_count(),
{
    reveal(input_code);
    let d = (sl - estimate(s)) % 65536;
    let dln = (log_of(magnitude15(d)) - scale(s) / 4) % 4096;
    reached_range(s.rate, signed_of(dln, 4096), top_magnitude(s.rate));
}

/// Computes [`input_code`] from the estimate and the scale factor.
fn code_for(rate: Rate, sl: i32, se: i32, y: u32) -> (r: u32)
    requires
        -8192 <= sl <= 8191,
        -16384 <= se <= 16383,
        544 <= y <= 5120,
    ensures
        r < rate.code_count(),
        ({
            let d = (sl - se) % 65536;
            let sign: int = if d < 32768 {
                0
            } else {
                1
            };
            r == quan_code(rate, sign, (log_of(magnitude15(d)) - y as int / 4) % 4096)
        }),
{
    let l: (u32, u32) = log(word16(sl - se));
    let dln: u32 = (l.0 + 4096 - y / 4) % 4096;
    assert(dln == (l.0 - y as int / 4) % 4096);
    quan(rate, l.1, dln)
}

impl State {
    /// Encodes a 14-bit linear value.
    fn encode_sl(&mut self, sl: i32) -> (r: u8)
        requires
            old(self).wf(),
            -8192 <= sl <= 8191,
        ensures
            final(self).wf(),
            r < old(self).rate.code_count(),
            r == input_code(old(self)@, sl as int),
            final(self)@ == next(old(self)@, r as int),
    {
        let e: (i32, i32) = self.predict();
        let y: u32 = self.scale_factor();
        let i: u32 = code_for(self.rate, sl, e.0, y);
        proof {
            reveal(input_code);
        }
        let _ = self.update(i, y, e.0, e.1);
        i as u8
    }

    /// Encodes a linear sample; what lies beyond 14 bits is saturated.
    pub fn encode_step(&mut self, sl14: i16) -> (r: u8)
        requires
            old(self).wf(),
        ensures
            final(self).wf(),
            r < old(self).rate.code_count(),
            r == input_code(old(self)@, clamp(sl14 as int, -8192, 8191)),
            final(self)@ == next(old(self)@, r as int),
    {
        self.encode_sl(clamp_i32(sl14 as i32, -8192, 8191))
    }

    /// Encodes a log-PCM word.
    pub fn encode_law(&mut self, s: u8, law: Law) -> (r: u8)
        requires
            old(self).wf(),
        ensures
            final(self).wf(),
            r < old(self).rate.code_count(),
            r == input_code(old(self)@, expanded(s, law)),
            final(self)@ == next(old(self)@, r as int),
    {
        let w: u32 = expand(s, law);
        self.encode_sl(
            if w < 8192 {
                w as i32
            } else {
                w as i32 - 16384
            },
        )
    }

    /// Decodes a code to a log-PCM word. Bits above the code's width are
    /// ignored.
    pub fn decode_law(&mut self, code: u8, law: Law) -> (r: u8)
        requires
            old(self).wf(),
        ensures
            final(self).wf(),
            r == output_word(
                old(self)@,
                code as int % old(self).rate.code_count(),
                law,
            ),
            final(self)@ == next(old(self)@, code as int % old(self).rate.code_count()),
    {
        let rate: Rate = self.rate;
        let i: u32 = self.code_bits(code);
        let e: (i32, i32) = self.predict();
        let y: u32 = self.scale_factor();
        let sr: i32 = self.update(i, y, e.0, e.1);
        let sp: u8 = compress(word16(sr), law);
        let w: u32 = expand(sp, law);
        let slx: i32 = if w < 8192 {
            w as i32
        } else {
            w as i32 - 16384
        };
        let again: u32 = code_for(rate, slx, e.0, y);
        proof {
            reveal(input_code);
        }
        let id: u32 = ordered_of(rate, again);
        let im: u32 = ordered_of(rate, i);
        if id == im {
            sp
        } else {
            law_neighbor(sp, law, id < im)
        }
    }

    /// The bits of a code.
    fn code_bits(&self, code: u8) -> (r: u32)
        ensures
            r == code as int % self.rate.code_count(),
            r < self.rate.code_count(),
    {
        match self.rate {
            Rate::R16 => (code % 4) as u32,
            Rate::R24 => (code % 8) as u32,
            Rate::R32 => (code % 16) as u32,
            Rate::R40 => (code % 32) as u32,
        }
    }

    /// Decodes a code to a 14-bit linear sample. Bits above the code's width
    /// are ignored.
    pub fn decode_step(&mut self, code: u8) -> (r: i16)
        requires
            old(self).wf(),
        ensures
            final(self).wf(),
            r == clamp(
                reconstructed(old(self)@, code as int % old(self).rate.code_count()),
                -8192,
                8191,
            ),
            final(self)@ == next(old(self)@, code as int % old(self).rate.code_count()),
    {
        let i: u32 = self.code_bits(code);
        let e: (i32, i32) = self.predict();
        let y: u32 = self.scale_factor();
        let sr: i32 = self.update(i, y, e.0, e.1);
        clamp_i32(sr, -8192, 8191) as i16
    }

    /// Encodes a 16-bit sample, a quarter of it rounded down.
    pub fn encode_i16(&mut self, s: i16) -> (r: u8)
        requires
            old(self).wf(),
        ensures
            final(self).wf(),
            r < old(self).rate.code_count(),
            r == input_code(old(self)@, s as int / 4),
            final(self)@ == next(old(self)@, r as int),
    {
        let quarter: i32 = floor_div(s as i32, 4);
        self.encode_step(quarter as i16)
    }

    /// Decodes a code to a 16-bit sample, four times the 14-bit one.
    pub fn decode_i16(&mut self, code: u8) -> (r: i16)
        requires
            old(self).wf(),
        ensures
            final(self).wf(),
            r == 4 * clamp(
                reconstructed(old(self)@, code as int % old(self).rate.code_count()),
                -8192,
                8191,
            ),
            final(self)@ == next(old(self)@, code as int % old(self).rate.code_count()),
    {
        4 * self.decode_step(code)
    }
}

/// Computes [`ordered`].
fn ordered_of(rate: Rate, code: u32) -> (r: u32)
    requires
        code < rate.code_count(),
    ensures
        r == ordered(rate, code as int),
{
    let half: u32 = (rate.code_mask() + 1) / 2;
    if code < half {
        code + half
    } else {
        code - half
    }
}

// ---- Packed streams ----

/// The number of codes is the power of their width.
pub proof fn code_count_is_power(rate: Rate)
    ensures
        two_to(rate.width()) == rate.code_count(),
        2 <= rate.width() <= 5,
{
    two_to_values();
}

/// Packs codes into bytes, the last one filled up with zeros.
pub fn pack_codes(codes: &[u8], rate: Rate, order: BitOrder) -> (out: Vec<u8>)
    ensures
        out@ == packed_bytes(joined(codes@, rate.width(), order), order),
{
    let ghost w = rate.width();
    let mut out: Vec<u8> = Vec::new();
    let mut packer: BitPacker = BitPacker::new(order);
    let n: usize = codes.len();
    let mut i: usize = 0;
    proof {
        assert(joined(codes@.take(0), w, order) =~= Seq::<bool>::empty());
        assert(out@ =~= pieces(joined(codes@.take(0), w, order), 8, order));
    }
    while i < n
        invariant
            i <= n == codes@.len(),
            w == rate.width(),
            packer.wf(),
            packer.bit_order() == order,
            packer.pending() == leftover(joined(codes@.take(i as int), w, order), 8),
            out@ == pieces(joined(codes@.take(i as int), w, order), 8, order),
        decreases n - i,
    {
        let ghost so_far = joined(codes@.take(i as int), w, order);
        let ghost mine = to_bits(codes@[i as int] as int, w, order);
        proof {
            code_count_is_power(rate);
            to_bits_low(codes@[i as int] as int, w, order);
            joined_push(codes@.take(i as int), codes@[i as int], w, order);
            assert(codes@.take(i + 1) =~= codes@.take(i as int).push(codes@[i as int]));
            pieces_append(so_far, mine, 8, order);
            leftover_short(so_far, 8);
        }
        packer.push(codes[i] as u32, rate.bits(), &mut out);
        i = i + 1;
    }
    assert(codes@.take(n as int) =~= codes@);
    packer.flush(&mut out);
    out
}

/// Unpacks the codes that bytes hold; bits behind the last whole code are
/// dropped.
pub fn unpack_codes(bytes: &[u8], rate: Rate, order: BitOrder) -> (out: Vec<u8>)
    ensures
        out@ == pieces(joined(bytes@, 8, order), rate.width(), order),
{
    let mut out: Vec<u8> = Vec::new();
    let mut unpacker: BitUnpacker = BitUnpacker::new(order);
    proof {
        let all = joined(bytes@, 8, order);
        assert(Seq::<bool>::empty() + all =~= all);
        let codes = pieces(all, rate.width(), order);
        assert(Seq::<u8>::empty() + codes =~= codes);
    }
    unpacker.feed(bytes, rate.bits(), &mut out);
    out
}

/// [`next`] as a value.
pub open spec fn stepper() -> spec_fn(CodecModel, int) -> CodecModel {
    |s: CodecModel, code: int| next(s, code)
}

/// [`input_code`] as a value.
pub open spec fn picker() -> spec_fn(CodecModel, int) -> int {
    |s: CodecModel, sl: int| input_code(s, sl)
}

/// A quarter of each sample, rounded down.
pub open spec fn quarters(pcm: Seq<i16>) -> Seq<int> {
    Seq::new(pcm.len(), |k: int| pcm[k] as int / 4)
}

/// Codes as bytes.
pub open spec fn as_bytes(codes: Seq<int>) -> Seq<u8> {
    Seq::new(codes.len(), |k: int| codes[k] as u8)
}

/// The 16-bit sample of a code.
pub open spec fn linear_sample(s: CodecModel, code: int) -> int {
    4 * clamp(reconstructed(s, code), -8192, 8191)
}

/// The samples of a stream of codes.
pub open spec fn linear_samples(states: Seq<CodecModel>, codes: Seq<int>) -> Seq<i16> {
    Seq::new(
        codes.len(),
        |m: int|
            linear_sample(
                lanes_run(states, codes, stepper(), m)[m % states.len() as int],
                codes[m],
            ) as i16,
    )
}

/// The codes that an unpacker gives out for bytes.
pub open spec fn fed_codes(pending: Seq<bool>, bytes: Seq<u8>, w: int, order: BitOrder) -> Seq<u8> {
    if bytes.len() == 0 {
        Seq::empty()
    } else {
        pieces(pending + joined(bytes, 8, order), w, order)
    }
}

/// The bits that an unpacker keeps of bytes.
pub open spec fn fed_rest(pending: Seq<bool>, bytes: Seq<u8>, w: int, order: BitOrder) -> Seq<
    bool,
> {
    if bytes.len() == 0 {
        pending
    } else {
        leftover(pending + joined(bytes, 8, order), w)
    }
}

/// Decodes a packet behind what came before, and appends its samples.
pub fn decode_packet(
    bytes: &[u8],
    state: &mut State,
    unpacker: &mut BitUnpacker,
    out: &mut Vec<i16>,
)
    requires
        old(state).wf(),
        old(unpacker).wf(),
    ensures
        final(state).wf(),
        final(unpacker).wf(),
        final(unpacker).bit_order() == old(unpacker).bit_order(),
        ({
            let w = old(state).rate.width();
            let order = old(unpacker).bit_order();
            let codes = code_seq(fed_codes(old(unpacker).pending(), bytes@, w, order));
            &&& final(unpacker).pending() == fed_rest(old(unpacker).pending(), bytes@, w, order)
            &&& final(out)@ == old(out)@ + linear_samples(seq![old(state)@], codes)
            &&& final(state)@ == lanes_run(
                seq![old(state)@],
                codes,
                stepper(),
                codes.len() as int,
            )[0]
        }),
{
    let ghost w = state.rate.width();
    let ghost order = unpacker.bit_order();
    let ghost fed = fed_codes(unpacker.pending(), bytes@, w, order);
    let ghost codes = code_seq(fed);
    let ghost start = seq![state@];
    let ghost before = out@;
    let ghost want = linear_samples(start, codes);
    let ghost rate = state.rate;
    let mut list: Vec<u8> = Vec::new();
    unpacker.feed(bytes, state.rate.bits(), &mut list);
    assert(list@ =~= fed);
    let n: usize = list.len();
    let mut m: usize = 0;
    proof {
        code_count_is_power(rate);
        assert forall|k: int| 0 <= k < fed.len() implies (#[trigger] fed[k]) < rate.code_count() by {
            pieces_range(old(unpacker).pending() + joined(bytes@, 8, order), w, order, k);
        }
        assert(before + want.take(0) =~= out@);
        assert(start =~= lanes_run(start, codes, stepper(), 0));
    }
    while m < n
        invariant
            m <= n == list@.len(),
            list@ == fed,
            codes == code_seq(fed),
            w == rate.width(),
            state.rate == rate,
            forall|k: int| 0 <= k < fed.len() ==> (#[trigger] fed[k]) < rate.code_count(),
            want == linear_samples(start, codes),
            start.len() == 1,
            state.wf(),
            seq![state@] == lanes_run(start, codes, stepper(), m as int),
            out@ == before + want.take(m as int),
        decreases n - m,
    {
        let ghost s = state@;
        let c: u8 = list[m];
        assert(seq![s][0] == s);
        let sample: i16 = state.decode_i16(c);
        out.push(sample);
        proof {
            assert(c < rate.code_count());
            assert(c as int % rate.code_count() == c);
            lanes_step(start, codes, stepper(), m as int);
            assert(m as int % 1 == 0);
            assert(seq![s].update(0, state@) =~= seq![state@]);
            assert(state@.rate == s.rate) by {
                reveal(next);
            }
            assert(want[m as int] == sample);
            assert(before + want.take(m + 1) =~= (before + want.take(m as int)).push(
                want[m as int],
            ));
        }
        m = m + 1;
    }
    assert(want.take(n as int) =~= want);
    assert(seq![state@][0] == state@);
}

/// Encodes samples behind what came before, and gives out the whole bytes.
pub fn encode_packet(pcm: &[i16], state: &mut State, packer: &mut BitPacker) -> (out: Vec<u8>)
    requires
        old(state).wf(),
        old(packer).wf(),
    ensures
        final(state).wf(),
        final(packer).wf(),
        final(packer).bit_order() == old(packer).bit_order(),
        ({
            let w = old(state).rate.width();
            let order = old(packer).bit_order();
            let start = seq![old(state)@];
            let want = quarters(pcm@);
            let codes = as_bytes(lanes_chosen(start, want, picker(), stepper()));
            let bits = old(packer).pending() + joined(codes, w, order);
            &&& out@ == pieces(bits, 8, order)
            &&& final(packer).pending() == leftover(bits, 8)
            &&& final(state)@ == lanes_track(
                start,
                want,
                picker(),
                stepper(),
                want.len() as int,
            )[0]
        }),
{
    let ghost rate = state.rate;
    let ghost w = rate.width();
    let ghost order = packer.bit_order();
    let ghost before = packer.pending();
    let ghost start = seq![state@];
    let ghost want = quarters(pcm@);
    let ghost codes = as_bytes(lanes_chosen(start, want, picker(), stepper()));
    let mut out: Vec<u8> = Vec::new();
    let n: usize = pcm.len();
    let mut m: usize = 0;
    proof {
        leftover_short(before, 8);
        packer.pending_is_short();
        assert(before + joined(codes.take(0), w, order) =~= before);
        assert(out@ =~= pieces(before, 8, order));
        assert(start =~= lanes_track(start, want, picker(), stepper(), 0));
    }
    while m < n
        invariant
            m <= n == pcm@.len(),
            want == quarters(pcm@),
            codes == as_bytes(lanes_chosen(start, want, picker(), stepper())),
            codes.len() == n,
            w == rate.width(),
            state.rate == rate,
            start.len() == 1,
            state.wf(),
            packer.wf(),
            packer.bit_order() == order,
            seq![state@] == lanes_track(start, want, picker(), stepper(), m as int),
            out@ == pieces(before + joined(codes.take(m as int), w, order), 8, order),
            packer.pending() == leftover(before + joined(codes.take(m as int), w, order), 8),
        decreases n - m,
    {
        let ghost s = state@;
        let ghost so_far = before + joined(codes.take(m as int), w, order);
        let ghost mine = to_bits(codes[m as int] as int, w, order);
        assert(seq![s][0] == s);
        let code: u8 = state.encode_i16(pcm[m]);
        proof {
            lanes_track_step(start, want, picker(), stepper(), m as int);
            assert(m as int % 1 == 0);
            assert(seq![s].update(0, state@) =~= seq![state@]);
            assert(state@.rate == s.rate) by {
                reveal(next);
            }
            assert(code == codes[m as int]);
            code_count_is_power(rate);
            joined_push(codes.take(m as int), codes[m as int], w, order);
            assert(codes.take(m + 1) =~= codes.take(m as int).push(codes[m as int]));
            assert(before + (joined(codes.take(m as int), w, order) + mine) =~= so_far + mine);
            pieces_append(so_far, mine, 8, order);
            leftover_short(so_far, 8);
            to_bits_low(code as int, w, order);
        }
        packer.push(code as u32, state.rate.bits(), &mut out);
        m = m + 1;
    }
    assert(codes.take(n as int) =~= codes);
    assert(seq![state@][0] == state@);
    out
}

// ---- WAV sub-block layout ----

/// Whether the WAV sub-block layout carries a rate: all but the two-bit one.
pub fn wav_rate_supported(rate: Rate) -> (r: bool)
    ensures
        r == (rate != Rate::R16),
{
    rate != Rate::R16
}

/// The bytes of a WAV block: the auxiliary bytes, then sixteen sub-blocks of
/// `bits` bytes per channel.
pub open spec fn wav_block_len(rate: Rate, channels: int, aux: int) -> int {
    16 * rate.width() * channels + aux
}

/// The bytes of a WAV block.
pub fn wav_block_align(rate: Rate, channels: u16, aux: usize) -> (r: usize)
    requires
        wav_block_len(rate, channels as int, aux as int) <= usize::MAX,
    ensures
        r == wav_block_len(rate, channels as int, aux as int),
{
    let bits: usize = rate.bits() as usize;
    assert(16 * bits * channels <= 80 * channels) by (nonlinear_arith)
        requires
            bits <= 5,
            channels >= 0,
    ;
    16 * bits * channels as usize + aux
}

/// The extension of a WAV format header: the count of auxiliary bytes per
/// block, low byte first.
pub fn wav_format_extra(aux: u16) -> (r: [u8; 2])
    ensures
        r@ == seq![(aux % 256) as u8, (aux / 256) as u8],
{
    let r: [u8; 2] = [(aux % 256) as u8, (aux / 256) as u8];
    assert(r@ =~= seq![(aux % 256) as u8, (aux / 256) as u8]);
    r
}

/// The count of auxiliary bytes that the extension of a WAV format header
/// names.
pub open spec fn wav_extra_aux(extradata: Seq<u8>) -> Option<u16> {
    if extradata.len() < 2 {
        None
    } else {
        Some((extradata[0] + 256 * extradata[1]) as u16)
    }
}

/// Reads the extension of a WAV format header.
pub fn wav_parse_format_extra(extradata: &[u8]) -> (r: Option<u16>)
    ensures
        r == wav_extra_aux(extradata@),
{
    if extradata.len() < 2 {
        None
    } else {
        Some(extradata[0] as u16 + 256 * extradata[1] as u16)
    }
}

/// Reading a written extension gives the count back.
pub proof fn wav_format_extra_round_trip(aux: u16)
    ensures
        wav_extra_aux(seq![(aux % 256) as u8, (aux / 256) as u8]) == Some(aux),
{
}

} // verus!
