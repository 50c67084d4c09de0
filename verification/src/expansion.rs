//! What one code does to a channel: how far it moves the sample, and what it does
//! to the step.

use vstd::prelude::*;

use crate::dialogic::{vox_next, vox_samples, vox_step, Output, VoxModel};
use crate::ima_wav::{ima_move4, ima_next3, ima_next4, ima_step, ImaModel};
use crate::lanes::{lanes_run, lanes_run_len, lanes_step};
use crate::ms::{ms_next, ms_sample, MsModel};
use crate::tables::{IMA_INDEX_ADJUST, OKI_INDEX_ADJUST};
use crate::yamaha::{yamaha_next, Chip, YamahaModel};
use crate::yamaha_a::{self, rhythm_next, rhythm_samples, rhythm_step, RhythmModel};

verus! {

/// `r` is the number closest to `x` between two bounds.
pub open spec fn settles(x: int, lo: int, hi: int, r: int) -> bool {
    &&& x < lo ==> r == lo
    &&& lo <= x <= hi ==> r == x
    &&& x > hi ==> r == hi
}

// ---- Microsoft ADPCM ----

/// A code is a four-bit two's-complement number of steps. The sample is the
/// prediction, a 256th of the weighted sum of the two samples before, rounded
/// down, and that many steps on, held to 16 bits. The samples move up by one.
pub proof fn ms_code_moves(s: MsModel, code: int, predicted: int, steps: int)
    requires
        0 <= code < 16,
        -8 <= steps < 8,
        (steps - code) % 16 == 0,
        256 * predicted <= s.sample1 * s.coef1 + s.sample2 * s.coef2 < 256 * predicted + 256,
    ensures
        settles(predicted + steps * s.delta, -32768, 32767, ms_sample(s, code)),
        ms_next(s, code).sample1 == ms_sample(s, code),
        ms_next(s, code).sample2 == s.sample1,
        ms_next(s, code).coef1 == s.coef1,
        ms_next(s, code).coef2 == s.coef2,
{
    let w = s.sample1 * s.coef1 + s.sample2 * s.coef2;
    assert(w / 256 == predicted);
    assert(steps == code || steps == code - 16);
    assert(code < 8 ==> steps == code);
    assert(code >= 8 ==> steps == code - 16);
}

/// Where nothing is held back, the codes stand one step apart, code 15 one below
/// code 0 and code 8 eight below it, and the codes `n` and `16 - n` mirror each
/// other.
pub proof fn ms_codes_are_evenly_spaced(s: MsModel, n: int)
    requires
        1 <= n <= 7,
        s.delta >= 0,
        -32768 < ms_sample(s, 0) - 8 * s.delta,
        ms_sample(s, 0) + 8 * s.delta < 32767,
    ensures
        ms_sample(s, n) - ms_sample(s, n - 1) == s.delta,
        ms_sample(s, 16 - n) - ms_sample(s, 15 - n) == s.delta,
        ms_sample(s, 0) - ms_sample(s, 15) == s.delta,
        ms_sample(s, 0) - ms_sample(s, 8) == 8 * s.delta,
        ms_sample(s, n) - ms_sample(s, 0) == ms_sample(s, 0) - ms_sample(s, 16 - n),
{
    let d = s.delta;
    let p = (s.sample1 * s.coef1 + s.sample2 * s.coef2) / 256;
    assert(0 * d == 0);
    assert((-1) * d == -d);
    assert((-8) * d == -8 * d);
    assert(n * d == (n - 1) * d + d) by (nonlinear_arith);
    assert((-n) * d == (-n - 1) * d + d) by (nonlinear_arith);
    assert((-n) * d == -(n * d)) by (nonlinear_arith);
    assert(0 <= n * d <= 7 * d) by (nonlinear_arith)
        requires
            1 <= n <= 7,
            d >= 0,
    ;
    assert(0 <= (n - 1) * d <= 6 * d) by (nonlinear_arith)
        requires
            1 <= n <= 7,
            d >= 0,
    ;
    assert(-8 * d <= (-n - 1) * d <= 0) by (nonlinear_arith)
        requires
            1 <= n <= 7,
            d >= 0,
    ;
    assert(16 - n - 16 == -n && 15 - n - 16 == -n - 1);
}

/// The step follows the size of the move: up to three steps shrink it to 230
/// 256ths, and four to eight stretch it to 307, 409, 512, 614 and 768, rounded
/// down, but never below 16.
pub proof fn ms_step_follows(s: MsModel, code: int, steps: int, scaled: int)
    requires
        0 <= code < 16,
        -8 <= steps < 8,
        (steps - code) % 16 == 0,
        0 <= s.delta <= 0x20_0000,
        ({
            let size = if steps < 0 {
                -steps
            } else {
                steps
            };
            let times: int = if size <= 3 {
                230
            } else if size == 4 {
                307
            } else if size == 5 {
                409
            } else if size == 6 {
                512
            } else if size == 7 {
                614
            } else {
                768
            };
            256 * scaled <= times * s.delta < 256 * scaled + 256
        }),
    ensures
        scaled < 16 ==> ms_next(s, code).delta == 16,
        scaled >= 16 ==> ms_next(s, code).delta == scaled,
{
    assert(steps == code || steps == code - 16);
    assert(code == 0 || code == 1 || code == 2 || code == 3 || code == 4 || code == 5 || code == 6
        || code == 7 || code == 8 || code == 9 || code == 10 || code == 11 || code == 12 || code
        == 13 || code == 14 || code == 15);
}

// ---- IMA ADPCM ----

/// The bits of a code, one by one.
proof fn bits_of_a_code(b0: int, b1: int, b2: int, b3: int)
    requires
        0 <= b0 <= 1,
        0 <= b1 <= 1,
        0 <= b2 <= 1,
        0 <= b3 <= 1,
    ensures
        ({
            let code = b0 + 2 * b1 + 4 * b2 + 8 * b3;
            &&& code % 2 == b0
            &&& (code / 2) % 2 == b1
            &&& (code / 4) % 2 == b2
            &&& code % 8 == b0 + 2 * b1 + 4 * b2
            &&& code >= 8 <==> b3 == 1
        }),
{
    let code = b0 + 2 * b1 + 4 * b2 + 8 * b3;
    assert(code / 2 == b1 + 2 * b2 + 4 * b3);
    assert(code / 4 == b2 + 2 * b3);
}

/// How far four bits move a sample.
proof fn four_bits_move(
    step: int,
    b0: int,
    b1: int,
    b2: int,
    b3: int,
    eighth: int,
    quarter: int,
    half: int,
)
    requires
        0 <= b0 <= 1,
        0 <= b1 <= 1,
        0 <= b2 <= 1,
        0 <= b3 <= 1,
        8 * eighth <= step < 8 * eighth + 8,
        4 * quarter <= step < 4 * quarter + 4,
        2 * half <= step < 2 * half + 2,
    ensures
        ({
            let move_by = eighth + (if b0 == 1 {
                quarter
            } else {
                0
            }) + (if b1 == 1 {
                half
            } else {
                0
            }) + (if b2 == 1 {
                step
            } else {
                0
            });
            ima_move4(step, b0 + 2 * b1 + 4 * b2 + 8 * b3) == if b3 == 1 {
                -move_by
            } else {
                move_by
            }
        }),
{
    bits_of_a_code(b0, b1, b2, b3);
    assert(step / 8 == eighth);
    assert(step / 4 == quarter);
    assert(step / 2 == half);
}

/// A four-bit code moves the sample by an eighth of the step, and a quarter, a
/// half and a whole step more for its three low bits, each rounded down and down
/// where its top bit is set, held to 16 bits. The index falls by one where the
/// third bit is clear, and else rises by two, four, six or eight.
pub proof fn ima_code_moves(
    s: ImaModel,
    b0: int,
    b1: int,
    b2: int,
    b3: int,
    eighth: int,
    quarter: int,
    half: int,
)
    requires
        0 <= b0 <= 1,
        0 <= b1 <= 1,
        0 <= b2 <= 1,
        0 <= b3 <= 1,
        8 * eighth <= ima_step(s.step_index) < 8 * eighth + 8,
        4 * quarter <= ima_step(s.step_index) < 4 * quarter + 4,
        2 * half <= ima_step(s.step_index) < 2 * half + 2,
    ensures
        ({
            let n = ima_next4(s, b0 + 2 * b1 + 4 * b2 + 8 * b3);
            let move_by = eighth + (if b0 == 1 {
                quarter
            } else {
                0
            }) + (if b1 == 1 {
                half
            } else {
                0
            }) + (if b2 == 1 {
                ima_step(s.step_index)
            } else {
                0
            });
            &&& b3 == 0 ==> settles(s.predictor + move_by, -32768, 32767, n.predictor)
            &&& b3 == 1 ==> settles(s.predictor - move_by, -32768, 32767, n.predictor)
            &&& b2 == 0 ==> settles(s.step_index - 1, 0, 88, n.step_index)
            &&& b2 == 1 ==> settles(s.step_index + 2 + 2 * b0 + 4 * b1, 0, 88, n.step_index)
        }),
{
    four_bits_move(ima_step(s.step_index), b0, b1, b2, b3, eighth, quarter, half);
    bits_of_a_code(b0, b1, b2, b3);
    let code = b0 + 2 * b1 + 4 * b2 + 8 * b3;
    assert(IMA_INDEX_ADJUST[code] == if b2 == 0 {
        -1
    } else {
        2 + 2 * b0 + 4 * b1
    }) by {
        assert(code == 0 || code == 1 || code == 2 || code == 3 || code == 4 || code == 5 || code
            == 6 || code == 7 || code == 8 || code == 9 || code == 10 || code == 11 || code == 12
            || code == 13 || code == 14 || code == 15);
    }
}

/// A three-bit code moves the sample by a quarter of the step, and a half and a
/// whole step more for its two low bits, each rounded down and down where its top
/// bit is set, held to 16 bits. The index falls by one where the second bit is
/// clear, and else rises by one or two.
pub proof fn ima3_code_moves(
    s: ImaModel,
    b0: int,
    b1: int,
    b2: int,
    quarter: int,
    half: int,
)
    requires
        0 <= b0 <= 1,
        0 <= b1 <= 1,
        0 <= b2 <= 1,
        4 * quarter <= ima_step(s.step_index) < 4 * quarter + 4,
        2 * half <= ima_step(s.step_index) < 2 * half + 2,
    ensures
        ({
            let n = ima_next3(s, b0 + 2 * b1 + 4 * b2);
            let move_by = quarter + (if b0 == 1 {
                half
            } else {
                0
            }) + (if b1 == 1 {
                ima_step(s.step_index)
            } else {
                0
            });
            &&& b2 == 0 ==> settles(s.predictor + move_by, -32768, 32767, n.predictor)
            &&& b2 == 1 ==> settles(s.predictor - move_by, -32768, 32767, n.predictor)
            &&& b1 == 0 ==> settles(s.step_index - 1, 0, 88, n.step_index)
            &&& b1 == 1 ==> settles(s.step_index + 1 + b0, 0, 88, n.step_index)
        }),
{
}

// ---- VOX ----

/// A VOX code moves the sample as a four-bit IMA code does, by the step of its own
/// ladder, held to 12 bits, and the index likewise, held to 49 rungs.
pub proof fn vox_code_moves(
    s: VoxModel,
    b0: int,
    b1: int,
    b2: int,
    b3: int,
    eighth: int,
    quarter: int,
    half: int,
)
    requires
        0 <= b0 <= 1,
        0 <= b1 <= 1,
        0 <= b2 <= 1,
        0 <= b3 <= 1,
        8 * eighth <= vox_step(s.step_index) < 8 * eighth + 8,
        4 * quarter <= vox_step(s.step_index) < 4 * quarter + 4,
        2 * half <= vox_step(s.step_index) < 2 * half + 2,
    ensures
        ({
            let n = vox_next(s, b0 + 2 * b1 + 4 * b2 + 8 * b3);
            let move_by = eighth + (if b0 == 1 {
                quarter
            } else {
                0
            }) + (if b1 == 1 {
                half
            } else {
                0
            }) + (if b2 == 1 {
                vox_step(s.step_index)
            } else {
                0
            });
            &&& b3 == 0 ==> settles(s.predictor + move_by, -2048, 2047, n.predictor)
            &&& b3 == 1 ==> settles(s.predictor - move_by, -2048, 2047, n.predictor)
            &&& b2 == 0 ==> settles(s.step_index - 1, 0, 48, n.step_index)
            &&& b2 == 1 ==> settles(s.step_index + 2 + 2 * b0 + 4 * b1, 0, 48, n.step_index)
        }),
{
    reveal(vox_next);
    four_bits_move(vox_step(s.step_index), b0, b1, b2, b3, eighth, quarter, half);
    bits_of_a_code(b0, b1, b2, b3);
    let low = b0 + 2 * b1 + 4 * b2;
    assert(OKI_INDEX_ADJUST[low] == if b2 == 0 {
        -1
    } else {
        2 + 2 * b0 + 4 * b1
    }) by {
        assert(low == 0 || low == 1 || low == 2 || low == 3 || low == 4 || low == 5 || low == 6
            || low == 7);
    }
}

/// A VOX stream puts out the running 12-bit sample, or sixteen times it.
pub proof fn vox_puts_out_the_sample(s: VoxModel, codes: Seq<int>, m: int)
    requires
        0 <= m < codes.len(),
    ensures
        ({
            let n = lanes_run(seq![s], codes, |t: VoxModel, c: int| vox_next(t, c), m + 1)[0];
            &&& -2048 <= n.predictor <= 2047
            &&& vox_samples(seq![s], codes, Output::Native12)[m] == n.predictor
            &&& vox_samples(seq![s], codes, Output::Wide16)[m] == 16 * n.predictor
        }),
{
    reveal(vox_next);
    let next = |t: VoxModel, c: int| vox_next(t, c);
    assert(m % 1 == 0);
    lanes_step(seq![s], codes, next, m);
    lanes_run_len(seq![s], codes, next, m);
}

// ---- ADPCM-B ----

/// A code of magnitude `m` moves the sample by `2 m + 1` eighths of the step,
/// rounded down and down where its top bit is set, held to 16 bits.
pub proof fn yamaha_code_moves(s: YamahaModel, m: int, negative: bool, move_by: int)
    requires
        0 <= m < 8,
        8 * move_by <= (2 * m + 1) * s.step < 8 * move_by + 8,
    ensures
        ({
            let n = yamaha_next(s, if negative {
                8 + m
            } else {
                m
            });
            &&& !negative ==> settles(s.predictor + move_by, -32768, 32767, n.predictor)
            &&& negative ==> settles(s.predictor - move_by, -32768, 32767, n.predictor)
            &&& n.chip == s.chip
        }),
{
    reveal(yamaha_next);
    assert(m == 0 || m == 1 || m == 2 || m == 3 || m == 4 || m == 5 || m == 6 || m == 7);
    assert(((2 * m + 1) * s.step) / 8 == move_by);
}

/// The step shrinks behind the magnitudes up to three and grows behind the others,
/// whatever the sign, rounded down, and stays between 127 and 24576. The two
/// families of chips have fractions of their own: 230, 307, 409, 512 and 614
/// 256ths, and 57, 77, 102, 128 and 153 64ths.
pub proof fn yamaha_step_follows(s: YamahaModel, m: int, negative: bool, scaled: int)
    requires
        0 <= m < 8,
        ({
            let aica: int = if m <= 3 {
                230
            } else if m == 4 {
                307
            } else if m == 5 {
                409
            } else if m == 6 {
                512
            } else {
                614
            };
            let opna: int = if m <= 3 {
                57
            } else if m == 4 {
                77
            } else if m == 5 {
                102
            } else if m == 6 {
                128
            } else {
                153
            };
            if s.chip == Chip::Aica {
                256 * scaled <= aica * s.step < 256 * scaled + 256
            } else {
                64 * scaled <= opna * s.step < 64 * scaled + 64
            }
        }),
    ensures
        settles(
            scaled,
            127,
            24576,
            yamaha_next(s, if negative {
                8 + m
            } else {
                m
            }).step,
        ),
{
    reveal(yamaha_next);
    assert(m == 0 || m == 1 || m == 2 || m == 3 || m == 4 || m == 5 || m == 6 || m == 7);
    let code = if negative {
        8 + m
    } else {
        m
    };
    assert(code % 8 == m);
    let times = s.chip.scale_spec(m);
    assert(s.step * times == times * s.step) by (nonlinear_arith);
    assert((times * s.step) / s.chip.divisor_spec() == scaled);
}

// ---- ADPCM-A ----

/// A code of magnitude `m` moves the sample by `2 m + 1` eighths of the step,
/// rounded down and down where its top bit is set, held to 12 bits. The index
/// falls by one behind the magnitudes up to three, and else rises by two, five,
/// seven or nine, held to 49 rungs. A state out of bounds is first brought to the
/// nearest one within them.
pub proof fn rhythm_code_moves(
    s: RhythmModel,
    m: int,
    negative: bool,
    acc: int,
    index: int,
    move_by: int,
)
    requires
        0 <= m < 8,
        settles(s.acc, -2048, 2047, acc),
        settles(s.step_index, 0, 48, index),
        8 * move_by <= (2 * m + 1) * rhythm_step(s) < 8 * move_by + 8,
    ensures
        ({
            let n = rhythm_next(s, if negative {
                8 + m
            } else {
                m
            });
            let rise: int = if m <= 3 {
                -1
            } else if m == 4 {
                2
            } else if m == 5 {
                5
            } else if m == 6 {
                7
            } else {
                9
            };
            &&& !negative ==> settles(acc + move_by, -2048, 2047, n.acc)
            &&& negative ==> settles(acc - move_by, -2048, 2047, n.acc)
            &&& settles(index + rise, 0, 48, n.step_index)
        }),
{
    reveal(rhythm_next);
    let code = if negative {
        8 + m
    } else {
        m
    };
    assert(code % 8 == m);
    assert(m == 0 || m == 1 || m == 2 || m == 3 || m == 4 || m == 5 || m == 6 || m == 7);
    assert((rhythm_step(s) * (2 * m + 1)) / 8 == move_by) by {
        assert(rhythm_step(s) * (2 * m + 1) == (2 * m + 1) * rhythm_step(s)) by (nonlinear_arith);
    }
}

/// An ADPCM-A stream puts out the running 12-bit sample, or sixteen times it.
pub proof fn rhythm_puts_out_the_sample(s: RhythmModel, codes: Seq<int>, m: int)
    requires
        0 <= m < codes.len(),
    ensures
        ({
            let n = lanes_run(
                seq![s],
                codes,
                |t: RhythmModel, c: int| rhythm_next(t, c),
                m + 1,
            )[0];
            &&& -2048 <= n.acc <= 2047
            &&& rhythm_samples(s, codes, yamaha_a::Output::Native12)[m] == n.acc
            &&& rhythm_samples(s, codes, yamaha_a::Output::Wide16)[m] == 16 * n.acc
        }),
{
    reveal(rhythm_next);
    let next = |t: RhythmModel, c: int| rhythm_next(t, c);
    assert(m % 1 == 0);
    lanes_step(seq![s], codes, next, m);
    lanes_run_len(seq![s], codes, next, m);
}

} // verus!
