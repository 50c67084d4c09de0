//! How close the quantizers come: behind the code of a sample, the decoder is at
//! the sample, to within a fraction of the step.

use vstd::prelude::*;

use crate::dialogic::{vox_code, vox_next, vox_step, vox_step_bounds, VoxModel};
use crate::expansion::{rhythm_code_moves, yamaha_code_moves};
use crate::ima_wav::{
    ima_code3, ima_code4, ima_next3, ima_next4, ima_step, ima_step_bounds, ImaModel,
};
use crate::yamaha::{yamaha_code, yamaha_magnitude_counts, yamaha_next, YamahaModel};
use crate::yamaha_a::{
    narrowed, rhythm_choice_is_closest, rhythm_code, rhythm_level, rhythm_magnitude, rhythm_next,
    rhythm_step, Output, RhythmModel,
};

verus! {

/// `a` and `b` are no further apart than `d`.
pub open spec fn within(a: int, b: int, d: int) -> bool {
    &&& a - b <= d
    &&& b - a <= d
}

/// A sample less than two steps away is met to within an eighth of the step and
/// two. One further away is approached by the largest move, with the sign of its
/// distance.
pub proof fn ima_ladder_is_close(s: ImaModel, target: int)
    requires
        s.valid(),
        -32768 <= target <= 32767,
    ensures
        ({
            let step = ima_step(s.step_index);
            let code = ima_code4(s.predictor, step, target);
            let met = ima_next4(s, code).predictor;
            &&& within(target, s.predictor, 2 * step - 1) ==> within(8 * met, 8 * target, step + 16)
            &&& target >= s.predictor + 2 * step ==> code == 7
            &&& target <= s.predictor - 2 * step ==> code == 15
            &&& target >= s.predictor <==> code < 8
        }),
{
    ima_step_bounds(s.step_index);
}

/// A sample less than two steps away is met by a three-bit code to within a quarter
/// of the step and two. One further away is approached by the largest move, with
/// the sign of its distance.
pub proof fn ima3_ladder_is_close(s: ImaModel, target: int)
    requires
        s.valid(),
        -32768 <= target <= 32767,
    ensures
        ({
            let step = ima_step(s.step_index);
            let code = ima_code3(s.predictor, step, target);
            let met = ima_next3(s, code).predictor;
            &&& within(target, s.predictor, 2 * step - 1) ==> within(4 * met, 4 * target, step + 8)
            &&& target >= s.predictor + 2 * step ==> code == 3
            &&& target <= s.predictor - 2 * step ==> code == 7
            &&& target >= s.predictor <==> code < 4
        }),
{
    ima_step_bounds(s.step_index);
}

/// A 12-bit sample less than two steps away is met by a VOX code to within an
/// eighth of the step and two. One further away is approached by the largest move,
/// with the sign of its distance.
pub proof fn vox_ladder_is_close(s: VoxModel, target: int)
    requires
        s.valid(),
        -2048 <= target <= 2047,
    ensures
        ({
            let step = vox_step(s.step_index);
            let code = vox_code(s, target);
            let met = vox_next(s, code).predictor;
            &&& within(target, s.predictor, 2 * step - 1) ==> within(8 * met, 8 * target, step + 16)
            &&& target >= s.predictor + 2 * step ==> code == 7
            &&& target <= s.predictor - 2 * step ==> code == 15
            &&& target >= s.predictor <==> code < 8
        }),
{
    reveal(vox_next);
    vox_step_bounds(s.step_index);
}

/// A sample less than two steps away is met by an ADPCM-B code to within an eighth
/// of the step and one. One further away is approached by the largest move, with
/// the sign of its distance. The magnitude is the distance in whole quarters of
/// the step.
pub proof fn yamaha_quantizer_is_close(s: YamahaModel, target: int)
    requires
        s.valid(),
        -32768 <= target <= 32767,
    ensures
        ({
            let code = yamaha_code(s, target);
            let met = yamaha_next(s, code).predictor;
            let distance = if target < s.predictor {
                s.predictor - target
            } else {
                target - s.predictor
            };
            &&& distance < 2 * s.step ==> within(8 * met, 8 * target, s.step + 8)
            &&& distance < 2 * s.step ==> (code % 8) * s.step <= 4 * distance < (code % 8 + 1)
                * s.step
            &&& distance >= 2 * s.step ==> code % 8 == 7
            &&& target < s.predictor <==> code >= 8
            &&& 0 <= code < 16
        }),
{
    let distance = if target < s.predictor {
        s.predictor - target
    } else {
        target - s.predictor
    };
    let step = s.step;
    yamaha_magnitude_counts(distance, step, 7);
    let q = (4 * distance) / step;
    vstd::arithmetic::div_mod::lemma_fundamental_div_mod(4 * distance, step);
    vstd::arithmetic::div_mod::lemma_mod_bound(4 * distance, step);
    assert(q * step <= 4 * distance < (q + 1) * step) by (nonlinear_arith)
        requires
            4 * distance == step * q + (4 * distance) % step,
            0 <= (4 * distance) % step < step,
    ;
    assert(q >= 0) by (nonlinear_arith)
        requires
            4 * distance < (q + 1) * step,
            distance >= 0,
            step > 0,
    ;
    if distance < 2 * step {
        assert(q < 8) by (nonlinear_arith)
            requires
                q * step <= 4 * distance,
                distance < 2 * step,
                step > 0,
        ;
        let move_by = ((2 * q + 1) * step) / 8;
        assert((q + 1) * step == q * step + step) by (nonlinear_arith);
        assert((2 * q + 1) * step == 2 * (q * step) + step) by (nonlinear_arith);
        yamaha_code_moves(s, q, target < s.predictor, move_by);
    } else {
        assert(q >= 7) by (nonlinear_arith)
            requires
                4 * distance < (q + 1) * step,
                distance >= 2 * step,
                step > 0,
        ;
    }
}

/// A 12-bit sample less than two steps away is met by an ADPCM-A code to within an
/// eighth of the step and one, and by no other code of its sign more closely.
pub proof fn rhythm_quantizer_is_close(s: RhythmModel, target: int)
    requires
        s.valid(),
        -2048 <= target <= 2047,
    ensures
        ({
            let step = rhythm_step(s);
            let code = rhythm_code(s, target);
            let met = rhythm_next(s, code).acc;
            &&& within(target, s.acc, 2 * step - 1) ==> within(8 * met, 8 * target, step + 8)
            &&& target < s.acc <==> code >= 8
            &&& 0 <= code < 16
        }),
{
    let step = rhythm_step(s);
    let distance = if target < s.acc {
        s.acc - target
    } else {
        target - s.acc
    };
    let best = rhythm_magnitude(distance, step);
    rhythm_choice_is_closest(distance, step, 0);
    assert(rhythm_code(s, target) == (if target < s.acc {
        8 + best
    } else {
        best
    })) by {
        reveal(rhythm_code);
    }
    assert(16 <= step <= 1552);
    let move_by = rhythm_level(step, best);
    assert(step * (2 * best + 1) == (2 * best + 1) * step) by (nonlinear_arith);
    rhythm_code_moves(s, best, target < s.acc, s.acc, s.step_index, move_by);
    if distance < 2 * step {
        a_level_is_close(distance, step);
    }
}

/// Some level is within an eighth of the step and one of a distance below two
/// steps, so the closest one is.
proof fn a_level_is_close(distance: int, step: int)
    requires
        0 <= distance < 2 * step,
        16 <= step,
    ensures
        within(8 * rhythm_level(step, rhythm_magnitude(distance, step)), 8 * distance, step + 8),
{
    let q = (4 * distance) / step;
    vstd::arithmetic::div_mod::lemma_fundamental_div_mod(4 * distance, step);
    vstd::arithmetic::div_mod::lemma_mod_bound(4 * distance, step);
    assert(q * step <= 4 * distance < (q + 1) * step) by (nonlinear_arith)
        requires
            4 * distance == step * q + (4 * distance) % step,
            0 <= (4 * distance) % step < step,
    ;
    assert(0 <= q < 8) by (nonlinear_arith)
        requires
            q * step <= 4 * distance < (q + 1) * step,
            0 <= distance < 2 * step,
            step > 0,
    ;
    assert((q + 1) * step == q * step + step) by (nonlinear_arith);
    assert(step * (2 * q + 1) == 2 * (q * step) + step) by (nonlinear_arith);
    rhythm_choice_is_closest(distance, step, q);
}

/// A wide sample is narrowed to a sixteenth, rounded down, and held to 12 bits; a
/// narrow one is only held.
pub proof fn rhythm_targets_are_twelve_bits(sample: int, sixteenth: int)
    requires
        16 * sixteenth <= sample < 16 * sixteenth + 16,
    ensures
        -32768 <= sample <= 32767 ==> narrowed(Output::Wide16, sample) == sixteenth,
        -2048 <= sample <= 2047 ==> narrowed(Output::Native12, sample) == sample,
        sample > 2047 ==> narrowed(Output::Native12, sample) == 2047,
        sample < -2048 ==> narrowed(Output::Native12, sample) == -2048,
{
}

} // verus!
