//! What a block opens with: the samples that it starts from, and a first step drawn
//! from the distances between its first samples.

use vstd::prelude::*;

use crate::arith::least_is_least;
use crate::encoder::{
    index_for_mean, index_for_step, mean_step, ms_best, ms_cost, ms_opening, ms_room, qt_opening,
    step_sum, wav_opening, wav_room,
};
use crate::ima_wav::{ima_code3, ima_code4, ima_step, ImaModel};
use crate::ladder::{qt_ladder_opening, wav_ladder_opening};
use crate::ms::{ms_sample, MsModel};
use crate::tables::IMA_STEP_SIZE;

verus! {

/// A channel that rises or falls by the same amount from sample to sample has that
/// amount as its mean distance.
pub proof fn an_even_slope_is_its_mean(samples: Seq<i16>, channels: int, ch: int, n: int, d: int)
    requires
        n > 0,
        forall|k: int|
            0 <= k < n ==> #[trigger] samples[(k + 1) * channels + ch] - samples[k * channels + ch]
                == d,
    ensures
        d >= 0 ==> mean_step(samples, channels, ch, n) == d,
        d < 0 ==> mean_step(samples, channels, ch, n) == -d,
{
    even_sum(samples, channels, ch, n, d);
    let a = if d < 0 {
        -d
    } else {
        d
    };
    vstd::arithmetic::div_mod::lemma_div_multiples_vanish(a, n);
}

proof fn even_sum(samples: Seq<i16>, channels: int, ch: int, n: int, d: int)
    requires
        n >= 0,
        forall|k: int|
            0 <= k < n ==> #[trigger] samples[(k + 1) * channels + ch] - samples[k * channels + ch]
                == d,
    ensures
        step_sum(samples, channels, ch, n) == n * (if d < 0 {
            -d
        } else {
            d
        }),
    decreases n,
{
    let a = if d < 0 {
        -d
    } else {
        d
    };
    if n > 0 {
        even_sum(samples, channels, ch, n - 1, d);
        let k = n - 1;
        assert(samples[(k + 1) * channels + ch] - samples[k * channels + ch] == d);
        assert(n * a == (n - 1) * a + a) by (nonlinear_arith);
    } else {
        assert(0 * a == 0);
    }
}

/// One more sample adds its distance from the one before to the sum, and the mean
/// is the sum shared out, rounded down.
pub proof fn distances_add_up(samples: Seq<i16>, channels: int, ch: int, n: int)
    requires
        n >= 0,
    ensures
        ({
            let here = samples[(n + 1) * channels + ch] as int;
            let before = samples[n * channels + ch] as int;
            let more = step_sum(samples, channels, ch, n + 1) - step_sum(samples, channels, ch, n);
            &&& here >= before ==> more == here - before
            &&& here < before ==> more == before - here
        }),
        step_sum(samples, channels, ch, 0) == 0,
        n > 0 ==> n * mean_step(samples, channels, ch, n) <= step_sum(samples, channels, ch, n)
            < n * mean_step(samples, channels, ch, n) + n,
{
    if n > 0 {
        let sum = step_sum(samples, channels, ch, n);
        vstd::arithmetic::div_mod::lemma_fundamental_div_mod(sum, n);
        vstd::arithmetic::div_mod::lemma_mod_bound(sum, n);
    }
}

/// A Microsoft block opens with the first pair of weights, the two oldest samples
/// of the channel, and a quarter of the mean distance of its first 17 samples,
/// rounded down, as the step, from 16 to 16384.
pub proof fn ms_opens_with(
    samples: Seq<i16>,
    channels: int,
    ch: int,
    per_channel: int,
    quarter: int,
)
    requires
        channels > 0,
        per_channel >= 2,
        per_channel * channels <= samples.len() < (per_channel + 1) * channels,
        ({
            let mean = mean_step(samples, channels, ch, if per_channel > 16 {
                16
            } else {
                per_channel - 1
            });
            4 * quarter <= mean < 4 * quarter + 4
        }),
    ensures
        ({
            let o = ms_opening(samples, channels, ch);
            &&& o.coef1 == 256 && o.coef2 == 0
            &&& o.sample2 == samples[ch]
            &&& o.sample1 == samples[channels + ch]
            &&& quarter < 16 ==> o.delta == 16
            &&& 16 <= quarter <= 16384 ==> o.delta == quarter
            &&& quarter > 16384 ==> o.delta == 16384
        }),
{
    assert(samples.len() as int / channels == per_channel) by {
        assert((per_channel + 1) * channels == per_channel * channels + channels)
            by (nonlinear_arith);
        vstd::arithmetic::div_mod::lemma_fundamental_div_mod_converse(
            samples.len() as int,
            channels,
            per_channel,
            samples.len() - per_channel * channels,
        );
    }
    assert(0 * channels == 0 && 1 * channels == channels);
}

/// The index for a mean distance names the first step of the ladder that is not
/// below eight thirds of it, or the last one.
pub proof fn the_index_fits_the_mean(mean: int, wanted: int, i: int)
    requires
        mean >= 0,
        3 * wanted <= 8 * mean < 3 * wanted + 3,
        0 <= i <= 88,
    ensures
        0 <= index_for_mean(mean) <= 88,
        index_for_mean(mean) < 88 ==> ima_step(index_for_mean(mean)) >= wanted,
        i < index_for_mean(mean) ==> ima_step(i) < wanted,
        wanted <= 7 ==> index_for_mean(mean) == 0,
{
    let target = if wanted < 7 {
        7
    } else {
        wanted
    };
    assert((8 * mean) / 3 == wanted);
    first_step(target, 0, i);
}

proof fn first_step(target: int, from: int, i: int)
    requires
        0 <= from <= 88,
        from <= i <= 88,
    ensures
        from <= index_for_step(target, from) <= 88,
        index_for_step(target, from) < 88 ==> IMA_STEP_SIZE[index_for_step(target, from)]
            >= target,
        i < index_for_step(target, from) ==> IMA_STEP_SIZE[i] < target,
        from < 88 && IMA_STEP_SIZE[from] >= target ==> index_for_step(target, from) == from,
    decreases 88 - from,
{
    if from < 88 && IMA_STEP_SIZE[from] < target {
        first_step(target, from + 1, if i == from {
            88
        } else {
            i
        });
    }
}

/// A WAV block opens with the first sample of the channel, and with the index for
/// the mean distance of its first 17 samples; with one sample alone, at zero.
pub proof fn wav_opens_with(samples: Seq<i16>, channels: int, ch: int, per_channel: int)
    requires
        channels > 0,
        per_channel >= 1,
        per_channel * channels == samples.len(),
    ensures
        ({
            let o = wav_opening(samples, channels, ch);
            &&& o.predictor == samples[ch]
            &&& per_channel == 1 ==> o.step_index == 0
            &&& 1 < per_channel <= 16 ==> o.step_index == index_for_mean(
                mean_step(samples, channels, ch, per_channel - 1),
            )
            &&& per_channel > 16 ==> o.step_index == index_for_mean(
                mean_step(samples, channels, ch, 16),
            )
        }),
{
    vstd::arithmetic::div_mod::lemma_div_multiples_vanish(per_channel, channels);
    assert(channels * per_channel == per_channel * channels) by (nonlinear_arith);
    assert(0 * channels == 0);
}

/// A QuickTime block opens with the nearest multiple of 128 not above the first
/// sample of the channel, and with the index for the mean distance of its first 17
/// samples.
pub proof fn qt_opens_with(samples: Seq<i16>, channels: int, ch: int)
    ensures
        ({
            let o = qt_opening(samples, channels, ch);
            &&& o.predictor % 128 == 0
            &&& o.predictor <= samples[ch] < o.predictor + 128
            &&& o.step_index == index_for_mean(mean_step(samples, channels, ch, 16))
        }),
{
    assert(0 * channels == 0);
}

/// With the ladder a block opens with the same samples, and with the index that the
/// channel has come to, held to the ladder.
pub proof fn ladder_opens_with(states: Seq<ImaModel>, samples: Seq<i16>, channels: int, ch: int)
    ensures
        ({
            let w = wav_ladder_opening(states, samples, channels, ch);
            let q = qt_ladder_opening(states, samples, channels, ch);
            let i = states[ch].step_index;
            &&& w.predictor == samples[ch]
            &&& q.predictor % 128 == 0
            &&& q.predictor <= samples[ch] < q.predictor + 128
            &&& w.step_index == q.step_index
            &&& i < 0 ==> w.step_index == 0
            &&& 0 <= i <= 88 ==> w.step_index == i
            &&& i > 88 ==> w.step_index == 88
        }),
{
    assert(0 * channels == 0);
}

/// A Microsoft block holds two codes to a byte behind seven bytes per channel, a
/// WAV block eight codes to four bytes of a channel behind four.
pub proof fn room_for_codes(channels: int, groups: int, block_size: int)
    requires
        groups >= 0,
    ensures
        channels == 1 ==> ms_room(channels, block_size) == 2 * (block_size - 7),
        channels == 2 ==> ms_room(channels, block_size) == block_size - 14,
        1 <= channels && block_size == 4 * channels + 4 * channels * groups ==> wav_room(
            channels,
            block_size,
        ) == groups,
{
    if 1 <= channels {
        vstd::arithmetic::div_mod::lemma_div_multiples_vanish(groups, 4 * channels);
        assert(groups * (4 * channels) == 4 * channels * groups) by (nonlinear_arith);
    }
}

// ---- Which code is picked ----

/// Of all codes, the Microsoft search picks one that comes closest to the sample;
/// of those one of the fewest steps; and of two opposite ones the positive one.
pub proof fn ms_search_order(s: MsModel, target: int, n: int)
    requires
        0 <= n < 16,
    ensures
        ({
            let best = ms_best(s, target);
            let gap = |c: int|
                if ms_sample(s, c) < target {
                    target - ms_sample(s, c)
                } else {
                    ms_sample(s, c) - target
                };
            let size = |c: int|
                if c < 8 {
                    c
                } else {
                    16 - c
                };
            &&& 0 <= best < 16
            &&& gap(best) <= gap(n)
            &&& gap(best) == gap(n) ==> size(best) <= size(n)
            &&& gap(best) == gap(n) && size(best) == size(n) ==> best <= n
        }),
{
    let f = |c: int| ms_cost(s, target, c);
    least_is_least(f, 16);
    let best = ms_best(s, target);
    assert(f(n) == ms_cost(s, target, n));
    assert(f(best) == ms_cost(s, target, best));
}

/// The four-bit ladder asks three questions of the distance: does it reach a step,
/// does the rest reach half a step, does what is then left reach a quarter, halves
/// and quarters rounded down.
pub proof fn ladder_questions(
    predictor: int,
    step: int,
    target: int,
    distance: int,
    half: int,
    quarter: int,
)
    requires
        distance >= 0,
        target == predictor + distance || (distance > 0 && target == predictor - distance),
        step >= 0,
        2 * half <= step < 2 * half + 2,
        4 * quarter <= step < 4 * quarter + 4,
    ensures
        ({
            let code = ima_code4(predictor, step, target);
            let rest = if distance >= step {
                distance - step
            } else {
                distance
            };
            let left = if rest >= half {
                rest - half
            } else {
                rest
            };
            &&& 0 <= code < 16
            &&& target < predictor <==> code / 8 == 1
            &&& distance >= step <==> (code / 4) % 2 == 1
            &&& rest >= half <==> (code / 2) % 2 == 1
            &&& left >= quarter <==> code % 2 == 1
        }),
{
}

/// The three-bit ladder asks the first two of them.
pub proof fn ladder3_questions(predictor: int, step: int, target: int, distance: int, half: int)
    requires
        distance >= 0,
        target == predictor + distance || (distance > 0 && target == predictor - distance),
        step >= 0,
        2 * half <= step < 2 * half + 2,
    ensures
        ({
            let code = ima_code3(predictor, step, target);
            let rest = if distance >= step {
                distance - step
            } else {
                distance
            };
            &&& 0 <= code < 8
            &&& target < predictor <==> code / 4 == 1
            &&& distance >= step <==> (code / 2) % 2 == 1
            &&& rest >= half <==> code % 2 == 1
        }),
{
}

} // verus!
