//! What the block decoders give back of what the block encoders wrote.

use vstd::prelude::*;

use crate::arith::{least_is_least, magnitude, word_bytes_round_trip};
use crate::encoder::{
    channel_tail, ima_best, ima_chosen, ima_cost, ima_track, index_for_step_range, mean_step,
    ms_best, ms_block, ms_block_codes, ms_body, ms_chosen, ms_cost, ms_encode_error, ms_header,
    ms_opening, ms_openings, ms_room, ms_track, probe_count, qt_blocks, qt_encode_error,
    qt_opening, qt_openings, qt_streams, sample_at, wav_block, wav_block_codes, wav_encode_error,
    wav_opening, wav_openings, wav_room, wav_room_size, wav_streams,
};
use crate::error::Component;
use crate::ima_layout::{fit_for_blocks, nibble_pair, qt_layout_holds, wav_layout_holds};
use crate::ima_qt::{qt_codes, qt_error, qt_samples, qt_seed};
use crate::ima_wav::{
    ima_next4, ima_run4, wav_codes4, wav_error, wav_samples4, wav_seed, ImaModel,
};
use crate::interleave::{owner, place};
use crate::ms::{
    code_count_exact, first_bad_predictor, ms_codes, ms_error, ms_run, ms_sample, ms_samples,
    ms_seed, ms_signed, MsModel, STANDARD_COEFFS,
};

verus! {

/// The IMA decoder, fed with the chosen codes, walks the same states as the
/// encoder.
pub proof fn ima_lockstep(s: ImaModel, targets: Seq<int>, k: int)
    requires
        0 <= k <= targets.len(),
    ensures
        ima_run4(s, ima_chosen(s, targets), k) == ima_track(s, targets, k),
    decreases k,
{
    if k > 0 {
        ima_lockstep(s, targets, k - 1);
    }
}

/// No code would have brought the IMA encoder closer to a sample than the one
/// it chose, and no lower code as close.
pub proof fn ima_choice_is_closest(s: ImaModel, target: int, code: int)
    requires
        0 <= code < 16,
    ensures
        0 <= ima_best(s, target) < 16,
        magnitude(ima_next4(s, ima_best(s, target)).predictor - target) <= magnitude(
            ima_next4(s, code).predictor - target,
        ),
        code < ima_best(s, target) ==> magnitude(
            ima_next4(s, ima_best(s, target)).predictor - target,
        ) < magnitude(ima_next4(s, code).predictor - target),
{
    let f = |n: int| ima_cost(s, target, n);
    least_is_least(f, 16);
    assert(f(code) == ima_cost(s, target, code));
    assert(f(ima_best(s, target)) == ima_cost(s, target, ima_best(s, target)));
}

/// The Microsoft decoder, fed with the chosen codes, walks the same states as
/// the encoder.
pub proof fn ms_lockstep(s: MsModel, targets: Seq<int>, k: int)
    requires
        0 <= k <= targets.len(),
    ensures
        ms_run(s, ms_chosen(s, targets), k) == ms_track(s, targets, k),
    decreases k,
{
    if k > 0 {
        ms_lockstep(s, targets, k - 1);
    }
}

/// No code would have brought the Microsoft encoder closer to a sample than the
/// one it chose, and none of lesser size as close.
pub proof fn ms_choice_is_closest(s: MsModel, target: int, code: int)
    requires
        0 <= code < 16,
    ensures
        0 <= ms_best(s, target) < 16,
        magnitude(ms_sample(s, ms_best(s, target)) - target) <= magnitude(
            ms_sample(s, code) - target,
        ),
        magnitude(ms_signed(code)) < magnitude(ms_signed(ms_best(s, target))) ==> magnitude(
            ms_sample(s, ms_best(s, target)) - target,
        ) < magnitude(ms_sample(s, code) - target),
{
    let f = |n: int| ms_cost(s, target, n);
    least_is_least(f, 16);
    assert(f(code) == ms_cost(s, target, code));
    assert(f(ms_best(s, target)) == ms_cost(s, target, ms_best(s, target)));
}

/// Chosen IMA codes are four bits wide.
proof fn ima_codes_range(s: ImaModel, targets: Seq<int>, k: int)
    requires
        0 <= k < targets.len(),
    ensures
        0 <= ima_chosen(s, targets)[k] < 16,
{
    ima_choice_is_closest(ima_track(s, targets, k), targets[k], 0);
}

/// The channels of a WAV block can be laid out.
pub proof fn wav_fits(samples: Seq<i16>, channels: int, block_size: int)
    requires
        wav_encode_error(samples.len() as int, channels, block_size) is None,
    ensures
        fit_for_blocks(
            wav_openings(samples, channels),
            wav_streams(samples, channels),
            8 * wav_room(channels, block_size),
        ),
        samples.len() as int / channels == 1 + 8 * wav_room(channels, block_size),
{
    let room = wav_room(channels, block_size);
    wav_room_size(channels, block_size);
    assert(samples.len() as int / channels == 1 + 8 * room) by {
        vstd::arithmetic::div_mod::lemma_div_multiples_vanish(1 + 8 * room, channels);
        assert(channels * (1 + 8 * room) == (1 + 8 * room) * channels) by (nonlinear_arith);
    }
    let openings = wav_openings(samples, channels);
    let codes = wav_streams(samples, channels);
    assert forall|ch: int| 0 <= ch < channels implies (#[trigger] openings[ch]).valid() by {
        let mean = mean_step(samples, channels, ch, probe_count(samples.len() as int / channels));
        index_for_step_range(if (8 * mean) / 3 < 7 { 7 } else { (8 * mean) / 3 }, 0);
    }
    assert forall|ch: int, k: int| 0 <= ch < channels && 0 <= k < 8 * room implies 0
        <= #[trigger] codes[ch][k] < 16 by {
        ima_codes_range(
            wav_opening(samples, channels, ch),
            channel_tail(samples, channels, ch, 1, samples.len() as int / channels - 1),
            k,
        );
    }
}

/// Decoding an encoded WAV block gives, for every sample, the sample that the
/// encoder settled for; the first sample of each channel comes back exactly.
pub proof fn wav_round_trip(samples: Seq<i16>, channels: int, block_size: int)
    requires
        wav_encode_error(samples.len() as int, channels, block_size) is None,
    ensures
        wav_error(
            wav_block(samples, channels, block_size),
            channels,
            4,
            Component::ImaWav,
        ) is None,
        wav_samples4(wav_block(samples, channels, block_size), channels).len() == samples.len(),
        forall|j: int|
            0 <= j < samples.len() ==> #[trigger] wav_samples4(
                wav_block(samples, channels, block_size),
                channels,
            )[j] == ima_track(
                wav_opening(samples, channels, j % channels),
                channel_tail(
                    samples,
                    channels,
                    j % channels,
                    1,
                    samples.len() as int / channels - 1,
                ),
                j / channels,
            ).predictor as i16,
        forall|j: int|
            0 <= j < channels ==> #[trigger] wav_samples4(
                wav_block(samples, channels, block_size),
                channels,
            )[j] == samples[j],
{
    let block = wav_block(samples, channels, block_size);
    let decoded = wav_samples4(block, channels);
    wav_room_size(channels, block_size);
    let room = wav_room(channels, block_size);
    wav_fits(samples, channels, block_size);
    wav_layout_holds(
        wav_openings(samples, channels),
        wav_streams(samples, channels),
        channels,
        room,
    );
    assert forall|j: int| 0 <= j < samples.len() implies #[trigger] decoded[j] == ima_track(
        wav_opening(samples, channels, j % channels),
        channel_tail(samples, channels, j % channels, 1, samples.len() as int / channels - 1),
        j / channels,
    ).predictor as i16 by {
        owner(j, channels, 1 + 8 * room);
        let ch = j % channels;
        assert(wav_seed(block, ch) == wav_opening(samples, channels, ch));
        assert(wav_codes4(block, channels, ch) == wav_block_codes(samples, channels, ch));
        ima_lockstep(
            wav_opening(samples, channels, ch),
            channel_tail(samples, channels, ch, 1, samples.len() as int / channels - 1),
            j / channels,
        );
    }
    assert forall|j: int| 0 <= j < channels implies #[trigger] decoded[j] == samples[j] by {
        assert(channels <= samples.len()) by (nonlinear_arith)
            requires
                samples.len() == (1 + 8 * room) * channels,
                room >= 0,
                channels > 0,
        ;
        place(0, j, channels, 1);
        assert(sample_at(samples, channels, j, 0) == samples[j]);
    }
}

/// Decoding encoded QuickTime blocks gives, for every sample, the sample that
/// the encoder settled for.
pub proof fn qt_round_trip(samples: Seq<i16>, channels: int)
    requires
        qt_encode_error(samples.len() as int, channels) is None,
    ensures
        qt_error(qt_blocks(samples, channels).len() as int, channels) is None,
        qt_samples(qt_blocks(samples, channels), channels).len() == samples.len(),
        forall|j: int|
            0 <= j < samples.len() ==> #[trigger] qt_samples(
                qt_blocks(samples, channels),
                channels,
            )[j] == ima_track(
                qt_opening(samples, channels, j % channels),
                channel_tail(samples, channels, j % channels, 0, 64),
                j / channels + 1,
            ).predictor as i16,
{
    let data = qt_blocks(samples, channels);
    let decoded = qt_samples(data, channels);
    qt_fits(samples, channels);
    assert forall|j: int| 0 <= j < samples.len() implies #[trigger] decoded[j] == ima_track(
        qt_opening(samples, channels, j % channels),
        channel_tail(samples, channels, j % channels, 0, 64),
        j / channels + 1,
    ).predictor as i16 by {
        owner(j, channels, 64);
        let ch = j % channels;
        qt_layout_holds(
            qt_openings(samples, channels),
            qt_streams(samples, channels),
            channels,
            ch,
        );
        ima_lockstep(
            qt_opening(samples, channels, ch),
            channel_tail(samples, channels, ch, 0, 64),
            j / channels + 1,
        );
    }
}

/// The channels of QuickTime blocks can be laid out.
pub proof fn qt_fits(samples: Seq<i16>, channels: int)
    requires
        qt_encode_error(samples.len() as int, channels) is None,
    ensures
        fit_for_blocks(qt_openings(samples, channels), qt_streams(samples, channels), 64),
        forall|ch: int|
            0 <= ch < channels ==> (#[trigger] qt_openings(samples, channels)[ch]).predictor % 128
                == 0,
{
    let openings = qt_openings(samples, channels);
    let codes = qt_streams(samples, channels);
    assert forall|ch: int| 0 <= ch < channels implies (#[trigger] openings[ch]).valid()
        && openings[ch].predictor % 128 == 0 by {
        let mean = mean_step(samples, channels, ch, probe_count(64));
        index_for_step_range(if (8 * mean) / 3 < 7 { 7 } else { (8 * mean) / 3 }, 0);
    }
    assert forall|ch: int, k: int| 0 <= ch < channels && 0 <= k < 64 implies 0
        <= #[trigger] codes[ch][k] < 16 by {
        ima_codes_range(
            qt_opening(samples, channels, ch),
            channel_tail(samples, channels, ch, 0, 64),
            k,
        );
    }
}

/// A Microsoft block holds the opening state of every channel.
pub proof fn ms_block_seed(samples: Seq<i16>, channels: int, block_size: int, ch: int)
    requires
        ms_encode_error(samples.len() as int, channels, block_size) is None,
        0 <= ch < channels,
    ensures
        ms_block(samples, channels, block_size)[ch] == 0,
        ms_seed(ms_block(samples, channels, block_size), channels, STANDARD_COEFFS@, ch)
            == ms_opening(samples, channels, ch),
{
    let opening = ms_opening(samples, channels, ch);
    word_bytes_round_trip(opening.delta);
    word_bytes_round_trip(opening.sample1);
    word_bytes_round_trip(opening.sample2);
    let head = ms_header(ms_openings(samples, channels));
    let block = ms_block(samples, channels, block_size);
    assert forall|j: int| 0 <= j < 7 * channels implies block[j] == head[j] by {}
    if channels == 1 {
        assert(ms_openings(samples, 1)[0] == opening);
    } else {
        assert(ms_openings(samples, 2)[ch] == opening);
    }
}

/// A Microsoft block holds the codes of every channel.
pub proof fn ms_block_stream(samples: Seq<i16>, channels: int, block_size: int, ch: int)
    requires
        ms_encode_error(samples.len() as int, channels, block_size) is None,
        0 <= ch < channels,
    ensures
        ms_codes(ms_block(samples, channels, block_size), channels, ch) == ms_block_codes(
            samples,
            channels,
            block_size,
            ch,
        ),
{
    let block = ms_block(samples, channels, block_size);
    let room = ms_room(channels, block_size);
    let body = ms_body(samples, channels, block_size);
    let head = ms_header(ms_openings(samples, channels));
    let codes = ms_block_codes(samples, channels, block_size, ch);
    let got = ms_codes(block, channels, ch);
    assert(head.len() == 7 * channels);
    assert(block.len() == block_size);
    assert forall|k: int| 0 <= k < room implies got[k] == codes[k] by {
        let m = k * channels + ch;
        place(k, ch, channels, room);
        code_count_exact(block_size, channels);
        let b = m / 2;
        assert(block[7 * channels + b] == body[b]);
        ms_code_range(samples, channels, block_size, 2 * b);
        ms_code_range(samples, channels, block_size, 2 * b + 1);
        let hi = ms_block_codes(samples, channels, block_size, (2 * b) % channels)[(2 * b)
            / channels];
        let lo = ms_block_codes(samples, channels, block_size, (2 * b + 1) % channels)[(2 * b + 1)
            / channels];
        nibble_pair(lo, hi);
        assert(m == 2 * b || m == 2 * b + 1);
    }
    assert(got =~= codes);
}

/// Code `m` of a Microsoft block is four bits wide.
proof fn ms_code_range(samples: Seq<i16>, channels: int, block_size: int, m: int)
    requires
        channels == 1 || channels == 2,
        7 * channels <= block_size,
        0 <= m < 2 * (block_size - 7 * channels),
    ensures
        0 <= ms_block_codes(samples, channels, block_size, m % channels)[m / channels] < 16,
{
    let ch = m % channels;
    let k = m / channels;
    code_count_exact(block_size, channels);
    owner(m, channels, ms_room(channels, block_size));
    let tail = channel_tail(samples, channels, ch, 2, ms_room(channels, block_size));
    let opening = ms_opening(samples, channels, ch);
    ms_choice_is_closest(ms_track(opening, tail, k), tail[k], 0);
}

/// No pair of weights but the first is named.
proof fn no_bad_predictor(block: Seq<u8>, channels: int, from: int)
    requires
        0 <= from <= channels,
        forall|ch: int| 0 <= ch < channels ==> block[ch] == 0,
    ensures
        first_bad_predictor(block, channels, 7, from) == channels,
    decreases channels - from,
{
    if from < channels {
        no_bad_predictor(block, channels, from + 1);
    }
}

/// Decoding an encoded Microsoft block gives the first two samples of each
/// channel exactly, and for every later one the sample that the encoder settled
/// for.
pub proof fn ms_round_trip(samples: Seq<i16>, channels: int, block_size: int)
    requires
        ms_encode_error(samples.len() as int, channels, block_size) is None,
    ensures
        ms_block(samples, channels, block_size).len() == block_size,
        ms_error(ms_block(samples, channels, block_size), channels, 7) is None,
        ms_samples(ms_block(samples, channels, block_size), channels, STANDARD_COEFFS@).len() == (2
            + ms_room(channels, block_size)) * channels,
        forall|j: int|
            0 <= j < 2 * channels ==> #[trigger] ms_samples(
                ms_block(samples, channels, block_size),
                channels,
                STANDARD_COEFFS@,
            )[j] == samples[j],
        forall|j: int|
            2 * channels <= j < (2 + ms_room(channels, block_size)) * channels
                ==> #[trigger] ms_samples(
                ms_block(samples, channels, block_size),
                channels,
                STANDARD_COEFFS@,
            )[j] == ms_track(
                ms_opening(samples, channels, j % channels),
                channel_tail(
                    samples,
                    channels,
                    j % channels,
                    2,
                    ms_room(channels, block_size),
                ),
                j / channels - 1,
            ).sample1 as i16,
{
    let block = ms_block(samples, channels, block_size);
    let room = ms_room(channels, block_size);
    let decoded = ms_samples(block, channels, STANDARD_COEFFS@);
    assert(block.len() == block_size);
    assert forall|ch: int| 0 <= ch < channels implies block[ch] == 0 by {
        ms_block_seed(samples, channels, block_size, ch);
    }
    no_bad_predictor(block, channels, 0);
    assert(2 * channels <= (2 + room) * channels) by (nonlinear_arith)
        requires
            room >= 0,
            channels > 0,
    ;
    assert forall|j: int| 0 <= j < 2 * channels implies #[trigger] decoded[j] == samples[j] by {
        owner(j, channels, 2 + room);
        ms_block_seed(samples, channels, block_size, j % channels);
        assert(j / channels == 0 || j / channels == 1) by {
            owner(j, channels, 2);
        }
    }
    assert forall|j: int| 2 * channels <= j < (2 + room) * channels implies #[trigger] decoded[j]
        == ms_track(
        ms_opening(samples, channels, j % channels),
        channel_tail(samples, channels, j % channels, 2, room),
        j / channels - 1,
    ).sample1 as i16 by {
        owner(j, channels, 2 + room);
        let ch = j % channels;
        assert(j / channels >= 2) by (nonlinear_arith)
            requires
                j >= 2 * channels,
                channels > 0,
        ;
        ms_block_seed(samples, channels, block_size, ch);
        ms_block_stream(samples, channels, block_size, ch);
        ms_lockstep(
            ms_opening(samples, channels, ch),
            channel_tail(samples, channels, ch, 2, room),
            j / channels - 1,
        );
    }
}

// ---- No other code at a place of a block decodes closer ----

/// At no place of an encoded Microsoft block would another code, behind the codes
/// that stand before it, decode closer to the sample, and none of lesser size as
/// close.
pub proof fn ms_block_is_closest(
    samples: Seq<i16>,
    channels: int,
    block_size: int,
    ch: int,
    k: int,
    n: int,
)
    requires
        ms_encode_error(samples.len() as int, channels, block_size) is None,
        0 <= ch < channels,
        0 <= k < ms_room(channels, block_size),
        0 <= n < 16,
    ensures
        ({
            let block = ms_block(samples, channels, block_size);
            let codes = ms_codes(block, channels, ch);
            let s = ms_run(ms_seed(block, channels, STANDARD_COEFFS@, ch), codes, k);
            let j = (2 + k) * channels + ch;
            let target = samples[j] as int;
            &&& 0 <= codes[k] < 16
            &&& ms_samples(block, channels, STANDARD_COEFFS@)[j] == ms_sample(s, codes[k])
            &&& magnitude(ms_sample(s, codes[k]) - target) <= magnitude(ms_sample(s, n) - target)
            &&& magnitude(ms_signed(n)) < magnitude(ms_signed(codes[k])) ==> magnitude(
                ms_sample(s, codes[k]) - target,
            ) < magnitude(ms_sample(s, n) - target)
        }),
{
    let room = ms_room(channels, block_size);
    let opening = ms_opening(samples, channels, ch);
    let tail = channel_tail(samples, channels, ch, 2, room);
    ms_block_seed(samples, channels, block_size, ch);
    ms_block_stream(samples, channels, block_size, ch);
    ms_lockstep(opening, tail, k);
    ms_choice_is_closest(ms_track(opening, tail, k), tail[k], n);
    let block = ms_block(samples, channels, block_size);
    assert(block.len() == block_size);
    place(2 + k, ch, channels, 2 + room);
}

/// At no place of an encoded WAV block would another code, behind the codes that
/// stand before it, decode closer to the sample, and no lower code as close.
pub proof fn wav_block_is_closest(
    samples: Seq<i16>,
    channels: int,
    block_size: int,
    ch: int,
    k: int,
    n: int,
)
    requires
        wav_encode_error(samples.len() as int, channels, block_size) is None,
        0 <= ch < channels,
        0 <= k < 8 * wav_room(channels, block_size),
        0 <= n < 16,
    ensures
        ({
            let block = wav_block(samples, channels, block_size);
            let codes = wav_codes4(block, channels, ch);
            let s = ima_run4(wav_seed(block, ch), codes, k);
            let j = (1 + k) * channels + ch;
            let target = samples[j] as int;
            let got = ima_next4(s, codes[k]).predictor;
            &&& 0 <= codes[k] < 16
            &&& wav_samples4(block, channels)[j] == got
            &&& magnitude(got - target) <= magnitude(ima_next4(s, n).predictor - target)
            &&& n < codes[k] ==> magnitude(got - target) < magnitude(
                ima_next4(s, n).predictor - target,
            )
        }),
{
    let room = wav_room(channels, block_size);
    wav_room_size(channels, block_size);
    wav_fits(samples, channels, block_size);
    wav_layout_holds(
        wav_openings(samples, channels),
        wav_streams(samples, channels),
        channels,
        room,
    );
    let block = wav_block(samples, channels, block_size);
    assert(wav_seed(block, ch) == wav_openings(samples, channels)[ch]);
    assert(wav_codes4(block, channels, ch) == wav_streams(samples, channels)[ch]);
    let opening = wav_opening(samples, channels, ch);
    let tail = channel_tail(samples, channels, ch, 1, samples.len() as int / channels - 1);
    ima_lockstep(opening, tail, k);
    ima_choice_is_closest(ima_track(opening, tail, k), tail[k], n);
    place(1 + k, ch, channels, 1 + 8 * room);
}

/// At no place of encoded QuickTime blocks would another code, behind the codes
/// that stand before it, decode closer to the sample, and no lower code as close.
pub proof fn qt_block_is_closest(samples: Seq<i16>, channels: int, ch: int, k: int, n: int)
    requires
        qt_encode_error(samples.len() as int, channels) is None,
        0 <= ch < channels,
        0 <= k < 64,
        0 <= n < 16,
    ensures
        ({
            let data = qt_blocks(samples, channels);
            let codes = qt_codes(data, ch);
            let s = ima_run4(qt_seed(data, ch), codes, k);
            let j = k * channels + ch;
            let target = samples[j] as int;
            let got = ima_next4(s, codes[k]).predictor;
            &&& 0 <= codes[k] < 16
            &&& qt_samples(data, channels)[j] == got
            &&& magnitude(got - target) <= magnitude(ima_next4(s, n).predictor - target)
            &&& n < codes[k] ==> magnitude(got - target) < magnitude(
                ima_next4(s, n).predictor - target,
            )
        }),
{
    qt_fits(samples, channels);
    qt_layout_holds(qt_openings(samples, channels), qt_streams(samples, channels), channels, ch);
    let opening = qt_opening(samples, channels, ch);
    let tail = channel_tail(samples, channels, ch, 0, 64);
    ima_lockstep(opening, tail, k);
    ima_choice_is_closest(ima_track(opening, tail, k), tail[k], n);
    place(k, ch, channels, 64);
}

} // verus!
