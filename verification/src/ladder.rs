//! The threshold-ladder compressor of IMA ADPCM, in WAV and QuickTime blocks.
//!
//! The ladder takes each code from the distance to the running sample alone.
//! A block opens with the step index that the block before it ended on, so the
//! bytes of a stream follow from its samples and nothing else.

use vstd::prelude::*;

use crate::arith::{clamp, clamp_i32, magnitude};
use crate::encoder::{
    channel_tail, ima_best, nibbles, qt_encode_error, sample_at, wav_encode_error, wav_room,
    wav_room_size, QT_SAMPLES_PER_BLOCK,
};
use crate::error::{Component, Error};
use crate::ima_layout::{
    coded, coded_one_more, lay_qt, lay_wav, qt_layout, qt_layout_holds,
    wav_layout, wav_layout_holds,
};
use crate::ima_qt::{qt_codes, qt_error, qt_samples, qt_seed};
use crate::ima_wav::{
    ima_code4, ima_next4, ima_quantize_nibble, ima_run4, ima_step, ima_step_bounds, wav_codes4,
    wav_error, wav_samples4, wav_seed, ImaCodecState, ImaModel,
};
use crate::interleave::{owner, place};
use crate::round_trip::ima_choice_is_closest;

verus! {

/// The ladder's code for a sample.
pub open spec fn ladder_code(s: ImaModel, target: int) -> int {
    ima_code4(s.predictor, ima_step(s.step_index), target)
}

/// The state once the first `k` samples are coded.
pub open spec fn ladder_track(s: ImaModel, targets: Seq<int>, k: int) -> ImaModel
    decreases k,
{
    if k <= 0 {
        s
    } else {
        let before = ladder_track(s, targets, k - 1);
        ima_next4(before, ladder_code(before, targets[k - 1]))
    }
}

/// The codes of samples.
pub open spec fn ladder_codes(s: ImaModel, targets: Seq<int>) -> Seq<int> {
    Seq::new(
        targets.len(),
        |k: int| ladder_code(ladder_track(s, targets, k), targets[k]),
    )
}

/// Coding keeps a channel valid, and codes are four bits wide.
pub proof fn ladder_valid(s: ImaModel, targets: Seq<int>, k: int)
    requires
        s.valid(),
    ensures
        ladder_track(s, targets, k).valid(),
        0 <= ladder_code(ladder_track(s, targets, k), targets[k]) < 16,
    decreases k,
{
    ima_step_bounds(ladder_track(s, targets, k).step_index);
    if k > 0 {
        ladder_valid(s, targets, k - 1);
    }
}

/// The state that channel `ch` of a WAV block starts from: its first sample,
/// and the step index it has come to.
pub open spec fn wav_ladder_opening(
    states: Seq<ImaModel>,
    samples: Seq<i16>,
    channels: int,
    ch: int,
) -> ImaModel {
    ImaModel {
        predictor: sample_at(samples, channels, ch, 0),
        step_index: clamp(states[ch].step_index, 0, 88),
    }
}

/// The state that channel `ch` of a QuickTime block starts from: its first
/// sample rounded down to a multiple of 128, and the step index it has come to.
pub open spec fn qt_ladder_opening(
    states: Seq<ImaModel>,
    samples: Seq<i16>,
    channels: int,
    ch: int,
) -> ImaModel {
    let first = sample_at(samples, channels, ch, 0);
    ImaModel {
        predictor: first - first % 128,
        step_index: clamp(states[ch].step_index, 0, 88),
    }
}

/// The samples of channel `ch` that a WAV block has codes for.
pub open spec fn wav_targets(samples: Seq<i16>, channels: int, ch: int) -> Seq<int> {
    channel_tail(samples, channels, ch, 1, samples.len() as int / channels - 1)
}

/// A WAV block of samples, from the states that the channels have come to.
pub open spec fn wav_ladder_block(
    states: Seq<ImaModel>,
    samples: Seq<i16>,
    channels: int,
    block_size: int,
) -> Seq<u8> {
    wav_layout(
        Seq::new(
            channels as nat,
            |ch: int| wav_ladder_opening(states, samples, channels, ch),
        ),
        Seq::new(
            channels as nat,
            |ch: int|
                ladder_codes(
                    wav_ladder_opening(states, samples, channels, ch),
                    wav_targets(samples, channels, ch),
                ),
        ),
        channels,
        block_size - 4 * channels,
    )
}

/// The states of the channels behind a WAV block.
pub open spec fn wav_ladder_states(
    states: Seq<ImaModel>,
    samples: Seq<i16>,
    channels: int,
) -> Seq<ImaModel> {
    Seq::new(
        channels as nat,
        |ch: int|
            ladder_track(
                wav_ladder_opening(states, samples, channels, ch),
                wav_targets(samples, channels, ch),
                samples.len() as int / channels - 1,
            ),
    )
}

/// QuickTime blocks of samples, from the states that the channels have come to.
pub open spec fn qt_ladder_blocks(
    states: Seq<ImaModel>,
    samples: Seq<i16>,
    channels: int,
) -> Seq<u8> {
    qt_layout(
        Seq::new(
            channels as nat,
            |ch: int| qt_ladder_opening(states, samples, channels, ch),
        ),
        Seq::new(
            channels as nat,
            |ch: int|
                ladder_codes(
                    qt_ladder_opening(states, samples, channels, ch),
                    channel_tail(samples, channels, ch, 0, 64),
                ),
        ),
        channels,
    )
}

/// The states of the channels behind QuickTime blocks.
pub open spec fn qt_ladder_states(
    states: Seq<ImaModel>,
    samples: Seq<i16>,
    channels: int,
) -> Seq<ImaModel> {
    Seq::new(
        channels as nat,
        |ch: int|
            ladder_track(
                qt_ladder_opening(states, samples, channels, ch),
                channel_tail(samples, channels, ch, 0, 64),
                64,
            ),
    )
}

/// The states of channels over the integers.
pub open spec fn state_models(states: Seq<ImaCodecState>) -> Seq<ImaModel> {
    Seq::new(states.len(), |ch: int| states[ch]@)
}

/// Codes `n` samples of a channel, from sample `first` on.
fn ladder_channel(
    opening: ImaCodecState,
    samples: &[i16],
    channels: usize,
    ch: usize,
    first: usize,
    n: usize,
) -> (r: (Vec<u8>, ImaCodecState))
    requires
        opening@.valid(),
        ch < channels,
        (first + n) * channels <= samples@.len(),
        first + n <= usize::MAX,
    ensures
        ({
            let targets = channel_tail(
                samples@,
                channels as int,
                ch as int,
                first as int,
                n as int,
            );
            &&& nibbles(r.0@, ladder_codes(opening@, targets))
            &&& r.0@.len() == n
            &&& r.1@ == ladder_track(opening@, targets, n as int)
        }),
{
    let ghost targets = channel_tail(
        samples@,
        channels as int,
        ch as int,
        first as int,
        n as int,
    );
    let len: usize = samples.len();
    let mut predictor: i32 = opening.predictor;
    let mut step_index: i32 = opening.step_index;
    let mut codes: Vec<u8> = Vec::new();
    let mut k: usize = 0;
    while k < n
        invariant
            k <= n,
            ch < channels,
            (first + n) * channels <= len == samples@.len(),
            first + n <= usize::MAX,
            opening@.valid(),
            targets == channel_tail(
                samples@,
                channels as int,
                ch as int,
                first as int,
                n as int,
            ),
            (ImaModel { predictor: predictor as int, step_index: step_index as int })
                == ladder_track(opening@, targets, k as int),
            nibbles(codes@, ladder_codes(opening@, targets).take(k as int)),
            codes@.len() == k,
        decreases n - k,
    {
        proof {
            ladder_valid(opening@, targets, k as int);
            place(first + k, ch as int, channels as int, first + n);
            assert((first + k) * channels <= (first + n) * channels) by (nonlinear_arith)
                requires
                    k <= n,
            ;
        }
        let target: i16 = samples[(first + k) * channels + ch];
        assert(target == targets[k as int]);
        let code: u8 = ima_quantize_nibble(&mut predictor, &mut step_index, target);
        codes.push(code);
        k = k + 1;
    }
    assert(ladder_codes(opening@, targets).take(n as int) =~= ladder_codes(opening@, targets));
    (codes, ImaCodecState { predictor, step_index })
}

/// Encodes one WAV block of `block_size` bytes with the ladder. The channels
/// start from the step indices that they have come to, and are left where the
/// block leaves them. The samples must be exactly as many as the block holds.
pub fn ima_encode_block_reference(
    samples: &[i16],
    channels: usize,
    block_size: usize,
    states: &mut [ImaCodecState],
) -> (r: Result<Vec<u8>, Error>)
    requires
        2 * block_size <= usize::MAX,
        old(states)@.len() == channels,
    ensures
        final(states)@.len() == channels,
        ({
            let c = channels as int;
            let before = state_models(old(states)@);
            let error = wav_encode_error(samples@.len() as int, c, block_size as int);
            match r {
                Ok(block) => {
                    &&& error is None
                    &&& block@ == wav_ladder_block(before, samples@, c, block_size as int)
                    &&& state_models(final(states)@) == wav_ladder_states(before, samples@, c)
                },
                Err(e) => error == Some(e) && final(states)@ == old(states)@,
            }
        }),
{
    if channels == 0 || channels > 8 {
        return Err(Error::ChannelCount { component: Component::ImaWavEncoder, channels });
    }
    let header: usize = 4 * channels;
    if block_size < header {
        return Err(Error::BlockSize { component: Component::ImaWavEncoder, block_size, header });
    }
    let body: usize = block_size - header;
    if body % header != 0 {
        return Err(
            Error::BodyLength {
                component: Component::ImaWavEncoder,
                len: body,
                group: header,
                channels,
            },
        );
    }
    let groups: usize = body / header;
    let ghost c = channels as int;
    proof {
        wav_room_size(c, block_size as int);
    }
    let codes_each: usize = 8 * groups;
    let per_channel: usize = 1 + codes_each;
    let len: usize = samples.len();
    if len != per_channel * channels {
        return Err(
            Error::SampleCount {
                component: Component::ImaWavEncoder,
                got: len,
                per_channel,
                channels,
            },
        );
    }
    assert(len as int / c == per_channel) by {
        vstd::arithmetic::div_mod::lemma_div_multiples_vanish(per_channel as int, c);
        assert(c * per_channel == per_channel * c) by (nonlinear_arith);
    }
    assert(c <= len) by (nonlinear_arith)
        requires
            per_channel >= 1,
            per_channel * c == len,
            c > 0,
    ;
    let ghost before = state_models(states@);
    let ghost models = Seq::new(
        c as nat,
        |ch: int| wav_ladder_opening(before, samples@, c, ch),
    );
    let ghost wanted = Seq::new(
        c as nat,
        |ch: int| ladder_codes(models[ch], wav_targets(samples@, c, ch)),
    );
    let ghost after = wav_ladder_states(before, samples@, c);
    let mut openings: Vec<ImaCodecState> = Vec::new();
    let mut codes: Vec<Vec<u8>> = Vec::new();
    let mut ch: usize = 0;
    while ch < channels
        invariant
            ch <= channels <= 8,
            c == channels,
            c <= len == samples@.len(),
            len as int / c == per_channel == 1 + codes_each,
            per_channel * c == len,
            states@.len() == c,
            before.len() == c,
            models == Seq::new(
                c as nat,
                |q: int| wav_ladder_opening(before, samples@, c, q),
            ),
            wanted == Seq::new(
                c as nat,
                |q: int| ladder_codes(models[q], wav_targets(samples@, c, q)),
            ),
            after == wav_ladder_states(before, samples@, c),
            forall|q: int| 0 <= q < ch ==> (#[trigger] states@[q])@ == after[q],
            forall|q: int| ch <= q < c ==> (#[trigger] states@[q])@ == before[q],
            forall|q: int| 0 <= q < ch ==> (#[trigger] models[q]).valid(),
            coded(openings@, codes@, models.take(ch as int), wanted.take(ch as int)),
        decreases channels - ch,
    {
        let state: ImaCodecState = states[ch];
        assert(state@ == before[ch as int]);
        let opening: ImaCodecState = ImaCodecState {
            predictor: samples[ch] as i32,
            step_index: clamp_i32(state.step_index, 0, 88),
        };
        assert(opening@ == models[ch as int]);
        let done: (Vec<u8>, ImaCodecState) = ladder_channel(
            opening,
            samples,
            channels,
            ch,
            1,
            codes_each,
        );
        proof {
            coded_one_more(openings@, codes@, opening, done.0, models, wanted, ch as int);
        }
        openings.push(opening);
        codes.push(done.0);
        states[ch] = done.1;
        assert(states@[ch as int]@ == after[ch as int]);
        ch = ch + 1;
    }
    assert(models.take(c) =~= models);
    assert(wanted.take(c) =~= wanted);
    proof {
        let room = groups as int;
        assert(4 * c * room == body);
        assert(state_models(states@) =~= after);
        let full = wav_ladder_block(before, samples@, c, block_size as int);
        assert(full =~= wav_layout(models, wanted, c, body as int)) by {
            assert(wanted =~= Seq::new(
                c as nat,
                |q: int|
                    ladder_codes(
                        wav_ladder_opening(before, samples@, c, q),
                        wav_targets(samples@, c, q),
                    ),
            ));
        }
    }
    Ok(lay_wav(&openings, &codes, channels, groups, Ghost(models), Ghost(wanted)))
}

/// Encodes one QuickTime block per channel from 64 interleaved samples per
/// channel with the ladder. The channels start from the step indices that they
/// have come to, and are left where the blocks leave them.
pub fn ima_qt_encode_block_reference(
    samples: &[i16],
    channels: usize,
    states: &mut [ImaCodecState],
) -> (r: Result<Vec<u8>, Error>)
    requires
        old(states)@.len() == channels,
    ensures
        final(states)@.len() == channels,
        ({
            let c = channels as int;
            let before = state_models(old(states)@);
            let error = qt_encode_error(samples@.len() as int, c);
            match r {
                Ok(block) => {
                    &&& error is None
                    &&& block@ == qt_ladder_blocks(before, samples@, c)
                    &&& state_models(final(states)@) == qt_ladder_states(before, samples@, c)
                },
                Err(e) => error == Some(e) && final(states)@ == old(states)@,
            }
        }),
{
    if channels < 1 || channels > 2 {
        return Err(Error::ChannelCount { component: Component::ImaQtEncoder, channels });
    }
    let len: usize = samples.len();
    if len != QT_SAMPLES_PER_BLOCK * channels {
        return Err(
            Error::SampleCount {
                component: Component::ImaQtEncoder,
                got: len,
                per_channel: QT_SAMPLES_PER_BLOCK,
                channels,
            },
        );
    }
    let ghost c = channels as int;
    let ghost before = state_models(states@);
    let ghost models = Seq::new(
        c as nat,
        |ch: int| qt_ladder_opening(before, samples@, c, ch),
    );
    let ghost wanted = Seq::new(
        c as nat,
        |ch: int| ladder_codes(models[ch], channel_tail(samples@, c, ch, 0, 64)),
    );
    let ghost after = qt_ladder_states(before, samples@, c);
    let mut openings: Vec<ImaCodecState> = Vec::new();
    let mut codes: Vec<Vec<u8>> = Vec::new();
    let mut ch: usize = 0;
    while ch < channels
        invariant
            ch <= channels <= 2,
            c == channels,
            samples@.len() == 64 * c,
            states@.len() == c,
            before.len() == c,
            models == Seq::new(
                c as nat,
                |q: int| qt_ladder_opening(before, samples@, c, q),
            ),
            wanted == Seq::new(
                c as nat,
                |q: int| ladder_codes(models[q], channel_tail(samples@, c, q, 0, 64)),
            ),
            after == qt_ladder_states(before, samples@, c),
            forall|q: int| 0 <= q < ch ==> (#[trigger] states@[q])@ == after[q],
            forall|q: int| ch <= q < c ==> (#[trigger] states@[q])@ == before[q],
            forall|q: int| 0 <= q < ch ==> (#[trigger] models[q]).valid(),
            coded(openings@, codes@, models.take(ch as int), wanted.take(ch as int)),
        decreases channels - ch,
    {
        let state: ImaCodecState = states[ch];
        assert(state@ == before[ch as int]);
        let first: i32 = samples[ch] as i32;
        let opening: ImaCodecState = ImaCodecState {
            predictor: first - (first + 32768) % 128,
            step_index: clamp_i32(state.step_index, 0, 88),
        };
        assert(opening@ == models[ch as int]);
        let done: (Vec<u8>, ImaCodecState) = ladder_channel(
            opening,
            samples,
            channels,
            ch,
            0,
            QT_SAMPLES_PER_BLOCK,
        );
        proof {
            coded_one_more(openings@, codes@, opening, done.0, models, wanted, ch as int);
        }
        openings.push(opening);
        codes.push(done.0);
        states[ch] = done.1;
        assert(states@[ch as int]@ == after[ch as int]);
        ch = ch + 1;
    }
    assert(models.take(c) =~= models);
    assert(wanted.take(c) =~= wanted);
    proof {
        assert(state_models(states@) =~= after);
        assert(wanted =~= Seq::new(
            c as nat,
            |q: int|
                ladder_codes(
                    qt_ladder_opening(before, samples@, c, q),
                    channel_tail(samples@, c, q, 0, 64),
                ),
        ));
    }
    Ok(lay_qt(&openings, &codes, channels, Ghost(models), Ghost(wanted)))
}

/// From the same state, the ladder comes no closer to a sample than the search
/// does.
pub proof fn search_is_no_worse(s: ImaModel, target: int)
    requires
        s.valid(),
    ensures
        magnitude(ima_next4(s, ima_best(s, target)).predictor - target) <= magnitude(
            ima_next4(s, ladder_code(s, target)).predictor - target,
        ),
{
    ladder_valid(s, seq![target], 0);
    ima_choice_is_closest(s, target, ladder_code(s, target));
}

/// The decoder, fed with the ladder's codes, walks the same states as the
/// ladder.
pub proof fn ladder_lockstep(s: ImaModel, targets: Seq<int>, k: int)
    requires
        0 <= k <= targets.len(),
    ensures
        ima_run4(s, ladder_codes(s, targets), k) == ladder_track(s, targets, k),
    decreases k,
{
    if k > 0 {
        ladder_lockstep(s, targets, k - 1);
    }
}

/// Decoding a WAV block of the ladder gives, for every sample, the sample that
/// the ladder settled for. The first sample of each channel comes back exactly,
/// the header names the step index that the channel had come to, and behind the
/// last code the decoder is in the state that the ladder carries on from.
pub proof fn wav_ladder_round_trip(
    states: Seq<ImaModel>,
    samples: Seq<i16>,
    channels: int,
    block_size: int,
)
    requires
        wav_encode_error(samples.len() as int, channels, block_size) is None,
    ensures
        ({
            let block = wav_ladder_block(states, samples, channels, block_size);
            let decoded = wav_samples4(block, channels);
            let n = samples.len() as int / channels - 1;
            &&& wav_error(block, channels, 4, Component::ImaWav) is None
            &&& decoded.len() == samples.len()
            &&& forall|j: int|
                0 <= j < samples.len() ==> #[trigger] decoded[j] == ladder_track(
                    wav_ladder_opening(states, samples, channels, j % channels),
                    wav_targets(samples, channels, j % channels),
                    j / channels,
                ).predictor as i16
            &&& forall|j: int| 0 <= j < channels ==> #[trigger] decoded[j] == samples[j]
            &&& forall|ch: int|
                0 <= ch < channels ==> (#[trigger] wav_seed(block, ch)).step_index == clamp(
                    states[ch].step_index,
                    0,
                    88,
                )
            &&& forall|ch: int|
                0 <= ch < channels ==> ima_run4(
                    wav_seed(block, ch),
                    wav_codes4(block, channels, ch),
                    n,
                ) == #[trigger] wav_ladder_states(states, samples, channels)[ch]
        }),
{
    let block = wav_ladder_block(states, samples, channels, block_size);
    let decoded = wav_samples4(block, channels);
    let room = wav_room(channels, block_size);
    wav_room_size(channels, block_size);
    assert(samples.len() as int / channels == 1 + 8 * room) by {
        vstd::arithmetic::div_mod::lemma_div_multiples_vanish(1 + 8 * room, channels);
        assert(channels * (1 + 8 * room) == (1 + 8 * room) * channels) by (nonlinear_arith);
    }
    let openings = Seq::new(
        channels as nat,
        |ch: int| wav_ladder_opening(states, samples, channels, ch),
    );
    let codes = Seq::new(
        channels as nat,
        |ch: int| ladder_codes(
            wav_ladder_opening(states, samples, channels, ch),
            wav_targets(samples, channels, ch),
        ),
    );
    assert forall|ch: int, k: int| 0 <= ch < channels && 0 <= k < 8 * room implies 0
        <= #[trigger] codes[ch][k] < 16 by {
        ladder_valid(openings[ch], wav_targets(samples, channels, ch), k);
    }
    wav_layout_holds(openings, codes, channels, room);
    assert forall|ch: int| 0 <= ch < channels implies ima_run4(
        wav_seed(block, ch),
        wav_codes4(block, channels, ch),
        8 * room,
    ) == #[trigger] wav_ladder_states(states, samples, channels)[ch] by {
        ladder_lockstep(openings[ch], wav_targets(samples, channels, ch), 8 * room);
    }
    assert forall|j: int| 0 <= j < samples.len() implies #[trigger] decoded[j] == ladder_track(
        wav_ladder_opening(states, samples, channels, j % channels),
        wav_targets(samples, channels, j % channels),
        j / channels,
    ).predictor as i16 by {
        owner(j, channels, 1 + 8 * room);
        let ch = j % channels;
        assert(wav_seed(block, ch) == openings[ch]);
        assert(wav_codes4(block, channels, ch) == codes[ch]);
        ladder_lockstep(openings[ch], wav_targets(samples, channels, ch), j / channels);
    }
    assert forall|j: int| 0 <= j < channels implies #[trigger] decoded[j] == samples[j] by {
        assert(channels <= samples.len()) by (nonlinear_arith)
            requires
                samples.len() == (1 + 8 * room) * channels,
                room >= 0,
                channels > 0,
        ;
        place(0, j, channels, 1);
        assert(sample_at(samples, channels, j, 0) == samples[j]);
    }
}

/// Decoding QuickTime blocks of the ladder gives, for every sample, the sample
/// that the ladder settled for. The blocks name the step indices that the
/// channels had come to, and behind the last code the decoder is in the state
/// that the ladder carries on from.
pub proof fn qt_ladder_round_trip(states: Seq<ImaModel>, samples: Seq<i16>, channels: int)
    requires
        qt_encode_error(samples.len() as int, channels) is None,
    ensures
        ({
            let data = qt_ladder_blocks(states, samples, channels);
            let decoded = qt_samples(data, channels);
            &&& qt_error(data.len() as int, channels) is None
            &&& decoded.len() == samples.len()
            &&& forall|j: int|
                0 <= j < samples.len() ==> #[trigger] decoded[j] == ladder_track(
                    qt_ladder_opening(states, samples, channels, j % channels),
                    channel_tail(samples, channels, j % channels, 0, 64),
                    j / channels + 1,
                ).predictor as i16
            &&& forall|ch: int|
                0 <= ch < channels ==> (#[trigger] qt_seed(data, ch)).step_index == clamp(
                    states[ch].step_index,
                    0,
                    88,
                )
            &&& forall|ch: int|
                0 <= ch < channels ==> ima_run4(qt_seed(data, ch), qt_codes(data, ch), 64)
                    == #[trigger] qt_ladder_states(states, samples, channels)[ch]
        }),
{
    let data = qt_ladder_blocks(states, samples, channels);
    let decoded = qt_samples(data, channels);
    let openings = Seq::new(
        channels as nat,
        |ch: int| qt_ladder_opening(states, samples, channels, ch),
    );
    let codes = Seq::new(
        channels as nat,
        |ch: int| ladder_codes(
            qt_ladder_opening(states, samples, channels, ch),
            channel_tail(samples, channels, ch, 0, 64),
        ),
    );
    assert forall|ch: int, k: int| 0 <= ch < channels && 0 <= k < 64 implies 0
        <= #[trigger] codes[ch][k] < 16 by {
        ladder_valid(openings[ch], channel_tail(samples, channels, ch, 0, 64), k);
    }
    assert forall|ch: int| 0 <= ch < channels implies #[trigger] qt_seed(data, ch) == openings[ch]
        by {
        qt_layout_holds(openings, codes, channels, ch);
    }
    assert forall|ch: int| 0 <= ch < channels implies ima_run4(
        qt_seed(data, ch),
        qt_codes(data, ch),
        64,
    ) == #[trigger] qt_ladder_states(states, samples, channels)[ch] by {
        qt_layout_holds(openings, codes, channels, ch);
        ladder_lockstep(openings[ch], channel_tail(samples, channels, ch, 0, 64), 64);
    }
    assert forall|j: int| 0 <= j < samples.len() implies #[trigger] decoded[j] == ladder_track(
        qt_ladder_opening(states, samples, channels, j % channels),
        channel_tail(samples, channels, j % channels, 0, 64),
        j / channels + 1,
    ).predictor as i16 by {
        owner(j, channels, 64);
        let ch = j % channels;
        qt_layout_holds(openings, codes, channels, ch);
        ladder_lockstep(
            openings[ch],
            channel_tail(samples, channels, ch, 0, 64),
            j / channels + 1,
        );
    }
}

} // verus!
