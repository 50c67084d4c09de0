//! Block encoders.
//!
//! For every sample the encoder tries all sixteen codes, runs the decoder's own
//! recurrence on each, and takes the one whose sample comes closest. The
//! decoder therefore puts out exactly the samples that the encoder settled for.

use vstd::prelude::*;

use crate::arith::{clamp, high_byte, least, low_byte, magnitude, word_bytes};
use crate::error::{Component, Error};
use crate::ima_layout::{coded, coded_one_more, lay_qt, lay_wav, qt_layout, wav_layout};
use crate::ima_wav::{ima_expand_nibble, ima_next4, ima_step_bounds, ImaCodecState, ImaModel};
use crate::interleave::place;
use crate::ms::{advance, ms_next, ms_sample, ms_signed, sample_of, ChannelState, MsModel};
use crate::tables::IMA_STEP_SIZE;

pub use crate::encoders::{make_encoder, FrameEncoder};
pub use crate::frame_encoder::{EncodedPacket, ImaQtEncoder, ImaWavEncoder, MsEncoder};
pub use crate::ladder::{ima_encode_block_reference, ima_qt_encode_block_reference};
pub use crate::options::Quantizer;
pub use crate::stream_encoder::{DialogicEncoder, YamahaAEncoder, YamahaEncoder};
pub use crate::three_bit::{ima_encode_block_3bit, ima_encode_block_3bit_reference};

verus! {

/// Block size of the block encoders, in bytes over all channels, unless told
/// otherwise.
pub const DEFAULT_BLOCK_SIZE: usize = 256;

/// Sample `k` of channel `ch`, of interleaved samples.
pub open spec fn sample_at(samples: Seq<i16>, channels: int, ch: int, k: int) -> int {
    samples[k * channels + ch] as int
}

/// The samples of channel `ch` that follow its first `first` ones.
pub open spec fn channel_tail(
    samples: Seq<i16>,
    channels: int,
    ch: int,
    first: int,
    n: int,
) -> Seq<int> {
    Seq::new(n as nat, |k: int| sample_at(samples, channels, ch, first + k))
}

/// The summed distances between the first `n + 1` neighbouring samples.
pub open spec fn step_sum(samples: Seq<i16>, channels: int, ch: int, n: int) -> int
    decreases n,
{
    if n <= 0 {
        0
    } else {
        step_sum(samples, channels, ch, n - 1) + magnitude(
            sample_at(samples, channels, ch, n) - sample_at(samples, channels, ch, n - 1),
        )
    }
}

/// The mean distance between the first `n + 1` neighbouring samples, rounded
/// down.
pub open spec fn mean_step(samples: Seq<i16>, channels: int, ch: int, n: int) -> int {
    step_sum(samples, channels, ch, n) / n
}

/// Computes [`mean_step`].
pub(crate) fn mean_step_of(samples: &[i16], channels: usize, ch: usize, n: usize) -> (r: i32)
    requires
        ch < channels,
        0 < n <= 16,
        (n + 1) * channels <= samples@.len(),
    ensures
        r == mean_step(samples@, channels as int, ch as int, n as int),
        0 <= r <= 65535,
{
    let len: usize = samples.len();
    let mut acc: i32 = 0;
    let mut i: usize = 0;
    while i < n
        invariant
            i <= n <= 16,
            ch < channels,
            (n + 1) * channels <= len == samples@.len(),
            acc == step_sum(samples@, channels as int, ch as int, i as int),
            0 <= acc <= 65535 * i,
        decreases n - i,
    {
        proof {
            place(i as int, ch as int, channels as int, n + 1);
            place(i + 1, ch as int, channels as int, n + 1);
            assert(i * channels <= (n + 1) * channels) by (nonlinear_arith)
                requires
                    i <= n,
            ;
            assert((i + 1) * channels <= (n + 1) * channels) by (nonlinear_arith)
                requires
                    i <= n,
            ;
        }
        let s0: i32 = samples[i * channels + ch] as i32;
        let s1: i32 = samples[(i + 1) * channels + ch] as i32;
        acc = acc + if s1 < s0 {
            s0 - s1
        } else {
            s1 - s0
        };
        i = i + 1;
    }
    proof {
        let a = acc as int;
        let m = n as int;
        assert(0 <= a / m <= 65535) by (nonlinear_arith)
            requires
                0 <= a <= 65535 * m,
                m > 0,
        ;
    }
    acc / n as i32
}

// ---- Microsoft ADPCM ----

/// How badly a code suits a sample: first by the distance that is left, then
/// by the size of the code.
pub open spec fn ms_cost(s: MsModel, target: int, code: int) -> int {
    32 * magnitude(ms_sample(s, code) - target) + 2 * magnitude(ms_signed(code)) + (if code < 8 {
        0int
    } else {
        1int
    })
}

/// The code that suits a sample best: the one that comes closest, and of
/// several the one of least size.
pub open spec fn ms_best(s: MsModel, target: int) -> int {
    least(|code: int| ms_cost(s, target, code), 16)
}

/// The state after encoding `k` samples.
pub open spec fn ms_track(s: MsModel, targets: Seq<int>, k: int) -> MsModel
    decreases k,
{
    if k <= 0 {
        s
    } else {
        let before = ms_track(s, targets, k - 1);
        ms_next(before, ms_best(before, targets[k - 1]))
    }
}

/// The codes chosen for a run of samples.
pub open spec fn ms_chosen(s: MsModel, targets: Seq<int>) -> Seq<int> {
    Seq::new(targets.len(), |k: int| ms_best(ms_track(s, targets, k), targets[k]))
}

/// Picks the code that suits a sample best, with the sample it stands for.
fn ms_best_nibble(st: &ChannelState, target: i32) -> (r: (u8, i16))
    requires
        st@.valid(),
        -32768 <= target <= 32767,
    ensures
        r.0 < 16,
        r.0 == ms_best(st@, target as int),
        r.1 == ms_sample(st@, r.0 as int),
{
    let ghost f = |code: int| ms_cost(st@, target as int, code);
    let mut best: u8 = 0;
    let mut best_sample: i16 = sample_of(st, 0);
    let mut best_cost: i32 = ms_cost_of(best_sample, target, 0);
    let mut n: u8 = 1;
    while n < 16
        invariant
            1 <= n <= 16,
            st@.valid(),
            -32768 <= target <= 32767,
            best < 16,
            f == (|code: int| ms_cost(st@, target as int, code)),
            best == least(f, n as int),
            best_sample == ms_sample(st@, best as int),
            best_cost == f(best as int),
        decreases 16 - n,
    {
        let s: i16 = sample_of(st, n);
        let cost: i32 = ms_cost_of(s, target, n);
        assert(cost == f(n as int));
        if cost < best_cost {
            best = n;
            best_sample = s;
            best_cost = cost;
        }
        n = n + 1;
    }
    (best, best_sample)
}

/// Computes [`ms_cost`] from the sample that the code stands for.
fn ms_cost_of(sample: i16, target: i32, code: u8) -> (r: i32)
    requires
        code < 16,
        -32768 <= target <= 32767,
    ensures
        r == 32 * magnitude(sample - target) + 2 * magnitude(ms_signed(code as int)) + (if code < 8 {
            0int
        } else {
            1int
        }),
{
    let diff: i32 = sample as i32 - target;
    let err: i32 = if diff < 0 {
        -diff
    } else {
        diff
    };
    if code < 8 {
        32 * err + 2 * code as i32
    } else {
        32 * err + 2 * (16 - code as i32) + 1
    }
}

/// The number of neighbouring distances that a block's opening step is drawn
/// from: those of the first 17 samples, or of all there are.
pub open spec fn probe_count(samples_per_channel: int) -> int {
    if samples_per_channel - 1 < 16 {
        samples_per_channel - 1
    } else {
        16
    }
}

/// The state that channel `ch` of a block starts from: the first pair of
/// weights, the two oldest samples, and a quarter of the mean distance between
/// neighbouring samples as the step.
pub open spec fn ms_opening(samples: Seq<i16>, channels: int, ch: int) -> MsModel {
    let probe = probe_count(samples.len() as int / channels);
    MsModel {
        coef1: 256,
        coef2: 0,
        delta: clamp(mean_step(samples, channels, ch, probe) / 4, 16, 16384),
        sample1: sample_at(samples, channels, ch, 1),
        sample2: sample_at(samples, channels, ch, 0),
    }
}

/// The number of codes per channel in a block of `block_size` bytes.
pub open spec fn ms_room(channels: int, block_size: int) -> int {
    (2 * (block_size - 7 * channels)) / channels
}

/// The codes of channel `ch` in a block of `block_size` bytes.
pub open spec fn ms_block_codes(
    samples: Seq<i16>,
    channels: int,
    block_size: int,
    ch: int,
) -> Seq<int> {
    ms_chosen(
        ms_opening(samples, channels, ch),
        channel_tail(samples, channels, ch, 2, ms_room(channels, block_size)),
    )
}

/// Why no block of `block_size` bytes is built.
pub open spec fn ms_encode_error(len: int, channels: int, block_size: int) -> Option<Error> {
    let per_channel = len / channels;
    if channels < 1 || channels > 2 {
        Some(Error::ChannelCount { component: Component::MsEncoder, channels: channels as usize })
    } else if len % channels != 0 {
        Some(Error::UnevenSamples { samples: len as usize, channels: channels as usize })
    } else if per_channel < 2 {
        Some(Error::TooFewSamples)
    } else if block_size < 7 * channels {
        Some(
            Error::BlockSize {
                component: Component::MsEncoder,
                block_size: block_size as usize,
                header: (7 * channels) as usize,
            },
        )
    } else if per_channel < 2 + ms_room(channels, block_size) {
        Some(
            Error::NotEnoughSamples {
                have: per_channel as usize,
                need: (2 + ms_room(channels, block_size)) as usize,
                block_size: block_size as usize,
            },
        )
    } else {
        None
    }
}

/// The states that the channels of a block start from.
pub open spec fn ms_openings(samples: Seq<i16>, channels: int) -> Seq<MsModel> {
    Seq::new(channels as nat, |ch: int| ms_opening(samples, channels, ch))
}

/// A block's header: the number of the pair of weights, then the step, the
/// second sample and the first sample, for all channels in turn each.
pub open spec fn ms_header(openings: Seq<MsModel>) -> Seq<u8> {
    let channels = openings.len() as int;
    Seq::new(
        (7 * channels) as nat,
        |j: int|
            if j < channels {
                0u8
            } else {
                let opening = openings[((j - channels) % (2 * channels)) / 2];
                let word = if j < 3 * channels {
                    opening.delta
                } else if j < 5 * channels {
                    opening.sample1
                } else {
                    opening.sample2
                };
                if (j - channels) % 2 == 0 {
                    low_byte(word)
                } else {
                    high_byte(word)
                }
            },
    )
}

/// A block's body: the codes of all channels in turn, the high nibble of a byte
/// first.
pub open spec fn ms_body(
    samples: Seq<i16>,
    channels: int,
    block_size: int,
) -> Seq<u8> {
    Seq::new(
        (block_size - 7 * channels) as nat,
        |b: int|
            {
                let m = 2 * b;
                let hi = ms_block_codes(samples, channels, block_size, m % channels)[m / channels];
                let lo = ms_block_codes(samples, channels, block_size, (m + 1) % channels)[(m + 1)
                    / channels];
                (16 * hi + lo) as u8
            },
    )
}

/// A block of `block_size` bytes.
pub open spec fn ms_block(samples: Seq<i16>, channels: int, block_size: int) -> Seq<u8> {
    ms_header(ms_openings(samples, channels)) + ms_body(samples, channels, block_size)
}

/// The bytes hold the codes, four bits each.
pub open spec fn nibbles(bytes: Seq<u8>, codes: Seq<int>) -> bool {
    &&& bytes.len() == codes.len()
    &&& forall|k: int|
        0 <= k < codes.len() ==> (#[trigger] bytes[k]) < 16 && bytes[k] == codes[k]
}

/// Encoding keeps a channel valid.
proof fn ms_track_valid(s: MsModel, targets: Seq<int>, k: int)
    requires
        s.valid(),
    ensures
        ms_track(s, targets, k).valid(),
    decreases k,
{
    if k > 0 {
        ms_track_valid(s, targets, k - 1);
    }
}

/// Chooses the codes for `n` samples of a channel, from sample `first` on.
fn ms_encode_channel(
    opening: ChannelState,
    samples: &[i16],
    channels: usize,
    ch: usize,
    first: usize,
    n: usize,
) -> (codes: Vec<u8>)
    requires
        opening@.valid(),
        ch < channels,
        (first + n) * channels <= samples@.len(),
        first + n <= usize::MAX,
    ensures
        nibbles(
            codes@,
            ms_chosen(
                opening@,
                channel_tail(samples@, channels as int, ch as int, first as int, n as int),
            ),
        ),
        codes@.len() == n,
{
    let ghost targets = channel_tail(
        samples@,
        channels as int,
        ch as int,
        first as int,
        n as int,
    );
    let len: usize = samples.len();
    let mut st: ChannelState = opening;
    let mut codes: Vec<u8> = Vec::new();
    let mut k: usize = 0;
    while k < n
        invariant
            k <= n,
            ch < channels,
            (first + n) * channels <= len == samples@.len(),
            first + n <= usize::MAX,
            opening@.valid(),
            targets == channel_tail(
                samples@,
                channels as int,
                ch as int,
                first as int,
                n as int,
            ),
            st@ == ms_track(opening@, targets, k as int),
            nibbles(codes@, ms_chosen(opening@, targets).take(k as int)),
            codes@.len() == k,
        decreases n - k,
    {
        proof {
            ms_track_valid(opening@, targets, k as int);
            place(first + k, ch as int, channels as int, first + n);
            assert((first + k) * channels <= (first + n) * channels) by (nonlinear_arith)
                requires
                    k <= n,
            ;
        }
        let target: i32 = samples[(first + k) * channels + ch] as i32;
        let chosen: (u8, i16) = ms_best_nibble(&st, target);
        advance(&mut st, chosen.0, chosen.1);
        codes.push(chosen.0);
        k = k + 1;
    }
    assert(ms_chosen(opening@, targets).take(n as int) =~= ms_chosen(opening@, targets));
    codes
}

/// Appends a 16-bit word, low byte first.
fn push_word(out: &mut Vec<u8>, x: i32)
    ensures
        final(out)@ == old(out)@.push(low_byte(x as int)).push(high_byte(x as int)),
{
    let b: (u8, u8) = word_bytes(x);
    out.push(b.0);
    out.push(b.1);
}

/// Writes a block's header.
fn write_ms_header(openings: &Vec<ChannelState>) -> (out: Vec<u8>)
    requires
        openings@.len() == 1 || openings@.len() == 2,
    ensures
        out@ == ms_header(Seq::new(openings@.len(), |ch: int| openings@[ch]@)),
{
    let ghost want = ms_header(Seq::new(openings@.len(), |ch: int| openings@[ch]@));
    let mut out: Vec<u8> = Vec::new();
    if openings.len() == 1 {
        out.push(0);
        push_word(&mut out, openings[0].delta);
        push_word(&mut out, openings[0].sample1);
        push_word(&mut out, openings[0].sample2);
    } else {
        out.push(0);
        out.push(0);
        push_word(&mut out, openings[0].delta);
        push_word(&mut out, openings[1].delta);
        push_word(&mut out, openings[0].sample1);
        push_word(&mut out, openings[1].sample1);
        push_word(&mut out, openings[0].sample2);
        push_word(&mut out, openings[1].sample2);
    }
    assert(out@ =~= want);
    out
}

/// Encodes one block of `target_block_size` bytes from interleaved samples.
/// Samples beyond what the block holds are only looked at for the opening step.
pub fn encode_block(samples: &[i16], channels: usize, target_block_size: usize) -> (r: Result<
    Vec<u8>,
    Error,
>)
    requires
        2 * target_block_size + 2 <= usize::MAX,
    ensures
        match r {
            Ok(block) => {
                &&& ms_encode_error(
                    samples@.len() as int,
                    channels as int,
                    target_block_size as int,
                ) is None
                &&& block@ == ms_block(samples@, channels as int, target_block_size as int)
            },
            Err(e) => ms_encode_error(
                samples@.len() as int,
                channels as int,
                target_block_size as int,
            ) == Some(e),
        },
{
    if channels < 1 || channels > 2 {
        return Err(Error::ChannelCount { component: Component::MsEncoder, channels });
    }
    let len: usize = samples.len();
    if len % channels != 0 {
        return Err(Error::UnevenSamples { samples: len, channels });
    }
    let per_channel: usize = len / channels;
    if per_channel < 2 {
        return Err(Error::TooFewSamples);
    }
    let header: usize = 7 * channels;
    if target_block_size < header {
        return Err(
            Error::BlockSize {
                component: Component::MsEncoder,
                block_size: target_block_size,
                header,
            },
        );
    }
    let body: usize = target_block_size - header;
    let room: usize = (2 * body) / channels;
    if per_channel < 2 + room {
        return Err(
            Error::NotEnoughSamples {
                have: per_channel,
                need: 2 + room,
                block_size: target_block_size,
            },
        );
    }
    let ghost c = channels as int;
    let ghost size = target_block_size as int;
    let probe: usize = if per_channel - 1 < 16 {
        per_channel - 1
    } else {
        16
    };
    assert(per_channel * c == len) by {
        vstd::arithmetic::div_mod::lemma_fundamental_div_mod(len as int, c);
        assert(per_channel * c == c * per_channel) by (nonlinear_arith);
    }
    assert((probe + 1) * c <= len && (2 + room) * c <= len) by (nonlinear_arith)
        requires
            probe + 1 <= per_channel,
            2 + room <= per_channel,
            per_channel * c == len,
            c > 0,
    ;
    let mut openings: Vec<ChannelState> = Vec::new();
    let mut codes: Vec<Vec<u8>> = Vec::new();
    let mut ch: usize = 0;
    while ch < channels
        invariant
            ch <= channels <= 2,
            c == channels,
            size == target_block_size,
            len == samples@.len(),
            room == ms_room(c, size),
            per_channel == len as int / c,
            per_channel >= 2,
            probe == probe_count(per_channel as int),
            0 < probe <= 16,
            (probe + 1) * c <= len,
            (2 + room) * c <= len,
            2 + room <= usize::MAX,
            openings@.len() == ch,
            codes@.len() == ch,
            forall|q: int| 0 <= q < ch ==> (#[trigger] openings@[q])@ == ms_opening(samples@, c, q),
            forall|q: int|
                0 <= q < ch ==> (#[trigger] codes@[q])@.len() == room && nibbles(
                    codes@[q]@,
                    ms_block_codes(samples@, c, size, q),
                ),
        decreases channels - ch,
    {
        let mean: i32 = mean_step_of(samples, channels, ch, probe);
        let quarter: i32 = mean / 4;
        let delta: i32 = if quarter < 16 {
            16
        } else if quarter > 16384 {
            16384
        } else {
            quarter
        };
        assert(2 * c <= (probe + 1) * c) by (nonlinear_arith)
            requires
                probe >= 1,
                c > 0,
        ;
        let opening: ChannelState = ChannelState {
            coef1: 256,
            coef2: 0,
            delta,
            sample1: samples[channels + ch] as i32,
            sample2: samples[ch] as i32,
        };
        assert(opening@ == ms_opening(samples@, c, ch as int));
        let chosen: Vec<u8> = ms_encode_channel(opening, samples, channels, ch, 2, room);
        openings.push(opening);
        codes.push(chosen);
        ch = ch + 1;
    }
    let mut out: Vec<u8> = write_ms_header(&openings);
    let ghost head = ms_header(ms_openings(samples@, c));
    let ghost tail = ms_body(samples@, c, size);
    assert(Seq::new(openings@.len(), |ch: int| openings@[ch]@) =~= ms_openings(samples@, c));
    assert(out@ =~= head + tail.take(0));
    let mut b: usize = 0;
    while b < body
        invariant
            b <= body,
            channels == 1 || channels == 2,
            c == channels,
            size == target_block_size,
            2 * size + 2 <= usize::MAX,
            body == size - 7 * c,
            room == (2 * body) / c,
            codes@.len() == c,
            forall|q: int|
                0 <= q < c ==> (#[trigger] codes@[q])@.len() == room && nibbles(
                    codes@[q]@,
                    ms_block_codes(samples@, c, size, q),
                ),
            tail == ms_body(samples@, c, size),
            out@ == head + tail.take(b as int),
        decreases body - b,
    {
        let m: usize = 2 * b;
        proof {
            if c == 2 {
                assert(m % 2 == 0 && m / 2 == b && (m + 1) % 2 == 1 && (m + 1) / 2 == b);
            }
            let h = codes@[m as int % c];
            let l = codes@[(m + 1) % c];
            assert(h@[m as int / c] < 16);
            assert(l@[(m + 1) / c] < 16);
        }
        let hi: u8 = codes[m % channels][m / channels];
        let lo: u8 = codes[(m + 1) % channels][(m + 1) / channels];
        out.push(16 * hi + lo);
        proof {
            assert(tail.take(b + 1) =~= tail.take(b as int).push(tail[b as int]));
            assert(out@ =~= head + tail.take(b + 1));
        }
        b = b + 1;
    }
    assert(tail.take(body as int) =~= tail);
    Ok(out)
}

// ---- IMA ADPCM ----

/// How badly a code suits a sample: the distance that is left.
pub open spec fn ima_cost(s: ImaModel, target: int, code: int) -> int {
    magnitude(ima_next4(s, code).predictor - target)
}

/// The code that suits a sample best, and of several the lowest.
pub open spec fn ima_best(s: ImaModel, target: int) -> int {
    least(|code: int| ima_cost(s, target, code), 16)
}

/// The state after encoding `k` samples.
pub open spec fn ima_track(s: ImaModel, targets: Seq<int>, k: int) -> ImaModel
    decreases k,
{
    if k <= 0 {
        s
    } else {
        let before = ima_track(s, targets, k - 1);
        ima_next4(before, ima_best(before, targets[k - 1]))
    }
}

/// The codes chosen for a run of samples.
pub open spec fn ima_chosen(s: ImaModel, targets: Seq<int>) -> Seq<int> {
    Seq::new(targets.len(), |k: int| ima_best(ima_track(s, targets, k), targets[k]))
}

/// The first index from `i` on whose step is at least `target`, or the last.
pub open spec fn index_for_step(target: int, i: int) -> int
    decreases 88 - i,
{
    if i >= 88 {
        88
    } else if IMA_STEP_SIZE[i] >= target {
        i
    } else {
        index_for_step(target, i + 1)
    }
}

/// The step index that suits a mean distance between neighbouring samples: that
/// of the first step not below eight thirds of it.
pub open spec fn index_for_mean(mean: int) -> int {
    index_for_step(if (8 * mean) / 3 < 7 { 7 } else { (8 * mean) / 3 }, 0)
}

/// An index is one of the table.
pub proof fn index_for_step_range(target: int, i: int)
    requires
        0 <= i <= 88,
    ensures
        0 <= index_for_step(target, i) <= 88,
    decreases 88 - i,
{
    if i < 88 && IMA_STEP_SIZE[i] < target {
        index_for_step_range(target, i + 1);
    }
}

/// Computes [`index_for_mean`].
pub(crate) fn index_for_mean_of(mean: i32) -> (r: i32)
    requires
        0 <= mean <= 65535,
    ensures
        r == index_for_mean(mean as int),
        0 <= r <= 88,
{
    let scaled: i32 = (8 * mean) / 3;
    let target: i32 = if scaled < 7 {
        7
    } else {
        scaled
    };
    let mut i: usize = 0;
    while i < 88
        invariant
            i <= 88,
            index_for_mean(mean as int) == index_for_step(target as int, i as int),
        decreases 88 - i,
    {
        if IMA_STEP_SIZE[i] as i32 >= target {
            return i as i32;
        }
        i = i + 1;
    }
    88
}

/// Encoding keeps a channel valid.
proof fn ima_track_valid(s: ImaModel, targets: Seq<int>, k: int)
    requires
        s.valid(),
    ensures
        ima_track(s, targets, k).valid(),
    decreases k,
{
    if k > 0 {
        ima_track_valid(s, targets, k - 1);
    }
}

/// The state behind a code, without moving the channel.
fn ima_simulate_nibble(st: &ImaCodecState, nibble: u8) -> (r: ImaCodecState)
    requires
        st@.valid(),
        nibble < 16,
    ensures
        r@ == ima_next4(st@, nibble as int),
{
    let mut predictor: i32 = st.predictor;
    let mut step_index: i32 = st.step_index;
    proof {
        ima_step_bounds(step_index as int);
    }
    let _ = ima_expand_nibble(&mut predictor, &mut step_index, nibble);
    ImaCodecState { predictor, step_index }
}

/// Picks the code that suits a sample best, with the state behind it.
fn ima_best_nibble(st: &ImaCodecState, target: i32) -> (r: (u8, ImaCodecState))
    requires
        st@.valid(),
        -32768 <= target <= 32767,
    ensures
        r.0 < 16,
        r.0 == ima_best(st@, target as int),
        r.1@ == ima_next4(st@, r.0 as int),
{
    let ghost f = |code: int| ima_cost(st@, target as int, code);
    let mut best: u8 = 0;
    let mut best_state: ImaCodecState = ima_simulate_nibble(st, 0);
    let mut best_cost: i32 = distance(best_state.predictor, target);
    let mut n: u8 = 1;
    while n < 16
        invariant
            1 <= n <= 16,
            st@.valid(),
            -32768 <= target <= 32767,
            best < 16,
            f == (|code: int| ima_cost(st@, target as int, code)),
            best == least(f, n as int),
            best_state@ == ima_next4(st@, best as int),
            best_cost == f(best as int),
        decreases 16 - n,
    {
        let next: ImaCodecState = ima_simulate_nibble(st, n);
        let cost: i32 = distance(next.predictor, target);
        assert(cost == f(n as int));
        if cost < best_cost {
            best = n;
            best_state = next;
            best_cost = cost;
        }
        n = n + 1;
    }
    (best, best_state)
}

/// The distance between two samples.
fn distance(a: i32, b: i32) -> (r: i32)
    requires
        -32768 <= a <= 32767,
        -32768 <= b <= 32767,
    ensures
        r == magnitude(a - b),
{
    if a < b {
        b - a
    } else {
        a - b
    }
}

/// Chooses the codes for `n` samples of a channel, from sample `first` on.
fn ima_encode_channel(
    opening: ImaCodecState,
    samples: &[i16],
    channels: usize,
    ch: usize,
    first: usize,
    n: usize,
) -> (codes: Vec<u8>)
    requires
        opening@.valid(),
        ch < channels,
        (first + n) * channels <= samples@.len(),
        first + n <= usize::MAX,
    ensures
        nibbles(
            codes@,
            ima_chosen(
                opening@,
                channel_tail(samples@, channels as int, ch as int, first as int, n as int),
            ),
        ),
        codes@.len() == n,
{
    let ghost targets = channel_tail(
        samples@,
        channels as int,
        ch as int,
        first as int,
        n as int,
    );
    let len: usize = samples.len();
    let mut st: ImaCodecState = opening;
    let mut codes: Vec<u8> = Vec::new();
    let mut k: usize = 0;
    while k < n
        invariant
            k <= n,
            ch < channels,
            (first + n) * channels <= len == samples@.len(),
            first + n <= usize::MAX,
            opening@.valid(),
            targets == channel_tail(
                samples@,
                channels as int,
                ch as int,
                first as int,
                n as int,
            ),
            st@ == ima_track(opening@, targets, k as int),
            nibbles(codes@, ima_chosen(opening@, targets).take(k as int)),
            codes@.len() == k,
        decreases n - k,
    {
        proof {
            ima_track_valid(opening@, targets, k as int);
            place(first + k, ch as int, channels as int, first + n);
            assert((first + k) * channels <= (first + n) * channels) by (nonlinear_arith)
                requires
                    k <= n,
            ;
        }
        let target: i32 = samples[(first + k) * channels + ch] as i32;
        let chosen: (u8, ImaCodecState) = ima_best_nibble(&st, target);
        st = chosen.1;
        codes.push(chosen.0);
        k = k + 1;
    }
    assert(ima_chosen(opening@, targets).take(n as int) =~= ima_chosen(opening@, targets));
    codes
}

/// The number of groups of eight codes per channel in a block of `block_size`
/// bytes.
pub open spec fn wav_room(channels: int, block_size: int) -> int {
    (block_size - 4 * channels) / (4 * channels)
}

/// The state that channel `ch` of a WAV block starts from: its first sample,
/// and the step index that suits the distances between its first samples.
pub open spec fn wav_opening(samples: Seq<i16>, channels: int, ch: int) -> ImaModel {
    let probe = probe_count(samples.len() as int / channels);
    ImaModel {
        predictor: sample_at(samples, channels, ch, 0),
        step_index: if probe > 0 {
            index_for_mean(mean_step(samples, channels, ch, probe))
        } else {
            0
        },
    }
}

/// The codes of channel `ch` of a WAV block.
pub open spec fn wav_block_codes(samples: Seq<i16>, channels: int, ch: int) -> Seq<int> {
    ima_chosen(
        wav_opening(samples, channels, ch),
        channel_tail(samples, channels, ch, 1, samples.len() as int / channels - 1),
    )
}

/// Why no WAV block of `block_size` bytes is built.
pub open spec fn wav_encode_error(len: int, channels: int, block_size: int) -> Option<Error> {
    let per_channel = 1 + 8 * wav_room(channels, block_size);
    if channels < 1 || channels > 8 {
        Some(
            Error::ChannelCount {
                component: Component::ImaWavEncoder,
                channels: channels as usize,
            },
        )
    } else if block_size < 4 * channels {
        Some(
            Error::BlockSize {
                component: Component::ImaWavEncoder,
                block_size: block_size as usize,
                header: (4 * channels) as usize,
            },
        )
    } else if (block_size - 4 * channels) % (4 * channels) != 0 {
        Some(
            Error::BodyLength {
                component: Component::ImaWavEncoder,
                len: (block_size - 4 * channels) as usize,
                group: (4 * channels) as usize,
                channels: channels as usize,
            },
        )
    } else if len != per_channel * channels {
        Some(
            Error::SampleCount {
                component: Component::ImaWavEncoder,
                got: len as usize,
                per_channel: per_channel as usize,
                channels: channels as usize,
            },
        )
    } else {
        None
    }
}

/// The states that the channels of a WAV block start from.
pub open spec fn wav_openings(samples: Seq<i16>, channels: int) -> Seq<ImaModel> {
    Seq::new(channels as nat, |ch: int| wav_opening(samples, channels, ch))
}

/// The codes of the channels of a WAV block.
pub open spec fn wav_streams(samples: Seq<i16>, channels: int) -> Seq<Seq<int>> {
    Seq::new(channels as nat, |ch: int| wav_block_codes(samples, channels, ch))
}

/// A WAV block of `block_size` bytes.
pub open spec fn wav_block(samples: Seq<i16>, channels: int, block_size: int) -> Seq<u8> {
    wav_layout(
        wav_openings(samples, channels),
        wav_streams(samples, channels),
        channels,
        block_size - 4 * channels,
    )
}

/// Encodes one WAV block of `block_size` bytes from interleaved samples, which
/// must be exactly as many as the block holds.
pub fn ima_encode_block(samples: &[i16], channels: usize, block_size: usize) -> (r: Result<
    Vec<u8>,
    Error,
>)
    requires
        2 * block_size <= usize::MAX,
    ensures
        match r {
            Ok(block) => {
                &&& wav_encode_error(
                    samples@.len() as int,
                    channels as int,
                    block_size as int,
                ) is None
                &&& block@ == wav_block(samples@, channels as int, block_size as int)
            },
            Err(e) => wav_encode_error(
                samples@.len() as int,
                channels as int,
                block_size as int,
            ) == Some(e),
        },
{
    if channels == 0 || channels > 8 {
        return Err(Error::ChannelCount { component: Component::ImaWavEncoder, channels });
    }
    let header: usize = 4 * channels;
    if block_size < header {
        return Err(Error::BlockSize { component: Component::ImaWavEncoder, block_size, header });
    }
    let body: usize = block_size - header;
    if body % header != 0 {
        return Err(
            Error::BodyLength {
                component: Component::ImaWavEncoder,
                len: body,
                group: header,
                channels,
            },
        );
    }
    let groups: usize = body / header;
    let ghost c = channels as int;
    proof {
        wav_room_size(c, block_size as int);
    }
    let codes_each: usize = 8 * groups;
    let per_channel: usize = 1 + codes_each;
    let len: usize = samples.len();
    if len != per_channel * channels {
        return Err(
            Error::SampleCount {
                component: Component::ImaWavEncoder,
                got: len,
                per_channel,
                channels,
            },
        );
    }
    assert(len as int / c == per_channel) by {
        vstd::arithmetic::div_mod::lemma_div_multiples_vanish(per_channel as int, c);
        assert(c * per_channel == per_channel * c) by (nonlinear_arith);
    }
    let probe: usize = if codes_each < 16 {
        codes_each
    } else {
        16
    };
    assert((probe + 1) * c <= len) by (nonlinear_arith)
        requires
            probe + 1 <= per_channel,
            per_channel * c == len,
            c > 0,
    ;
    let ghost models = wav_openings(samples@, c);
    let ghost wanted = wav_streams(samples@, c);
    let mut openings: Vec<ImaCodecState> = Vec::new();
    let mut codes: Vec<Vec<u8>> = Vec::new();
    let mut ch: usize = 0;
    while ch < channels
        invariant
            ch <= channels <= 8,
            c == channels,
            len == samples@.len(),
            per_channel == len as int / c,
            per_channel == 1 + codes_each,
            per_channel * c == len,
            probe == probe_count(per_channel as int),
            probe <= 16,
            (probe + 1) * c <= len,
            models == wav_openings(samples@, c),
            wanted == wav_streams(samples@, c),
            forall|q: int| 0 <= q < ch ==> (#[trigger] models[q]).valid(),
            coded(openings@, codes@, models.take(ch as int), wanted.take(ch as int)),
        decreases channels - ch,
    {
        let step_index: i32 = if probe > 0 {
            let mean: i32 = mean_step_of(samples, channels, ch, probe);
            index_for_mean_of(mean)
        } else {
            0
        };
        assert(c <= (probe + 1) * c) by (nonlinear_arith)
            requires
                probe >= 0,
                c > 0,
        ;
        let opening: ImaCodecState = ImaCodecState { predictor: samples[ch] as i32, step_index };
        assert(opening@ == models[ch as int]);
        let chosen: Vec<u8> = ima_encode_channel(opening, samples, channels, ch, 1, codes_each);
        proof {
            coded_one_more(openings@, codes@, opening, chosen, models, wanted, ch as int);
        }
        openings.push(opening);
        codes.push(chosen);
        ch = ch + 1;
    }
    assert(models.take(c) =~= models);
    assert(wanted.take(c) =~= wanted);
    assert(4 * c * groups == body);
    Ok(lay_wav(&openings, &codes, channels, groups, Ghost(models), Ghost(wanted)))
}

/// The size of a WAV block's body and of its samples.
pub proof fn wav_room_size(channels: int, block_size: int)
    requires
        0 < channels <= 8,
        4 * channels <= block_size,
        (block_size - 4 * channels) % (4 * channels) == 0,
    ensures
        0 <= wav_room(channels, block_size),
        block_size - 4 * channels == 4 * channels * wav_room(channels, block_size),
        8 * wav_room(channels, block_size) + 1 <= 2 * block_size,
        (1 + 8 * wav_room(channels, block_size)) * channels <= 2 * block_size,
{
    let g = wav_room(channels, block_size);
    vstd::arithmetic::div_mod::lemma_fundamental_div_mod(block_size - 4 * channels, 4 * channels);
    assert(g >= 0) by (nonlinear_arith)
        requires
            block_size - 4 * channels >= 0,
            channels > 0,
            g == (block_size - 4 * channels) / (4 * channels),
    ;
    assert((1 + 8 * g) * channels == channels + 2 * (4 * channels * g)) by (nonlinear_arith);
    assert(4 * g <= 4 * channels * g) by (nonlinear_arith)
        requires
            g >= 0,
            channels >= 1,
    ;
}

/// Bytes of one QuickTime block of one channel.
pub const QT_BLOCK_BYTES_PER_CHANNEL: usize = 34;

/// Samples of one QuickTime block of one channel.
pub const QT_SAMPLES_PER_BLOCK: usize = 64;

/// The state that channel `ch` of a QuickTime block starts from: its first
/// sample rounded down to a multiple of 128, and the step index that suits the
/// distances between its first samples.
pub open spec fn qt_opening(samples: Seq<i16>, channels: int, ch: int) -> ImaModel {
    let first = sample_at(samples, channels, ch, 0);
    ImaModel {
        predictor: first - first % 128,
        step_index: index_for_mean(mean_step(samples, channels, ch, probe_count(64))),
    }
}

/// The codes of channel `ch` of a QuickTime block.
pub open spec fn qt_block_codes(samples: Seq<i16>, channels: int, ch: int) -> Seq<int> {
    ima_chosen(
        qt_opening(samples, channels, ch),
        channel_tail(samples, channels, ch, 0, 64),
    )
}

/// Why no QuickTime blocks are built.
pub open spec fn qt_encode_error(len: int, channels: int) -> Option<Error> {
    if channels < 1 || channels > 2 {
        Some(
            Error::ChannelCount {
                component: Component::ImaQtEncoder,
                channels: channels as usize,
            },
        )
    } else if len != 64 * channels {
        Some(
            Error::SampleCount {
                component: Component::ImaQtEncoder,
                got: len as usize,
                per_channel: 64,
                channels: channels as usize,
            },
        )
    } else {
        None
    }
}

/// The states that the channels of QuickTime blocks start from.
pub open spec fn qt_openings(samples: Seq<i16>, channels: int) -> Seq<ImaModel> {
    Seq::new(channels as nat, |ch: int| qt_opening(samples, channels, ch))
}

/// The codes of the channels of QuickTime blocks.
pub open spec fn qt_streams(samples: Seq<i16>, channels: int) -> Seq<Seq<int>> {
    Seq::new(channels as nat, |ch: int| qt_block_codes(samples, channels, ch))
}

/// The QuickTime blocks of all channels, one behind the other.
pub open spec fn qt_blocks(samples: Seq<i16>, channels: int) -> Seq<u8> {
    qt_layout(qt_openings(samples, channels), qt_streams(samples, channels), channels)
}

/// Encodes one QuickTime block per channel from 64 interleaved samples per
/// channel.
pub fn ima_qt_encode_block(samples: &[i16], channels: usize) -> (r: Result<Vec<u8>, Error>)
    ensures
        match r {
            Ok(block) => {
                &&& qt_encode_error(samples@.len() as int, channels as int) is None
                &&& block@ == qt_blocks(samples@, channels as int)
            },
            Err(e) => qt_encode_error(samples@.len() as int, channels as int) == Some(e),
        },
{
    if channels < 1 || channels > 2 {
        return Err(Error::ChannelCount { component: Component::ImaQtEncoder, channels });
    }
    let len: usize = samples.len();
    if len != QT_SAMPLES_PER_BLOCK * channels {
        return Err(
            Error::SampleCount {
                component: Component::ImaQtEncoder,
                got: len,
                per_channel: QT_SAMPLES_PER_BLOCK,
                channels,
            },
        );
    }
    let ghost c = channels as int;
    let ghost models = qt_openings(samples@, c);
    let ghost wanted = qt_streams(samples@, c);
    let mut openings: Vec<ImaCodecState> = Vec::new();
    let mut codes: Vec<Vec<u8>> = Vec::new();
    let mut ch: usize = 0;
    while ch < channels
        invariant
            ch <= channels <= 2,
            c == channels,
            samples@.len() == 64 * c,
            models == qt_openings(samples@, c),
            wanted == qt_streams(samples@, c),
            forall|q: int| 0 <= q < ch ==> (#[trigger] models[q]).valid(),
            coded(openings@, codes@, models.take(ch as int), wanted.take(ch as int)),
        decreases channels - ch,
    {
        let mean: i32 = mean_step_of(samples, channels, ch, 16);
        let step_index: i32 = index_for_mean_of(mean);
        let first: i32 = samples[ch] as i32;
        let predictor: i32 = first - (first + 32768) % 128;
        let opening: ImaCodecState = ImaCodecState { predictor, step_index };
        assert(opening@ == models[ch as int]);
        let chosen: Vec<u8> = ima_encode_channel(
            opening,
            samples,
            channels,
            ch,
            0,
            QT_SAMPLES_PER_BLOCK,
        );
        proof {
            coded_one_more(openings@, codes@, opening, chosen, models, wanted, ch as int);
        }
        openings.push(opening);
        codes.push(chosen);
        ch = ch + 1;
    }
    assert(models.take(c) =~= models);
    assert(wanted.take(c) =~= wanted);
    Ok(lay_qt(&openings, &codes, channels, Ghost(models), Ghost(wanted)))
}

} // verus!
