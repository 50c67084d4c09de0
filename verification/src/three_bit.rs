//! Three-bit IMA ADPCM in WAV blocks, encoded.
//!
//! Behind the headers the channels take turns in groups of twelve bytes. A group
//! holds 32 codes, the digits base eight of its little-endian value, the first
//! code lowest. The codes come from a search or from a ladder of thresholds.

use vstd::prelude::*;

use vstd::arithmetic::div_mod::{lemma_div_denominator, lemma_mod_breakdown};
use vstd::arithmetic::power::{lemma_pow_increases, lemma_pow_positive, pow};

use crate::arith::{clamp_i32, least, least_is_least, magnitude};
use crate::encoder::{
    channel_tail, index_for_mean_of, index_for_step_range, mean_step, mean_step_of, nibbles,
    probe_count, sample_at, wav_opening,
};
use crate::error::{Component, Error};
use crate::ima_layout::{coded, coded_one_more, header_byte, headers_hold, lay_headers};
use crate::ima_wav::{
    group_value, ima_code3, ima_expand_code3, ima_next3, ima_quantize_code3, ima_run3, ima_step,
    ima_step_bounds, wav_code3, wav_codes3, wav_error, wav_groups, wav_samples3, wav_seed,
    ImaCodecState, ImaModel,
};
use crate::interleave::{owner, place};
use crate::ladder::{state_models, wav_ladder_opening, wav_targets};
use crate::options::Quantizer;

verus! {

/// The number whose digits base eight are `n` codes from `from` on, the first
/// one lowest.
pub open spec fn octal(codes: Seq<int>, from: int, n: int) -> int
    decreases n,
{
    if n <= 0 {
        0
    } else {
        codes[from] + 8 * octal(codes, from + 1, n - 1)
    }
}

/// Byte `r` of a number, the lowest byte first.
pub open spec fn byte_of(v: int, r: int) -> u8 {
    ((v / pow(256, r as nat)) % 256) as u8
}

/// The bytes of a three-bit WAV block: the headers of the channels, then the
/// channels in turns, twelve bytes each.
pub open spec fn wav3_layout(
    openings: Seq<ImaModel>,
    codes: Seq<Seq<int>>,
    channels: int,
    len: int,
) -> Seq<u8> {
    Seq::new(
        (4 * channels + len) as nat,
        |j: int|
            if j < 4 * channels {
                header_byte(openings, j)
            } else {
                let at = j - 4 * channels;
                let within = at % (12 * channels);
                byte_of(octal(codes[within / 12], 32 * (at / (12 * channels)), 32), within % 12)
            },
    )
}

/// So many codes make a number of so many digits.
proof fn octal_bound(codes: Seq<int>, from: int, n: int)
    requires
        0 <= n,
        forall|k: int| from <= k < from + n ==> 0 <= #[trigger] codes[k] < 8,
    ensures
        0 <= octal(codes, from, n) < pow(8, n as nat),
    decreases n,
{
    reveal(pow);
    if n > 0 {
        octal_bound(codes, from + 1, n - 1);
        assert(0 <= codes[from] < 8);
        assert(pow(8, n as nat) == 8 * pow(8, (n - 1) as nat));
    }
}

/// Up to 32 codes make a number of 96 bits.
proof fn octal_fits(codes: Seq<int>, from: int, n: int)
    requires
        0 <= n <= 32,
        forall|k: int| from <= k < from + n ==> 0 <= #[trigger] codes[k] < 8,
    ensures
        0 <= octal(codes, from, n) < 0x1_0000_0000_0000_0000_0000_0000,
        pow(256, 12) == 0x1_0000_0000_0000_0000_0000_0000,
{
    octal_bound(codes, from, n);
    lemma_pow_increases(8, n as nat, 32);
    assert(pow(8, 32) == 0x1_0000_0000_0000_0000_0000_0000) by {
        reveal_with_fuel(pow, 33);
    }
    assert(pow(256, 12) == 0x1_0000_0000_0000_0000_0000_0000) by {
        reveal_with_fuel(pow, 13);
    }
}

/// A digit of the number is the code.
proof fn octal_digit(codes: Seq<int>, from: int, n: int, k: int)
    requires
        0 <= k < n,
        forall|i: int| from <= i < from + n ==> 0 <= #[trigger] codes[i] < 8,
    ensures
        (octal(codes, from, n) / pow(8, k as nat)) % 8 == codes[from + k],
    decreases n,
{
    reveal(pow);
    let v = octal(codes, from, n);
    let rest = octal(codes, from + 1, n - 1);
    octal_bound(codes, from + 1, n - 1);
    assert(0 <= codes[from] < 8);
    assert(v == codes[from] + 8 * rest);
    if k == 0 {
        assert(pow(8, 0) == 1);
        vstd::arithmetic::div_mod::lemma_div_basics(v);
    } else {
        octal_digit(codes, from + 1, n - 1, k - 1);
        lemma_pow_positive(8, (k - 1) as nat);
        assert(pow(8, k as nat) == 8 * pow(8, (k - 1) as nat));
        lemma_div_denominator(v, 8, pow(8, (k - 1) as nat));
        assert(v / 8 == rest);
    }
}

/// Bytes that are a number's make up its value.
proof fn bytes_value(block: Seq<u8>, start: int, v: int, r: int, n: int)
    requires
        0 <= v,
        0 <= r,
        0 <= n,
        forall|i: int| r <= i < r + n ==> #[trigger] block[start + i] == byte_of(v, i),
    ensures
        group_value(block, start + r, n) == (v / pow(256, r as nat)) % pow(256, n as nat),
    decreases n,
{
    reveal(pow);
    lemma_pow_positive(256, r as nat);
    lemma_pow_positive(256, n as nat);
    let x = v / pow(256, r as nat);
    if n == 0 {
        assert(pow(256, 0) == 1);
        assert(x % 1 == 0);
    } else {
        bytes_value(block, start, v, r + 1, n - 1);
        lemma_pow_positive(256, (n - 1) as nat);
        assert(block[start + r] == byte_of(v, r));
        assert(pow(256, (r + 1) as nat) == pow(256, r as nat) * 256) by (nonlinear_arith)
            requires
                pow(256, (r + 1) as nat) == 256 * pow(256, r as nat),
        ;
        lemma_div_denominator(v, pow(256, r as nat), 256);
        assert(x >= 0) by {
            vstd::arithmetic::div_mod::lemma_div_pos_is_pos(v, pow(256, r as nat));
        }
        lemma_mod_breakdown(x, 256, pow(256, (n - 1) as nat));
        assert(pow(256, n as nat) == 256 * pow(256, (n - 1) as nat));
    }
}

/// Opening states and codes that a three-bit block can hold.
pub open spec fn fit_for_groups(openings: Seq<ImaModel>, codes: Seq<Seq<int>>, n: int) -> bool {
    &&& codes.len() == openings.len()
    &&& forall|ch: int| 0 <= ch < openings.len() ==> (#[trigger] openings[ch]).valid()
    &&& forall|ch: int| 0 <= ch < codes.len() ==> (#[trigger] codes[ch]).len() == n
    &&& forall|ch: int, k: int|
        0 <= ch < codes.len() && 0 <= k < n ==> 0 <= #[trigger] codes[ch][k] < 8
}

/// A three-bit block holds the codes of a channel.
proof fn wav3_layout_stream(
    openings: Seq<ImaModel>,
    codes: Seq<Seq<int>>,
    channels: int,
    groups: int,
    ch: int,
)
    requires
        1 <= channels <= 8,
        0 <= groups,
        openings.len() == channels,
        fit_for_groups(openings, codes, 32 * groups),
        0 <= ch < channels,
        (12 * channels * groups) / (12 * channels) == groups,
        12 * channels * groups >= 0,
    ensures
        wav_codes3(wav3_layout(openings, codes, channels, 12 * channels * groups), channels, ch)
            == codes[ch],
{
    let block = wav3_layout(openings, codes, channels, 12 * channels * groups);
    let got = wav_codes3(block, channels, ch);
    assert(codes[ch].len() == 32 * groups);
    assert forall|k: int| 0 <= k < 32 * groups implies got[k] == codes[ch][k] by {
        let g = k / 32;
        let i = k % 32;
        let start = 4 * channels + g * (12 * channels) + 12 * ch;
        let v = octal(codes[ch], 32 * g, 32);
        octal_fits(codes[ch], 32 * g, 32);
        assert forall|r: int| 0 <= r < 0 + 12 implies #[trigger] block[start + r] == byte_of(v, r)
            by {
            let within = 12 * ch + r;
            let at = g * (12 * channels) + within;
            place(g, within, 12 * channels, groups);
            assert(groups * (12 * channels) == 12 * channels * groups) by (nonlinear_arith);
            assert(within / 12 == ch && within % 12 == r);
            assert(start + r == 4 * channels + at);
        }
        bytes_value(block, start, v, 0, 12);
        assert(pow(256, 0) == 1) by {
            reveal(pow);
        }
        vstd::arithmetic::div_mod::lemma_div_basics(v);
        vstd::arithmetic::div_mod::lemma_small_mod(v as nat, pow(256, 12) as nat);
        octal_digit(codes[ch], 32 * g, 32, i);
        assert(got[k] == wav_code3(block, channels, ch, k));
    }
    assert(got =~= codes[ch]);
}

/// A three-bit block can be decoded, and holds the opening state and the codes
/// of every channel.
pub proof fn wav3_layout_holds(
    openings: Seq<ImaModel>,
    codes: Seq<Seq<int>>,
    channels: int,
    groups: int,
)
    requires
        1 <= channels <= 8,
        0 <= groups,
        openings.len() == channels,
        fit_for_groups(openings, codes, 32 * groups),
    ensures
        ({
            let block = wav3_layout(openings, codes, channels, 12 * channels * groups);
            &&& wav_error(block, channels, 12, Component::ImaWav3Bit) is None
            &&& block.len() == 4 * channels + 12 * channels * groups
            &&& wav_groups(block.len() as int, channels, 12) == groups
            &&& forall|ch: int|
                0 <= ch < channels ==> #[trigger] wav_seed(block, ch) == openings[ch]
            &&& forall|ch: int|
                0 <= ch < channels ==> #[trigger] wav_codes3(block, channels, ch) == codes[ch]
        }),
{
    let block = wav3_layout(openings, codes, channels, 12 * channels * groups);
    assert(12 * channels * groups >= 0) by (nonlinear_arith)
        requires
            channels >= 0,
            groups >= 0,
    ;
    headers_hold(openings, block, channels);
    assert((12 * channels * groups) % (12 * channels) == 0 && (12 * channels * groups) / (12
        * channels) == groups) by {
        vstd::arithmetic::mul::lemma_mul_is_commutative(12 * channels, groups);
        vstd::arithmetic::div_mod::lemma_mod_multiples_basic(groups, 12 * channels);
        vstd::arithmetic::div_mod::lemma_div_multiples_vanish(groups, 12 * channels);
    }
    assert forall|ch: int| 0 <= ch < channels implies #[trigger] wav_codes3(block, channels, ch)
        == codes[ch] by {
        wav3_layout_stream(openings, codes, channels, groups, ch);
    }
}

// ---- Codes ----

/// How far a code leaves the channel from a sample.
pub open spec fn cost3(s: ImaModel, target: int, code: int) -> int {
    magnitude(ima_next3(s, code).predictor - target)
}

/// The code that suits a sample best, and of several the lowest.
pub open spec fn best3(s: ImaModel, target: int) -> int {
    least(|code: int| cost3(s, target, code), 8)
}

/// The code of a sample.
pub open spec fn code3(quantizer: Quantizer, s: ImaModel, target: int) -> int {
    match quantizer {
        Quantizer::Search => best3(s, target),
        Quantizer::Reference => ima_code3(s.predictor, ima_step(s.step_index), target),
    }
}

/// The state once the first `k` samples are coded.
pub open spec fn track3(quantizer: Quantizer, s: ImaModel, targets: Seq<int>, k: int) -> ImaModel
    decreases k,
{
    if k <= 0 {
        s
    } else {
        let before = track3(quantizer, s, targets, k - 1);
        ima_next3(before, code3(quantizer, before, targets[k - 1]))
    }
}

/// The codes of samples.
pub open spec fn codes3(quantizer: Quantizer, s: ImaModel, targets: Seq<int>) -> Seq<int> {
    Seq::new(
        targets.len(),
        |k: int| code3(quantizer, track3(quantizer, s, targets, k), targets[k]),
    )
}

/// Coding keeps a channel valid, and codes are three bits wide.
proof fn track3_valid(quantizer: Quantizer, s: ImaModel, targets: Seq<int>, k: int)
    requires
        s.valid(),
    ensures
        track3(quantizer, s, targets, k).valid(),
        0 <= code3(quantizer, track3(quantizer, s, targets, k), targets[k]) < 8,
    decreases k,
{
    let here = track3(quantizer, s, targets, k);
    ima_step_bounds(here.step_index);
    least_is_least(|code: int| cost3(here, targets[k], code), 8);
    if k > 0 {
        track3_valid(quantizer, s, targets, k - 1);
    }
}

/// No code would have brought the search closer to a sample than the one it
/// chose, and no lower code as close.
pub proof fn choice3_is_closest(s: ImaModel, target: int, code: int)
    requires
        0 <= code < 8,
    ensures
        0 <= best3(s, target) < 8,
        magnitude(ima_next3(s, best3(s, target)).predictor - target) <= magnitude(
            ima_next3(s, code).predictor - target,
        ),
        code < best3(s, target) ==> magnitude(ima_next3(s, best3(s, target)).predictor - target)
            < magnitude(ima_next3(s, code).predictor - target),
{
    let f = |n: int| cost3(s, target, n);
    least_is_least(f, 8);
    assert(f(code) == cost3(s, target, code));
    assert(f(best3(s, target)) == cost3(s, target, best3(s, target)));
}

/// From the same state, the ladder comes no closer to a sample than the search
/// does.
pub proof fn search3_is_no_worse(s: ImaModel, target: int)
    requires
        s.valid(),
    ensures
        magnitude(ima_next3(s, code3(Quantizer::Search, s, target)).predictor - target)
            <= magnitude(
            ima_next3(s, code3(Quantizer::Reference, s, target)).predictor - target,
        ),
{
    track3_valid(Quantizer::Reference, s, seq![target], 0);
    choice3_is_closest(s, target, code3(Quantizer::Reference, s, target));
}

/// The decoder, fed with the codes, walks the same states as the encoder.
pub proof fn lockstep3(quantizer: Quantizer, s: ImaModel, targets: Seq<int>, k: int)
    requires
        0 <= k <= targets.len(),
    ensures
        ima_run3(s, codes3(quantizer, s, targets), k) == track3(quantizer, s, targets, k),
    decreases k,
{
    if k > 0 {
        lockstep3(quantizer, s, targets, k - 1);
    }
}

/// The state behind a code, without moving the channel.
fn simulate3(st: &ImaCodecState, code: u8) -> (r: ImaCodecState)
    requires
        st@.valid(),
        code < 8,
    ensures
        r@ == ima_next3(st@, code as int),
        r@.valid(),
{
    let mut predictor: i32 = st.predictor;
    let mut step_index: i32 = st.step_index;
    proof {
        ima_step_bounds(step_index as int);
    }
    let _ = ima_expand_code3(&mut predictor, &mut step_index, code);
    ImaCodecState { predictor, step_index }
}

/// The distance of a channel from a sample.
fn distance3(st: &ImaCodecState, target: i32) -> (r: i32)
    requires
        st@.valid(),
        -32768 <= target <= 32767,
    ensures
        r == magnitude(st@.predictor - target),
{
    if st.predictor < target {
        target - st.predictor
    } else {
        st.predictor - target
    }
}

/// Picks the code that suits a sample best, with the state behind it.
fn search3(st: &ImaCodecState, target: i32) -> (r: (u8, ImaCodecState))
    requires
        st@.valid(),
        -32768 <= target <= 32767,
    ensures
        r.0 < 8,
        r.0 == best3(st@, target as int),
        r.1@ == ima_next3(st@, r.0 as int),
{
    let ghost f = |code: int| cost3(st@, target as int, code);
    let mut best: u8 = 0;
    let mut best_state: ImaCodecState = simulate3(st, 0);
    let mut best_cost: i32 = distance3(&best_state, target);
    let mut n: u8 = 1;
    while n < 8
        invariant
            1 <= n <= 8,
            st@.valid(),
            -32768 <= target <= 32767,
            best < 8,
            f == (|code: int| cost3(st@, target as int, code)),
            best == least(f, n as int),
            best_state@ == ima_next3(st@, best as int),
            best_cost == f(best as int),
        decreases 8 - n,
    {
        let next: ImaCodecState = simulate3(st, n);
        let cost: i32 = distance3(&next, target);
        assert(cost == f(n as int));
        if cost < best_cost {
            best = n;
            best_state = next;
            best_cost = cost;
        }
        n = n + 1;
    }
    (best, best_state)
}

/// Picks the code of a sample, with the state behind it.
fn pick3(quantizer: Quantizer, st: &ImaCodecState, target: i16) -> (r: (u8, ImaCodecState))
    requires
        st@.valid(),
    ensures
        r.0 < 8,
        r.0 == code3(quantizer, st@, target as int),
        r.1@ == ima_next3(st@, r.0 as int),
{
    match quantizer {
        Quantizer::Search => search3(st, target as i32),
        Quantizer::Reference => {
            let mut predictor: i32 = st.predictor;
            let mut step_index: i32 = st.step_index;
            proof {
                ima_step_bounds(step_index as int);
            }
            let code: u8 = ima_quantize_code3(&mut predictor, &mut step_index, target);
            (code, ImaCodecState { predictor, step_index })
        },
    }
}

/// Codes `n` samples of a channel, from its second sample on.
fn code_channel3(
    quantizer: Quantizer,
    opening: ImaCodecState,
    samples: &[i16],
    channels: usize,
    ch: usize,
    n: usize,
) -> (r: (Vec<u8>, ImaCodecState))
    requires
        opening@.valid(),
        ch < channels,
        (1 + n) * channels <= samples@.len(),
        1 + n <= usize::MAX,
    ensures
        ({
            let targets = channel_tail(samples@, channels as int, ch as int, 1, n as int);
            &&& nibbles(r.0@, codes3(quantizer, opening@, targets))
            &&& r.0@.len() == n
            &&& r.1@ == track3(quantizer, opening@, targets, n as int)
        }),
{
    let ghost targets = channel_tail(samples@, channels as int, ch as int, 1, n as int);
    let len: usize = samples.len();
    let mut st: ImaCodecState = opening;
    let mut codes: Vec<u8> = Vec::new();
    let mut k: usize = 0;
    while k < n
        invariant
            k <= n,
            ch < channels,
            (1 + n) * channels <= len == samples@.len(),
            1 + n <= usize::MAX,
            opening@.valid(),
            targets == channel_tail(samples@, channels as int, ch as int, 1, n as int),
            st@ == track3(quantizer, opening@, targets, k as int),
            nibbles(codes@, codes3(quantizer, opening@, targets).take(k as int)),
            codes@.len() == k,
        decreases n - k,
    {
        proof {
            track3_valid(quantizer, opening@, targets, k as int);
            place(1 + k, ch as int, channels as int, 1 + n);
            assert((1 + k) * channels <= (1 + n) * channels) by (nonlinear_arith)
                requires
                    k <= n,
            ;
        }
        let target: i16 = samples[(1 + k) * channels + ch];
        assert(target == targets[k as int]);
        let picked: (u8, ImaCodecState) = pick3(quantizer, &st, target);
        st = picked.1;
        codes.push(picked.0);
        k = k + 1;
    }
    assert(codes3(quantizer, opening@, targets).take(n as int) =~= codes3(
        quantizer,
        opening@,
        targets,
    ));
    (codes, st)
}

// ---- Blocks ----

/// The number of groups of 32 codes per channel in a block of `block_size`
/// bytes.
pub open spec fn wav3_room(channels: int, block_size: int) -> int {
    (block_size - 4 * channels) / (12 * channels)
}

/// Why no three-bit block of `block_size` bytes is built.
pub open spec fn wav3_encode_error(len: int, channels: int, block_size: int) -> Option<Error> {
    let per_channel = 1 + 32 * wav3_room(channels, block_size);
    if channels < 1 || channels > 8 {
        Some(
            Error::ChannelCount {
                component: Component::ImaWav3BitEncoder,
                channels: channels as usize,
            },
        )
    } else if block_size < 4 * channels {
        Some(
            Error::BlockSize {
                component: Component::ImaWav3BitEncoder,
                block_size: block_size as usize,
                header: (4 * channels) as usize,
            },
        )
    } else if (block_size - 4 * channels) % (12 * channels) != 0 {
        Some(
            Error::BodyLength {
                component: Component::ImaWav3BitEncoder,
                len: (block_size - 4 * channels) as usize,
                group: (12 * channels) as usize,
                channels: channels as usize,
            },
        )
    } else if len != per_channel * channels {
        Some(
            Error::SampleCount {
                component: Component::ImaWav3BitEncoder,
                got: len as usize,
                per_channel: per_channel as usize,
                channels: channels as usize,
            },
        )
    } else {
        None
    }
}

/// The state that channel `ch` of a three-bit block starts from, the same as in
/// a four-bit one.
pub open spec fn wav3_opening(
    quantizer: Quantizer,
    states: Seq<ImaModel>,
    samples: Seq<i16>,
    channels: int,
    ch: int,
) -> ImaModel {
    match quantizer {
        Quantizer::Search => wav_opening(samples, channels, ch),
        Quantizer::Reference => wav_ladder_opening(states, samples, channels, ch),
    }
}

/// The states that the channels of a three-bit block start from.
pub open spec fn wav3_openings(
    quantizer: Quantizer,
    states: Seq<ImaModel>,
    samples: Seq<i16>,
    channels: int,
) -> Seq<ImaModel> {
    Seq::new(
        channels as nat,
        |ch: int| wav3_opening(quantizer, states, samples, channels, ch),
    )
}

/// The codes of the channels of a three-bit block.
pub open spec fn wav3_streams(
    quantizer: Quantizer,
    states: Seq<ImaModel>,
    samples: Seq<i16>,
    channels: int,
) -> Seq<Seq<int>> {
    Seq::new(
        channels as nat,
        |ch: int|
            codes3(
                quantizer,
                wav3_opening(quantizer, states, samples, channels, ch),
                wav_targets(samples, channels, ch),
            ),
    )
}

/// A three-bit WAV block of `block_size` bytes.
pub open spec fn wav3_block(
    quantizer: Quantizer,
    states: Seq<ImaModel>,
    samples: Seq<i16>,
    channels: int,
    block_size: int,
) -> Seq<u8> {
    wav3_layout(
        wav3_openings(quantizer, states, samples, channels),
        wav3_streams(quantizer, states, samples, channels),
        channels,
        block_size - 4 * channels,
    )
}

/// The states of the channels behind a three-bit block. The search carries
/// nothing from block to block.
pub open spec fn wav3_states(
    quantizer: Quantizer,
    states: Seq<ImaModel>,
    samples: Seq<i16>,
    channels: int,
) -> Seq<ImaModel> {
    match quantizer {
        Quantizer::Search => states,
        Quantizer::Reference => Seq::new(
            channels as nat,
            |ch: int|
                track3(
                    quantizer,
                    wav_ladder_opening(states, samples, channels, ch),
                    wav_targets(samples, channels, ch),
                    samples.len() as int / channels - 1,
                ),
        ),
    }
}

/// The size of a three-bit block's body and of its samples.
pub proof fn wav3_room_size(channels: int, block_size: int)
    requires
        0 < channels <= 8,
        4 * channels <= block_size,
        (block_size - 4 * channels) % (12 * channels) == 0,
    ensures
        0 <= wav3_room(channels, block_size),
        block_size - 4 * channels == 12 * channels * wav3_room(channels, block_size),
        32 * wav3_room(channels, block_size) + 1 <= 3 * block_size,
        (1 + 32 * wav3_room(channels, block_size)) * channels <= 3 * block_size,
{
    let g = wav3_room(channels, block_size);
    vstd::arithmetic::div_mod::lemma_fundamental_div_mod(
        block_size - 4 * channels,
        12 * channels,
    );
    vstd::arithmetic::div_mod::lemma_div_pos_is_pos(block_size - 4 * channels, 12 * channels);
    assert(3 * ((1 + 32 * g) * channels) == 3 * channels + 8 * (12 * channels * g))
        by (nonlinear_arith);
    assert(12 * g <= 12 * channels * g) by (nonlinear_arith)
        requires
            g >= 0,
            channels >= 1,
    ;
}

/// Writes the codes of one group.
fn push_group(out: &mut Vec<u8>, codes: &Vec<u8>, from: usize, Ghost(wanted): Ghost<Seq<int>>)
    requires
        nibbles(codes@, wanted),
        from + 32 <= wanted.len(),
        forall|k: int| 0 <= k < wanted.len() ==> 0 <= #[trigger] wanted[k] < 8,
    ensures
        final(out)@ == old(out)@ + Seq::new(
            12,
            |r: int| byte_of(octal(wanted, from as int, 32), r),
        ),
{
    let n: usize = codes.len();
    let mut v: u128 = 0;
    let mut i: usize = 32;
    while i > 0
        invariant
            i <= 32,
            n == codes@.len(),
            nibbles(codes@, wanted),
            from + 32 <= n,
            forall|k: int| 0 <= k < wanted.len() ==> 0 <= #[trigger] wanted[k] < 8,
            v == octal(wanted, from + i, 32 - i),
            v < 0x1_0000_0000_0000_0000_0000_0000,
        decreases i,
    {
        i = i - 1;
        proof {
            octal_fits(wanted, from + i, 32 - i);
            assert(octal(wanted, from + i, 32 - i) == wanted[from + i] + 8 * octal(
                wanted,
                from + i + 1,
                32 - i - 1,
            ));
        }
        v = codes[from + i] as u128 + 8 * v;
    }
    let ghost whole = v as int;
    let ghost bytes = Seq::new(12, |r: int| byte_of(whole, r));
    let ghost before = out@;
    let mut r: usize = 0;
    proof {
        assert(pow(256, 0) == 1) by {
            reveal(pow);
        }
        vstd::arithmetic::div_mod::lemma_div_basics(whole);
        assert(out@ =~= before + bytes.take(0));
    }
    while r < 12
        invariant
            r <= 12,
            0 <= whole,
            bytes == Seq::new(12, |r: int| byte_of(whole, r)),
            v == whole / pow(256, r as nat),
            out@ == before + bytes.take(r as int),
        decreases 12 - r,
    {
        out.push((v % 256) as u8);
        proof {
            assert(out@ =~= before + bytes.take(r + 1));
            next_byte(whole, r as int);
        }
        v = v / 256;
        r = r + 1;
    }
    assert(bytes.take(12) =~= bytes);
}

/// Dropping one more byte.
proof fn next_byte(v: int, r: int)
    requires
        0 <= v,
        0 <= r,
    ensures
        v / pow(256, (r + 1) as nat) == (v / pow(256, r as nat)) / 256,
{
    reveal(pow);
    lemma_pow_positive(256, r as nat);
    lemma_div_denominator(v, pow(256, r as nat), 256);
    assert(pow(256, (r + 1) as nat) == pow(256, r as nat) * 256) by (nonlinear_arith)
        requires
            pow(256, (r + 1) as nat) == 256 * pow(256, r as nat),
    ;
}

/// Writes a three-bit block.
fn lay_wav3(
    openings: &Vec<ImaCodecState>,
    codes: &Vec<Vec<u8>>,
    channels: usize,
    groups: usize,
    Ghost(models): Ghost<Seq<ImaModel>>,
    Ghost(wanted): Ghost<Seq<Seq<int>>>,
) -> (out: Vec<u8>)
    requires
        0 < channels <= 8,
        12 * channels * groups + 4 * channels <= usize::MAX,
        32 * groups <= usize::MAX,
        coded(openings@, codes@, models, wanted),
        models.len() == channels,
        fit_for_groups(models, wanted, 32 * groups),
    ensures
        out@ == wav3_layout(models, wanted, channels as int, 12 * channels * groups),
{
    let ghost c = channels as int;
    let ghost len = 12 * c * groups;
    let ghost want = wav3_layout(models, wanted, c, len);
    let mut out: Vec<u8> = lay_headers(openings, channels, Ghost(models));
    assert(groups * (12 * c) == len) by (nonlinear_arith)
        requires
            len == 12 * c * groups,
    ;
    assert(0 * (12 * c) == 0);
    assert(len >= 0) by (nonlinear_arith)
        requires
            len == 12 * c * groups,
            c >= 0,
            groups >= 0,
    ;
    assert(out@ =~= want.take(4 * c + 0 * (12 * c)));
    let mut g: usize = 0;
    while g < groups
        invariant
            g <= groups,
            0 < channels <= 8,
            c == channels,
            32 * groups <= usize::MAX,
            coded(openings@, codes@, models, wanted),
            models.len() == channels,
            fit_for_groups(models, wanted, 32 * groups),
            groups * (12 * c) == len,
            want == wav3_layout(models, wanted, c, len),
            out@ == want.take(4 * c + g * (12 * c)),
        decreases groups - g,
    {
        let mut ch: usize = 0;
        while ch < channels
            invariant
                ch <= channels <= 8,
                g < groups,
                c == channels,
                32 * groups <= usize::MAX,
                coded(openings@, codes@, models, wanted),
                models.len() == channels,
                fit_for_groups(models, wanted, 32 * groups),
                groups * (12 * c) == len,
                want == wav3_layout(models, wanted, c, len),
                out@ == want.take(4 * c + g * (12 * c) + 12 * ch),
            decreases channels - ch,
        {
            let ghost own = wanted[ch as int];
            let ghost start = 4 * c + g * (12 * c) + 12 * ch;
            proof {
                assert(nibbles(codes@[ch as int]@, own));
                assert(own.len() == 32 * groups);
                assert forall|k: int| 0 <= k < own.len() implies 0 <= #[trigger] own[k] < 8 by {
                    assert(0 <= wanted[ch as int][k] < 8);
                }
                assert(32 * g + 32 <= 32 * groups);
            }
            push_group(&mut out, &codes[ch], 32 * g, Ghost(own));
            proof {
                place(g as int, 12 * ch + 11, 12 * c, groups as int);
                assert forall|j: int| start <= j < start + 12 implies #[trigger] want[j]
                    == byte_of(octal(own, 32 * g, 32), j - start) by {
                    let within = 12 * ch + (j - start);
                    place(g as int, within, 12 * c, groups as int);
                    assert(within / 12 == ch && within % 12 == j - start);
                    assert(j == 4 * c + (g * (12 * c) + within));
                }
                assert(out@ =~= want.take(start + 12));
            }
            ch = ch + 1;
        }
        assert((g + 1) * (12 * c) == g * (12 * c) + 12 * c) by (nonlinear_arith);
        g = g + 1;
    }
    assert(want.take(4 * c + groups * (12 * c)) =~= want);
    out
}

/// The codes of the channels of a three-bit block can be laid out.
proof fn streams_fit(
    quantizer: Quantizer,
    states: Seq<ImaModel>,
    samples: Seq<i16>,
    channels: int,
    n: int,
)
    requires
        channels > 0,
        n >= 0,
        samples.len() as int / channels == 1 + n,
    ensures
        fit_for_groups(
            wav3_openings(quantizer, states, samples, channels),
            wav3_streams(quantizer, states, samples, channels),
            n,
        ),
{
    let openings = wav3_openings(quantizer, states, samples, channels);
    let codes = wav3_streams(quantizer, states, samples, channels);
    assert forall|ch: int| 0 <= ch < openings.len() implies (#[trigger] openings[ch]).valid() by {
        let mean = mean_step(samples, channels, ch, probe_count(1 + n));
        index_for_step_range(if (8 * mean) / 3 < 7 { 7 } else { (8 * mean) / 3 }, 0);
    }
    assert forall|ch: int, k: int| 0 <= ch < codes.len() && 0 <= k < n implies 0
        <= #[trigger] codes[ch][k] < 8 by {
        assert(openings[ch].valid());
        track3_valid(quantizer, openings[ch], wav_targets(samples, channels, ch), k);
    }
}

/// The step index that a channel's first samples suggest.
fn probe3(samples: &[i16], channels: usize, ch: usize, per_channel: usize) -> (r: i32)
    requires
        ch < channels,
        per_channel == 1 || per_channel > 16,
        per_channel * channels == samples@.len(),
        samples@.len() as int / channels as int == per_channel,
    ensures
        r == wav_opening(samples@, channels as int, ch as int).step_index,
        0 <= r <= 88,
{
    if per_channel == 1 {
        0
    } else {
        assert(17 * channels <= per_channel * channels) by (nonlinear_arith)
            requires
                17 <= per_channel,
        ;
        index_for_mean_of(mean_step_of(samples, channels, ch, 16))
    }
}

/// Encodes one three-bit block of `block_size` bytes.
fn encode3(
    quantizer: Quantizer,
    samples: &[i16],
    channels: usize,
    block_size: usize,
    states: &mut [ImaCodecState],
) -> (r: Result<Vec<u8>, Error>)
    requires
        3 * block_size <= usize::MAX,
        quantizer == Quantizer::Reference ==> old(states)@.len() == channels,
    ensures
        final(states)@.len() == old(states)@.len(),
        ({
            let c = channels as int;
            let before = state_models(old(states)@);
            let error = wav3_encode_error(samples@.len() as int, c, block_size as int);
            match r {
                Ok(block) => {
                    &&& error is None
                    &&& block@ == wav3_block(quantizer, before, samples@, c, block_size as int)
                    &&& state_models(final(states)@) == wav3_states(quantizer, before, samples@, c)
                },
                Err(e) => error == Some(e) && final(states)@ == old(states)@,
            }
        }),
{
    if channels == 0 || channels > 8 {
        return Err(Error::ChannelCount { component: Component::ImaWav3BitEncoder, channels });
    }
    let header: usize = 4 * channels;
    if block_size < header {
        return Err(
            Error::BlockSize { component: Component::ImaWav3BitEncoder, block_size, header },
        );
    }
    let group: usize = 12 * channels;
    let body: usize = block_size - header;
    if body % group != 0 {
        return Err(
            Error::BodyLength {
                component: Component::ImaWav3BitEncoder,
                len: body,
                group,
                channels,
            },
        );
    }
    let groups: usize = body / group;
    let ghost c = channels as int;
    proof {
        wav3_room_size(c, block_size as int);
    }
    let codes_each: usize = 32 * groups;
    let per_channel: usize = 1 + codes_each;
    let len: usize = samples.len();
    if len != per_channel * channels {
        return Err(
            Error::SampleCount {
                component: Component::ImaWav3BitEncoder,
                got: len,
                per_channel,
                channels,
            },
        );
    }
    assert(len as int / c == per_channel) by {
        vstd::arithmetic::div_mod::lemma_div_multiples_vanish(per_channel as int, c);
        assert(c * per_channel == per_channel * c) by (nonlinear_arith);
    }
    assert(c <= len) by (nonlinear_arith)
        requires
            per_channel >= 1,
            per_channel * c == len,
            c > 0,
    ;
    let ghost before = state_models(states@);
    let ghost models = wav3_openings(quantizer, before, samples@, c);
    let ghost wanted = wav3_streams(quantizer, before, samples@, c);
    let ghost after = wav3_states(quantizer, before, samples@, c);
    let mut openings: Vec<ImaCodecState> = Vec::new();
    let mut codes: Vec<Vec<u8>> = Vec::new();
    let mut ch: usize = 0;
    while ch < channels
        invariant
            ch <= channels <= 8,
            c == channels,
            c <= len == samples@.len(),
            len as int / c == per_channel == 1 + codes_each,
            codes_each == 32 * groups,
            per_channel * c == len,
            quantizer == Quantizer::Reference ==> states@.len() == c && before.len() == c,
            quantizer == Quantizer::Search ==> states@ == old(states)@,
            models == wav3_openings(quantizer, before, samples@, c),
            wanted == wav3_streams(quantizer, before, samples@, c),
            after == wav3_states(quantizer, before, samples@, c),
            quantizer == Quantizer::Reference ==> forall|q: int|
                0 <= q < ch ==> (#[trigger] states@[q])@ == after[q],
            quantizer == Quantizer::Reference ==> forall|q: int|
                ch <= q < c ==> (#[trigger] states@[q])@ == before[q],
            forall|q: int| 0 <= q < ch ==> (#[trigger] models[q]).valid(),
            coded(openings@, codes@, models.take(ch as int), wanted.take(ch as int)),
        decreases channels - ch,
    {
        let step_index: i32 = match quantizer {
            Quantizer::Search => probe3(samples, channels, ch, per_channel),
            Quantizer::Reference => {
                let state: ImaCodecState = states[ch];
                assert(state@ == before[ch as int]);
                clamp_i32(state.step_index, 0, 88)
            },
        };
        let opening: ImaCodecState = ImaCodecState { predictor: samples[ch] as i32, step_index };
        proof {
            place(0, ch as int, c, 1);
        }
        assert(opening@ == models[ch as int]);
        let done: (Vec<u8>, ImaCodecState) = code_channel3(
            quantizer,
            opening,
            samples,
            channels,
            ch,
            codes_each,
        );
        proof {
            coded_one_more(openings@, codes@, opening, done.0, models, wanted, ch as int);
        }
        openings.push(opening);
        codes.push(done.0);
        if quantizer == Quantizer::Reference {
            states[ch] = done.1;
            assert(states@[ch as int]@ == after[ch as int]);
        }
        ch = ch + 1;
    }
    assert(models.take(c) =~= models);
    assert(wanted.take(c) =~= wanted);
    assert(state_models(states@) =~= after);
    proof {
        streams_fit(quantizer, before, samples@, c, codes_each as int);
    }
    Ok(lay_wav3(&openings, &codes, channels, groups, Ghost(models), Ghost(wanted)))
}

/// Encodes one three-bit WAV block of `block_size` bytes, each code picked by a
/// search. The samples must be exactly as many as the block holds.
pub fn ima_encode_block_3bit(samples: &[i16], channels: usize, block_size: usize) -> (r: Result<
    Vec<u8>,
    Error,
>)
    requires
        3 * block_size <= usize::MAX,
    ensures
        ({
            let c = channels as int;
            let error = wav3_encode_error(samples@.len() as int, c, block_size as int);
            match r {
                Ok(block) => {
                    &&& error is None
                    &&& block@ == wav3_block(
                        Quantizer::Search,
                        Seq::empty(),
                        samples@,
                        c,
                        block_size as int,
                    )
                },
                Err(e) => error == Some(e),
            }
        }),
{
    let mut states: Vec<ImaCodecState> = Vec::new();
    assert(state_models(states@) =~= Seq::empty());
    encode3(Quantizer::Search, samples, channels, block_size, states.as_mut_slice())
}

/// Encodes one three-bit WAV block of `block_size` bytes with the ladder. The
/// channels start from the step indices that they have come to, and are left
/// where the block leaves them. The samples must be exactly as many as the block
/// holds.
pub fn ima_encode_block_3bit_reference(
    samples: &[i16],
    channels: usize,
    block_size: usize,
    states: &mut [ImaCodecState],
) -> (r: Result<Vec<u8>, Error>)
    requires
        3 * block_size <= usize::MAX,
        old(states)@.len() == channels,
    ensures
        final(states)@.len() == channels,
        ({
            let c = channels as int;
            let before = state_models(old(states)@);
            let quantizer = Quantizer::Reference;
            let error = wav3_encode_error(samples@.len() as int, c, block_size as int);
            match r {
                Ok(block) => {
                    &&& error is None
                    &&& block@ == wav3_block(quantizer, before, samples@, c, block_size as int)
                    &&& state_models(final(states)@) == wav3_states(quantizer, before, samples@, c)
                },
                Err(e) => error == Some(e) && final(states)@ == old(states)@,
            }
        }),
{
    encode3(Quantizer::Reference, samples, channels, block_size, states)
}

/// The search takes nothing from the blocks before.
pub proof fn search3_starts_afresh(
    a: Seq<ImaModel>,
    b: Seq<ImaModel>,
    samples: Seq<i16>,
    channels: int,
    block_size: int,
)
    ensures
        wav3_block(Quantizer::Search, a, samples, channels, block_size) == wav3_block(
            Quantizer::Search,
            b,
            samples,
            channels,
            block_size,
        ),
{
    let search = Quantizer::Search;
    assert(wav3_openings(search, a, samples, channels) =~= wav3_openings(
        search,
        b,
        samples,
        channels,
    ));
    assert(wav3_streams(search, a, samples, channels) =~= wav3_streams(
        search,
        b,
        samples,
        channels,
    ));
}

/// Decoding a three-bit block gives, for every sample, the sample that the
/// encoder settled for. The first sample of each channel comes back exactly, and
/// behind the last code the decoder is in the state that the encoder came to.
pub proof fn wav3_round_trip(
    quantizer: Quantizer,
    states: Seq<ImaModel>,
    samples: Seq<i16>,
    channels: int,
    block_size: int,
)
    requires
        wav3_encode_error(samples.len() as int, channels, block_size) is None,
    ensures
        ({
            let block = wav3_block(quantizer, states, samples, channels, block_size);
            let decoded = wav_samples3(block, channels);
            let n = samples.len() as int / channels - 1;
            &&& block.len() == block_size
            &&& wav_error(block, channels, 12, Component::ImaWav3Bit) is None
            &&& decoded.len() == samples.len()
            &&& forall|j: int|
                0 <= j < samples.len() ==> #[trigger] decoded[j] == track3(
                    quantizer,
                    wav3_opening(quantizer, states, samples, channels, j % channels),
                    wav_targets(samples, channels, j % channels),
                    j / channels,
                ).predictor as i16
            &&& forall|j: int| 0 <= j < channels ==> #[trigger] decoded[j] == samples[j]
            &&& forall|ch: int|
                0 <= ch < channels ==> #[trigger] wav_seed(block, ch) == wav3_opening(
                    quantizer,
                    states,
                    samples,
                    channels,
                    ch,
                )
            &&& quantizer == Quantizer::Reference ==> forall|ch: int|
                0 <= ch < channels ==> ima_run3(
                    wav_seed(block, ch),
                    wav_codes3(block, channels, ch),
                    n,
                ) == #[trigger] wav3_states(quantizer, states, samples, channels)[ch]
        }),
{
    let block = wav3_block(quantizer, states, samples, channels, block_size);
    let decoded = wav_samples3(block, channels);
    let room = wav3_room(channels, block_size);
    wav3_room_size(channels, block_size);
    let per_channel = 1 + 32 * room;
    assert(samples.len() as int / channels == per_channel) by {
        vstd::arithmetic::div_mod::lemma_div_multiples_vanish(per_channel, channels);
        assert(channels * per_channel == per_channel * channels) by (nonlinear_arith);
    }
    let openings = wav3_openings(quantizer, states, samples, channels);
    let codes = wav3_streams(quantizer, states, samples, channels);
    streams_fit(quantizer, states, samples, channels, 32 * room);
    wav3_layout_holds(openings, codes, channels, room);
    if quantizer == Quantizer::Reference {
        assert forall|ch: int| 0 <= ch < channels implies ima_run3(
            wav_seed(block, ch),
            wav_codes3(block, channels, ch),
            32 * room,
        ) == #[trigger] wav3_states(quantizer, states, samples, channels)[ch] by {
            lockstep3(quantizer, openings[ch], wav_targets(samples, channels, ch), 32 * room);
        }
    }
    assert forall|j: int| 0 <= j < samples.len() implies #[trigger] decoded[j] == track3(
        quantizer,
        wav3_opening(quantizer, states, samples, channels, j % channels),
        wav_targets(samples, channels, j % channels),
        j / channels,
    ).predictor as i16 by {
        owner(j, channels, per_channel);
        let ch = j % channels;
        assert(wav_seed(block, ch) == openings[ch]);
        assert(wav_codes3(block, channels, ch) == codes[ch]);
        lockstep3(quantizer, openings[ch], wav_targets(samples, channels, ch), j / channels);
    }
    assert forall|j: int| 0 <= j < channels implies #[trigger] decoded[j] == samples[j] by {
        assert(channels <= samples.len()) by (nonlinear_arith)
            requires
                samples.len() == per_channel * channels,
                per_channel >= 1,
                channels > 0,
        ;
        place(0, j, channels, 1);
        assert(sample_at(samples, channels, j, 0) == samples[j]);
    }
}

/// At no place of a three-bit block of the search would another code, behind the
/// codes that stand before it, decode closer to the sample, and no lower code as
/// close.
pub proof fn wav3_block_is_closest(
    samples: Seq<i16>,
    channels: int,
    block_size: int,
    ch: int,
    k: int,
    n: int,
)
    requires
        wav3_encode_error(samples.len() as int, channels, block_size) is None,
        0 <= ch < channels,
        0 <= k < 32 * wav3_room(channels, block_size),
        0 <= n < 8,
    ensures
        ({
            let block = wav3_block(
                Quantizer::Search,
                Seq::empty(),
                samples,
                channels,
                block_size,
            );
            let codes = wav_codes3(block, channels, ch);
            let s = ima_run3(wav_seed(block, ch), codes, k);
            let j = (1 + k) * channels + ch;
            let target = samples[j] as int;
            let got = ima_next3(s, codes[k]).predictor;
            &&& 0 <= codes[k] < 8
            &&& wav_samples3(block, channels)[j] == got
            &&& magnitude(got - target) <= magnitude(ima_next3(s, n).predictor - target)
            &&& n < codes[k] ==> magnitude(got - target) < magnitude(
                ima_next3(s, n).predictor - target,
            )
        }),
{
    let search = Quantizer::Search;
    let none = Seq::<ImaModel>::empty();
    let room = wav3_room(channels, block_size);
    wav3_room_size(channels, block_size);
    let per_channel = 1 + 32 * room;
    assert(samples.len() as int / channels == per_channel) by {
        vstd::arithmetic::div_mod::lemma_div_multiples_vanish(per_channel, channels);
        assert(channels * per_channel == per_channel * channels) by (nonlinear_arith);
    }
    let openings = wav3_openings(search, none, samples, channels);
    let codes = wav3_streams(search, none, samples, channels);
    streams_fit(search, none, samples, channels, 32 * room);
    wav3_layout_holds(openings, codes, channels, room);
    let block = wav3_block(search, none, samples, channels, block_size);
    assert(wav_seed(block, ch) == openings[ch]);
    assert(wav_codes3(block, channels, ch) == codes[ch]);
    let targets = wav_targets(samples, channels, ch);
    lockstep3(search, openings[ch], targets, k);
    track3_valid(search, openings[ch], targets, k);
    choice3_is_closest(track3(search, openings[ch], targets, k), targets[k], n);
    place(1 + k, ch, channels, per_channel);
}

} // verus!
