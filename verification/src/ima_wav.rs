//! IMA ADPCM: the sample recurrence, and the WAV block layout.
//!
//! A decoder holds one running sample and one step index per channel. Each
//! code moves the sample by a signed fraction of the step and moves the index.
//!
//! A WAV block opens with four bytes per channel: the first sample (signed
//! 16-bit, low byte first), the step index, and a reserved byte. Behind the
//! headers the channels take turns in groups of four bytes, eight codes each,
//! the low nibble of a byte before the high one. In the three-bit mode a group
//! is twelve bytes and holds 32 codes, taken from the low end of the group's
//! little-endian 96-bit value.

use vstd::prelude::*;

use vstd::arithmetic::div_mod::{lemma_div_denominator, lemma_fundamental_div_mod};
use vstd::arithmetic::power::{lemma_pow_increases, lemma_pow_positive, pow};

use crate::arith::{
    clamp, clamp16, clamp_i32, high_nibble, low_nibble, magnitude, read_i16, word_le,
};
use crate::error::{Component, Error};
use crate::interleave::{fill_end, fill_start, fill_step, fill_turn, filled, place};
use crate::tables::{IMA3_INDEX_ADJUST, IMA_INDEX_ADJUST, IMA_STEP_SIZE};

verus! {

/// The state of one channel: the running sample and the step index.
#[derive(Clone, Copy, Debug, PartialEq, Eq, Structural)]
pub struct ImaCodecState {
    /// The last sample.
    pub predictor: i32,
    /// The index of the current step, `0..=88`.
    pub step_index: i32,
}

impl Default for ImaCodecState {
    fn default() -> (r: ImaCodecState)
        ensures
            r == (ImaCodecState { predictor: 0, step_index: 0 }),
    {
        ImaCodecState { predictor: 0, step_index: 0 }
    }
}

/// The state of one channel, over the integers.
pub struct ImaModel {
    pub predictor: int,
    pub step_index: int,
}

impl View for ImaCodecState {
    type V = ImaModel;

    open spec fn view(&self) -> ImaModel {
        ImaModel { predictor: self.predictor as int, step_index: self.step_index as int }
    }
}

impl ImaModel {
    /// The sample fits 16 bits and the index is one of the table.
    pub open spec fn valid(self) -> bool {
        &&& -32768 <= self.predictor <= 32767
        &&& 0 <= self.step_index <= 88
    }
}

/// The step of an index; an index outside the table counts as the nearest one.
pub open spec fn ima_step(step_index: int) -> int {
    IMA_STEP_SIZE[clamp(step_index, 0, 88)] as int
}

/// How far a four-bit code moves the sample: an eighth of the step, plus a
/// quarter, a half and a whole step for the three magnitude bits, against the
/// sign bit.
pub open spec fn ima_move4(step: int, code: int) -> int {
    let m = step / 8 + (if code % 2 == 1 { step / 4 } else { 0 }) + (if (code / 2) % 2 == 1 {
        step / 2
    } else {
        0
    }) + (if (code / 4) % 2 == 1 { step } else { 0 });
    if code >= 8 {
        -m
    } else {
        m
    }
}

/// How far a three-bit code moves the sample: a quarter of the step, plus a
/// half and a whole step for the two magnitude bits, against the sign bit.
pub open spec fn ima_move3(step: int, code: int) -> int {
    let m = step / 4 + (if code % 2 == 1 { step / 2 } else { 0 }) + (if (code / 2) % 2 == 1 {
        step
    } else {
        0
    });
    if code >= 4 {
        -m
    } else {
        m
    }
}

/// The state behind a four-bit code.
pub open spec fn ima_next4(s: ImaModel, code: int) -> ImaModel {
    ImaModel {
        predictor: clamp16(s.predictor + ima_move4(ima_step(s.step_index), code)),
        step_index: clamp(s.step_index + IMA_INDEX_ADJUST[code], 0, 88),
    }
}

/// The state behind a three-bit code.
pub open spec fn ima_next3(s: ImaModel, code: int) -> ImaModel {
    ImaModel {
        predictor: clamp16(s.predictor + ima_move3(ima_step(s.step_index), code)),
        step_index: clamp(s.step_index + IMA3_INDEX_ADJUST[code], 0, 88),
    }
}

/// Steps lie between 7 and 32767.
pub proof fn ima_step_bounds(step_index: int)
    ensures
        7 <= ima_step(step_index) <= 32767,
{
}

/// The step of an index.
fn step_size(step_index: i32) -> (r: i32)
    ensures
        r == ima_step(step_index as int),
{
    let i: i32 = clamp_i32(step_index, 0, 88);
    IMA_STEP_SIZE[i as usize] as i32
}

/// Expands one four-bit code: moves the sample and the step index of a
/// channel, and returns the new sample.
pub fn ima_expand_nibble(predictor: &mut i32, step_index: &mut i32, nibble: u8) -> (r: i16)
    requires
        nibble < 16,
        i32::MIN <= *old(predictor) + ima_move4(ima_step(*old(step_index) as int), nibble as int)
            <= i32::MAX,
        i32::MIN <= *old(step_index) + IMA_INDEX_ADJUST[nibble as int] <= i32::MAX,
    ensures
        (ImaModel {
            predictor: *final(predictor) as int,
            step_index: *final(step_index) as int,
        }) == ima_next4(
            ImaModel {
                predictor: *old(predictor) as int,
                step_index: *old(step_index) as int,
            },
            nibble as int,
        ),
        r == *final(predictor),
{
    let step: i32 = step_size(*step_index);
    proof {
        ima_step_bounds(*step_index as int);
    }
    let mut diff: i32 = step / 8;
    if nibble % 2 == 1 {
        diff = diff + step / 4;
    }
    if (nibble / 2) % 2 == 1 {
        diff = diff + step / 2;
    }
    if (nibble / 4) % 2 == 1 {
        diff = diff + step;
    }
    let moved: i32 = if nibble >= 8 {
        *predictor - diff
    } else {
        *predictor + diff
    };
    *predictor = clamp_i32(moved, -32768, 32767);
    *step_index = clamp_i32(*step_index + IMA_INDEX_ADJUST[nibble as usize], 0, 88);
    *predictor as i16
}

/// Expands one three-bit code: moves the sample and the step index of a
/// channel, and returns the new sample. Bits above the third are ignored.
pub fn ima_expand_code3(predictor: &mut i32, step_index: &mut i32, code: u8) -> (r: i16)
    requires
        i32::MIN <= *old(predictor) + ima_move3(
            ima_step(*old(step_index) as int),
            code as int % 8,
        ) <= i32::MAX,
        i32::MIN <= *old(step_index) + IMA3_INDEX_ADJUST[code as int % 8] <= i32::MAX,
    ensures
        (ImaModel {
            predictor: *final(predictor) as int,
            step_index: *final(step_index) as int,
        }) == ima_next3(
            ImaModel {
                predictor: *old(predictor) as int,
                step_index: *old(step_index) as int,
            },
            code as int % 8,
        ),
        r == *final(predictor),
{
    let c: u8 = code % 8;
    let step: i32 = step_size(*step_index);
    proof {
        ima_step_bounds(*step_index as int);
    }
    let mut diff: i32 = step / 4;
    if c % 2 == 1 {
        diff = diff + step / 2;
    }
    if (c / 2) % 2 == 1 {
        diff = diff + step;
    }
    let moved: i32 = if c >= 4 {
        *predictor - diff
    } else {
        *predictor + diff
    };
    *predictor = clamp_i32(moved, -32768, 32767);
    *step_index = clamp_i32(*step_index + IMA3_INDEX_ADJUST[c as usize], 0, 88);
    *predictor as i16
}

/// The four-bit code of a sample: the sign of its distance from the running
/// sample, and one bit each for whether the distance reaches a step, whether
/// the rest reaches half a step, and whether what is then left reaches a
/// quarter.
pub open spec fn ima_code4(predictor: int, step: int, sample: int) -> int {
    let sign: int = if sample < predictor { 8 } else { 0 };
    let d2 = magnitude(sample - predictor);
    let b2: int = if d2 >= step { 1 } else { 0 };
    let d1 = d2 - b2 * step;
    let b1: int = if d1 >= step / 2 { 1 } else { 0 };
    let d0 = d1 - b1 * (step / 2);
    let b0: int = if d0 >= step / 4 { 1 } else { 0 };
    sign + 4 * b2 + 2 * b1 + b0
}

/// The three-bit code of a sample: the sign of its distance from the running
/// sample, and one bit each for whether the distance reaches a step and
/// whether the rest reaches half a step.
pub open spec fn ima_code3(predictor: int, step: int, sample: int) -> int {
    let sign: int = if sample < predictor { 4 } else { 0 };
    let d1 = magnitude(sample - predictor);
    let b1: int = if d1 >= step { 1 } else { 0 };
    let d0 = d1 - b1 * step;
    let b0: int = if d0 >= step / 2 { 1 } else { 0 };
    sign + 2 * b1 + b0
}

/// Quantizes one sample to a four-bit code with the threshold ladder, and
/// moves the channel as the expansion of that code does.
pub fn ima_quantize_nibble(predictor: &mut i32, step_index: &mut i32, sample: i16) -> (code: u8)
    requires
        i32::MIN < sample - *old(predictor) <= i32::MAX,
        i32::MIN <= *old(step_index) + IMA_INDEX_ADJUST[ima_code4(
            *old(predictor) as int,
            ima_step(*old(step_index) as int),
            sample as int,
        )] <= i32::MAX,
    ensures
        code < 16,
        code == ima_code4(
            *old(predictor) as int,
            ima_step(*old(step_index) as int),
            sample as int,
        ),
        (ImaModel {
            predictor: *final(predictor) as int,
            step_index: *final(step_index) as int,
        }) == ima_next4(
            ImaModel {
                predictor: *old(predictor) as int,
                step_index: *old(step_index) as int,
            },
            code as int,
        ),
{
    let step: i32 = step_size(*step_index);
    proof {
        ima_step_bounds(*step_index as int);
    }
    let mut diff: i32 = sample as i32 - *predictor;
    let mut code: u8 = 0;
    if diff < 0 {
        code = 8;
        diff = -diff;
    }
    if diff >= step {
        code = code + 4;
        diff = diff - step;
    }
    if diff >= step / 2 {
        code = code + 2;
        diff = diff - step / 2;
    }
    if diff >= step / 4 {
        code = code + 1;
    }
    let _ = ima_expand_nibble(predictor, step_index, code);
    code
}

/// Quantizes one sample to a three-bit code with the threshold ladder, and
/// moves the channel as the expansion of that code does.
pub fn ima_quantize_code3(predictor: &mut i32, step_index: &mut i32, sample: i16) -> (code: u8)
    requires
        i32::MIN < sample - *old(predictor) <= i32::MAX,
        i32::MIN <= *old(step_index) + IMA3_INDEX_ADJUST[ima_code3(
            *old(predictor) as int,
            ima_step(*old(step_index) as int),
            sample as int,
        )] <= i32::MAX,
    ensures
        code < 8,
        code == ima_code3(
            *old(predictor) as int,
            ima_step(*old(step_index) as int),
            sample as int,
        ),
        (ImaModel {
            predictor: *final(predictor) as int,
            step_index: *final(step_index) as int,
        }) == ima_next3(
            ImaModel {
                predictor: *old(predictor) as int,
                step_index: *old(step_index) as int,
            },
            code as int,
        ),
{
    let step: i32 = step_size(*step_index);
    proof {
        ima_step_bounds(*step_index as int);
    }
    let mut diff: i32 = sample as i32 - *predictor;
    let mut code: u8 = 0;
    if diff < 0 {
        code = 4;
        diff = -diff;
    }
    if diff >= step {
        code = code + 2;
        diff = diff - step;
    }
    if diff >= step / 2 {
        code = code + 1;
    }
    let _ = ima_expand_code3(predictor, step_index, code);
    code
}

/// Bytes per channel in one group of the three-bit layout.
pub const GROUP_BYTES_3BIT: usize = 12;

/// Samples per channel in one group of the three-bit layout.
pub const GROUP_SAMPLES_3BIT: usize = 32;

/// The state after the first `k` four-bit codes.
pub open spec fn ima_run4(s: ImaModel, codes: Seq<int>, k: int) -> ImaModel
    decreases k,
{
    if k <= 0 {
        s
    } else {
        ima_next4(ima_run4(s, codes, k - 1), codes[k - 1])
    }
}

/// The state after the first `k` three-bit codes.
pub open spec fn ima_run3(s: ImaModel, codes: Seq<int>, k: int) -> ImaModel
    decreases k,
{
    if k <= 0 {
        s
    } else {
        ima_next3(ima_run3(s, codes, k - 1), codes[k - 1])
    }
}

/// A channel stays valid whatever four-bit codes it takes.
pub proof fn ima_run4_valid(s: ImaModel, codes: Seq<int>, k: int)
    requires
        s.valid(),
    ensures
        ima_run4(s, codes, k).valid(),
    decreases k,
{
    if k > 0 {
        ima_run4_valid(s, codes, k - 1);
    }
}

/// A channel stays valid whatever three-bit codes it takes.
pub proof fn ima_run3_valid(s: ImaModel, codes: Seq<int>, k: int)
    requires
        s.valid(),
    ensures
        ima_run3(s, codes, k).valid(),
    decreases k,
{
    if k > 0 {
        ima_run3_valid(s, codes, k - 1);
    }
}

/// The state that a block's header gives to channel `ch`.
pub open spec fn wav_seed(block: Seq<u8>, ch: int) -> ImaModel {
    ImaModel {
        predictor: word_le(block[4 * ch], block[4 * ch + 1]),
        step_index: block[4 * ch + 2] as int,
    }
}

/// The number of body groups of `width` bytes per channel in a block.
pub open spec fn wav_groups(len: int, channels: int, width: int) -> int {
    (len - 4 * channels) / (width * channels)
}

/// Code `k` of channel `ch` in a four-bit block.
pub open spec fn wav_code4(block: Seq<u8>, channels: int, ch: int, k: int) -> int {
    let b = block[4 * channels + (k / 8) * (4 * channels) + 4 * ch + (k % 8) / 2];
    if k % 2 == 0 {
        low_nibble(b)
    } else {
        high_nibble(b)
    }
}

/// All codes of channel `ch` in a four-bit block.
pub open spec fn wav_codes4(block: Seq<u8>, channels: int, ch: int) -> Seq<int> {
    Seq::new(
        (8 * wav_groups(block.len() as int, channels, 4)) as nat,
        |k: int| wav_code4(block, channels, ch, k),
    )
}

/// The little-endian value of `n` bytes from `start` on.
pub open spec fn group_value(block: Seq<u8>, start: int, n: int) -> int
    decreases n,
{
    if n <= 0 {
        0
    } else {
        block[start] + 256 * group_value(block, start + 1, n - 1)
    }
}

/// Code `k` of channel `ch` in a three-bit block: digit `k % 32`, base eight,
/// of the value of the channel's twelve bytes in group `k / 32`.
pub open spec fn wav_code3(block: Seq<u8>, channels: int, ch: int, k: int) -> int {
    let start = 4 * channels + (k / 32) * (12 * channels) + 12 * ch;
    (group_value(block, start, 12) / pow(8, (k % 32) as nat)) % 8
}

/// All codes of channel `ch` in a three-bit block.
pub open spec fn wav_codes3(block: Seq<u8>, channels: int, ch: int) -> Seq<int> {
    Seq::new(
        (32 * wav_groups(block.len() as int, channels, 12)) as nat,
        |k: int| wav_code3(block, channels, ch, k),
    )
}

/// The first channel from `ch` on whose header names a step index above 88,
/// or `channels` where there is none.
pub open spec fn first_bad_index(block: Seq<u8>, channels: int, ch: int) -> int
    decreases channels - ch,
{
    if ch >= channels {
        channels
    } else if block[4 * ch + 2] > 88 {
        ch
    } else {
        first_bad_index(block, channels, ch + 1)
    }
}

/// Why a block with groups of `width` bytes per channel cannot be decoded.
pub open spec fn wav_error(
    block: Seq<u8>,
    channels: int,
    width: int,
    component: Component,
) -> Option<Error> {
    let header = 4 * channels;
    let bad = first_bad_index(block, channels, 0);
    if channels < 1 || channels > 8 {
        Some(Error::ChannelCount { component, channels: channels as usize })
    } else if block.len() < header {
        Some(
            Error::BlockTooShort {
                component,
                len: block.len() as usize,
                header: header as usize,
            },
        )
    } else if bad < channels {
        Some(Error::StepIndex { component, index: block[4 * bad + 2], channel: bad as usize })
    } else if (block.len() - header) % (width * channels) != 0 {
        Some(
            Error::BodyLength {
                component,
                len: (block.len() - header) as usize,
                group: (width * channels) as usize,
                channels: channels as usize,
            },
        )
    } else {
        None
    }
}

/// The interleaved samples of a four-bit block: per channel the header's
/// sample, then the running sample behind each code.
pub open spec fn wav_samples4(block: Seq<u8>, channels: int) -> Seq<i16> {
    Seq::new(
        ((1 + 8 * wav_groups(block.len() as int, channels, 4)) * channels) as nat,
        |j: int|
            ima_run4(
                wav_seed(block, j % channels),
                wav_codes4(block, channels, j % channels),
                j / channels,
            ).predictor as i16,
    )
}

/// The interleaved samples of a three-bit block: per channel the header's
/// sample, then the running sample behind each code.
pub open spec fn wav_samples3(block: Seq<u8>, channels: int) -> Seq<i16> {
    Seq::new(
        ((1 + 32 * wav_groups(block.len() as int, channels, 12)) * channels) as nat,
        |j: int|
            ima_run3(
                wav_seed(block, j % channels),
                wav_codes3(block, channels, j % channels),
                j / channels,
            ).predictor as i16,
    )
}

/// Without a bad header, every channel's seed is valid.
proof fn seeds_valid(block: Seq<u8>, channels: int, from: int, ch: int)
    requires
        first_bad_index(block, channels, from) == channels,
        0 <= from <= ch < channels,
    ensures
        wav_seed(block, ch).valid(),
    decreases channels - from,
{
    if from < ch {
        seeds_valid(block, channels, from + 1, ch);
    }
}

/// The first bad header is a channel of the block, or there is none.
proof fn first_bad_range(block: Seq<u8>, channels: int, ch: int)
    requires
        0 <= ch <= channels,
    ensures
        ch <= first_bad_index(block, channels, ch) <= channels,
    decreases channels - ch,
{
    if ch < channels {
        first_bad_range(block, channels, ch + 1);
    }
}

/// The size of a block's body and of its samples, for `codes` codes in a group
/// of `width` bytes.
proof fn wav_size(len: int, channels: int, width: int, codes: int)
    requires
        0 < channels <= 8,
        0 < width,
        0 < codes,
        3 * codes <= 8 * width,
        4 * channels <= len,
        (len - 4 * channels) % (width * channels) == 0,
    ensures
        0 <= wav_groups(len, channels, width),
        len - 4 * channels == width * channels * wav_groups(len, channels, width),
        codes * wav_groups(len, channels, width) <= 3 * len,
        (1 + codes * wav_groups(len, channels, width)) * channels <= 3 * len,
{
    let g = wav_groups(len, channels, width);
    assert(width * channels > 0) by (nonlinear_arith)
        requires
            0 < channels,
            0 < width,
    ;
    lemma_fundamental_div_mod(len - 4 * channels, width * channels);
    assert(g >= 0) by (nonlinear_arith)
        requires
            len - 4 * channels >= 0,
            width * channels > 0,
            g == (len - 4 * channels) / (width * channels),
    ;
    assert(3 * (codes * g * channels) <= 8 * (width * channels * g)) by (nonlinear_arith)
        requires
            3 * codes <= 8 * width,
            g >= 0,
            channels > 0,
    ;
    assert(codes * g <= codes * g * channels) by (nonlinear_arith)
        requires
            codes > 0,
            g >= 0,
            channels >= 1,
    ;
    assert((1 + codes * g) * channels == channels + codes * g * channels) by (nonlinear_arith);
}

/// Group `g` of a block's body lies within the body.
proof fn group_place(g: int, groups: int, channels: int, width: int)
    requires
        0 <= g < groups,
        0 < channels,
        0 < width,
    ensures
        0 <= g * (width * channels),
        g * (width * channels) + width * channels <= width * channels * groups,
{
    assert(0 <= g * (width * channels)) by (nonlinear_arith)
        requires
            0 <= g,
            0 < channels,
            0 < width,
    ;
    assert(g * (width * channels) + width * channels <= width * channels * groups)
        by (nonlinear_arith)
        requires
            0 <= g < groups,
            0 < channels,
            0 < width,
    ;
}

/// Where the samples of a channel lie.
proof fn wav_sample4_at(block: Seq<u8>, channels: int, i: int, ch: int)
    requires
        0 <= i < 1 + 8 * wav_groups(block.len() as int, channels, 4),
        0 <= ch < channels,
    ensures
        wav_samples4(block, channels)[i * channels + ch] == ima_run4(
            wav_seed(block, ch),
            wav_codes4(block, channels, ch),
            i,
        ).predictor as i16,
{
    place(i, ch, channels, 1 + 8 * wav_groups(block.len() as int, channels, 4));
}

/// Where the samples of a channel lie.
proof fn wav_sample3_at(block: Seq<u8>, channels: int, i: int, ch: int)
    requires
        0 <= i < 1 + 32 * wav_groups(block.len() as int, channels, 12),
        0 <= ch < channels,
    ensures
        wav_samples3(block, channels)[i * channels + ch] == ima_run3(
            wav_seed(block, ch),
            wav_codes3(block, channels, ch),
            i,
        ).predictor as i16,
{
    place(i, ch, channels, 1 + 32 * wav_groups(block.len() as int, channels, 12));
}

/// The value of `n` bytes is below 256 to the power of `n`.
proof fn group_value_bound(block: Seq<u8>, start: int, n: int)
    requires
        0 <= n,
    ensures
        0 <= group_value(block, start, n) < pow(256, n as nat),
    decreases n,
{
    reveal(pow);
    if n > 0 {
        group_value_bound(block, start + 1, n - 1);
        assert(pow(256, n as nat) == 256 * pow(256, (n - 1) as nat));
    }
}

/// Twelve bytes hold 96 bits.
proof fn group_value_fits(block: Seq<u8>, start: int, n: int)
    requires
        0 <= n <= 12,
    ensures
        0 <= group_value(block, start, n) < 0x1_0000_0000_0000_0000_0000_0000,
{
    group_value_bound(block, start, n);
    lemma_pow_increases(256, n as nat, 12);
    assert(pow(256, 12) == 0x1_0000_0000_0000_0000_0000_0000) by {
        reveal_with_fuel(pow, 13);
    }
}

/// Dropping one more digit, base eight.
proof fn next_digit(v: int, k: int)
    requires
        0 <= v,
        0 <= k,
    ensures
        v / pow(8, (k + 1) as nat) == (v / pow(8, k as nat)) / 8,
{
    reveal(pow);
    lemma_pow_positive(8, k as nat);
    lemma_div_denominator(v, pow(8, k as nat), 8);
    assert(pow(8, (k + 1) as nat) == pow(8, k as nat) * 8) by (nonlinear_arith)
        requires
            pow(8, (k + 1) as nat) == 8 * pow(8, k as nat),
    ;
}

/// The little-endian value of the twelve bytes from `start` on.
fn read_group(block: &[u8], start: usize) -> (v: u128)
    requires
        start + 12 <= block@.len(),
    ensures
        v == group_value(block@, start as int, 12),
        v < 0x1_0000_0000_0000_0000_0000_0000,
{
    let end: usize = block.len();
    let mut v: u128 = 0;
    let mut i: usize = 12;
    while i > 0
        invariant
            i <= 12,
            start + 12 <= end == block@.len(),
            v == group_value(block@, start + i, 12 - i),
        decreases i,
    {
        i = i - 1;
        proof {
            group_value_fits(block@, start + i, 12 - i);
            assert(group_value(block@, start + i, 12 - i) == block@[start + i] + 256 * group_value(
                block@,
                start + i + 1,
                12 - i - 1,
            ));
        }
        v = block[start + i] as u128 + 256 * v;
    }
    proof {
        group_value_fits(block@, start as int, 12);
    }
    v
}

/// Checks a block's size and headers.
fn check_block(block: &[u8], channels: usize, width: usize, component: Component) -> (r: Option<
    Error,
>)
    requires
        0 < width <= 12,
    ensures
        r == wav_error(block@, channels as int, width as int, component),
{
    if channels == 0 || channels > 8 {
        return Some(Error::ChannelCount { component, channels });
    }
    let header: usize = 4 * channels;
    let len: usize = block.len();
    if len < header {
        return Some(Error::BlockTooShort { component, len, header });
    }
    let mut ch: usize = 0;
    while ch < channels
        invariant
            ch <= channels <= 8,
            block@.len() == len,
            4 * channels <= len,
            first_bad_index(block@, channels as int, 0) == first_bad_index(
                block@,
                channels as int,
                ch as int,
            ),
            channels > 0,
            header == 4 * channels,
        decreases channels - ch,
    {
        let index: u8 = block[4 * ch + 2];
        if index > 88 {
            return Some(Error::StepIndex { component, index, channel: ch });
        }
        ch = ch + 1;
    }
    assert(width * channels <= 96) by (nonlinear_arith)
        requires
            0 < width <= 12,
            0 < channels <= 8,
    ;
    assert(width * channels > 0) by (nonlinear_arith)
        requires
            0 < width <= 12,
            0 < channels <= 8,
    ;
    let group: usize = width * channels;
    if (len - header) % group != 0 {
        return Some(Error::BodyLength { component, len: len - header, group, channels });
    }
    None
}

/// Decodes one block of four-bit codes to interleaved samples.
pub fn decode_block(block: &[u8], channels: usize) -> (r: Result<Vec<i16>, Error>)
    requires
        4 * block@.len() <= isize::MAX,
    ensures
        match r {
            Ok(pcm) => {
                &&& wav_error(block@, channels as int, 4, Component::ImaWav) is None
                &&& pcm@ == wav_samples4(block@, channels as int)
            },
            Err(e) => wav_error(block@, channels as int, 4, Component::ImaWav) == Some(e),
        },
{
    if let Some(e) = check_block(block, channels, 4, Component::ImaWav) {
        return Err(e);
    }
    let ghost c = channels as int;
    let ghost len = block@.len() as int;
    let ghost want = wav_samples4(block@, c);
    proof {
        first_bad_range(block@, c, 0);
    }
    let group: usize = 4 * channels;
    let groups: usize = (block.len() - group) / group;
    proof {
        wav_size(len, c, 4, 8);
    }
    let codes: usize = 8 * groups;
    let ghost n = 1 + codes as int;
    let mut out: Vec<i16> = vec![0i16; (1 + codes) * channels];
    proof {
        fill_start(out@, want, c, n);
    }
    let mut ch: usize = 0;
    while ch < channels
        invariant
            ch <= channels <= 8,
            c == channels,
            c > 0,
            len == block@.len(),
            4 * len <= isize::MAX,
            group == 4 * c,
            groups == wav_groups(len, c, 4),
            len - 4 * c == 4 * c * groups,
            codes == 8 * groups,
            n == 1 + codes,
            n * c <= usize::MAX,
            want == wav_samples4(block@, c),
            first_bad_index(block@, c, 0) == c,
            filled(out@, want, c, n, ch as int, 0),
            out@.len() == n * c,
        decreases channels - ch,
    {
        let mut predictor: i32 = read_i16(block[4 * ch], block[4 * ch + 1]) as i32;
        let mut step_index: i32 = block[4 * ch + 2] as i32;
        let ghost seed = wav_seed(block@, ch as int);
        let ghost stream = wav_codes4(block@, c, ch as int);
        proof {
            seeds_valid(block@, c, 0, ch as int);
            wav_sample4_at(block@, c, 0, ch as int);
            fill_step(out@, want, c, n, ch as int, 0, predictor as i16);
        }
        out[ch] = predictor as i16;
        let mut k: usize = 0;
        while k < codes
            invariant
                ch < channels <= 8,
                c == channels,
                len == block@.len(),
                4 * len <= isize::MAX,
                group == 4 * c,
                groups == wav_groups(len, c, 4),
                len - 4 * c == 4 * c * groups,
                codes == 8 * groups,
                n == 1 + codes,
                n * c <= usize::MAX,
                want == wav_samples4(block@, c),
                k <= codes,
                seed == wav_seed(block@, ch as int),
                seed.valid(),
                stream == wav_codes4(block@, c, ch as int),
                predictor == ima_run4(seed, stream, k as int).predictor,
                step_index == ima_run4(seed, stream, k as int).step_index,
                filled(out@, want, c, n, ch as int, k + 1),
                out@.len() == n * c,
            decreases codes - k,
        {
            proof {
                ima_run4_valid(seed, stream, k as int);
                ima_step_bounds(step_index as int);
                group_place(k as int / 8, groups as int, c, 4);
                place(k + 1, ch as int, c, n);
            }
            let byte: u8 = block[group + (k / 8) * group + 4 * ch + (k % 8) / 2];
            let code: u8 = if k % 2 == 0 {
                byte % 16
            } else {
                byte / 16
            };
            assert(code == stream[k as int]);
            let sample: i16 = ima_expand_nibble(&mut predictor, &mut step_index, code);
            proof {
                wav_sample4_at(block@, c, k + 1, ch as int);
                fill_step(out@, want, c, n, ch as int, k + 1, sample);
                assert((k + 1) * c <= n * c) by (nonlinear_arith)
                    requires
                        k + 1 < n,
                        c > 0,
                ;
            }
            out[(k + 1) * channels + ch] = sample;
            k = k + 1;
        }
        proof {
            fill_turn(out@, want, c, n, ch as int);
        }
        ch = ch + 1;
    }
    proof {
        fill_end(out@, want, c, n);
    }
    Ok(out)
}

/// Decodes one block of three-bit codes to interleaved samples.
pub fn decode_block_3bit(block: &[u8], channels: usize) -> (r: Result<Vec<i16>, Error>)
    requires
        6 * block@.len() <= isize::MAX,
    ensures
        match r {
            Ok(pcm) => {
                &&& wav_error(block@, channels as int, 12, Component::ImaWav3Bit) is None
                &&& pcm@ == wav_samples3(block@, channels as int)
            },
            Err(e) => wav_error(block@, channels as int, 12, Component::ImaWav3Bit) == Some(e),
        },
{
    if let Some(e) = check_block(block, channels, GROUP_BYTES_3BIT, Component::ImaWav3Bit) {
        return Err(e);
    }
    let ghost c = channels as int;
    let ghost len = block@.len() as int;
    let ghost want = wav_samples3(block@, c);
    proof {
        first_bad_range(block@, c, 0);
    }
    let header: usize = 4 * channels;
    let group: usize = GROUP_BYTES_3BIT * channels;
    let groups: usize = (block.len() - header) / group;
    proof {
        wav_size(len, c, 12, 32);
    }
    let codes: usize = GROUP_SAMPLES_3BIT * groups;
    let ghost n = 1 + codes as int;
    let mut out: Vec<i16> = vec![0i16; (1 + codes) * channels];
    proof {
        fill_start(out@, want, c, n);
    }
    let mut ch: usize = 0;
    while ch < channels
        invariant
            ch <= channels <= 8,
            c == channels,
            c > 0,
            len == block@.len(),
            6 * len <= isize::MAX,
            header == 4 * c,
            group == 12 * c,
            groups == wav_groups(len, c, 12),
            len - 4 * c == 12 * c * groups,
            codes == 32 * groups,
            n == 1 + codes,
            n * c <= usize::MAX,
            want == wav_samples3(block@, c),
            first_bad_index(block@, c, 0) == c,
            filled(out@, want, c, n, ch as int, 0),
            out@.len() == n * c,
        decreases channels - ch,
    {
        let mut predictor: i32 = read_i16(block[4 * ch], block[4 * ch + 1]) as i32;
        let mut step_index: i32 = block[4 * ch + 2] as i32;
        let ghost seed = wav_seed(block@, ch as int);
        let ghost stream = wav_codes3(block@, c, ch as int);
        proof {
            seeds_valid(block@, c, 0, ch as int);
            wav_sample3_at(block@, c, 0, ch as int);
            fill_step(out@, want, c, n, ch as int, 0, predictor as i16);
        }
        out[ch] = predictor as i16;
        let mut g: usize = 0;
        while g < groups
            invariant
                ch < channels <= 8,
                c == channels,
                len == block@.len(),
                6 * len <= isize::MAX,
                header == 4 * c,
                group == 12 * c,
                groups == wav_groups(len, c, 12),
                len - 4 * c == 12 * c * groups,
                codes == 32 * groups,
                n == 1 + codes,
                n * c <= usize::MAX,
                want == wav_samples3(block@, c),
                g <= groups,
                seed == wav_seed(block@, ch as int),
                seed.valid(),
                stream == wav_codes3(block@, c, ch as int),
                predictor == ima_run3(seed, stream, 32 * g as int).predictor,
                step_index == ima_run3(seed, stream, 32 * g as int).step_index,
                filled(out@, want, c, n, ch as int, 32 * g + 1),
                out@.len() == n * c,
            decreases groups - g,
        {
            proof {
                group_place(g as int, groups as int, c, 12);
            }
            let start: usize = header + g * group + GROUP_BYTES_3BIT * ch;
            let mut rest: u128 = read_group(block, start);
            let ghost value = rest as int;
            let mut k: usize = 0;
            proof {
                reveal(pow);
                assert(value / pow(8, 0) == value);
            }
            while k < GROUP_SAMPLES_3BIT
                invariant
                    ch < channels <= 8,
                    c == channels,
                    groups == wav_groups(len, c, 12),
                    len == block@.len(),
                    codes == 32 * groups,
                    n == 1 + codes,
                    n * c <= usize::MAX,
                    want == wav_samples3(block@, c),
                    g < groups,
                    k <= 32,
                    start == 4 * c + g * (12 * c) + 12 * ch,
                    value == group_value(block@, start as int, 12),
                    0 <= value,
                    rest == value / pow(8, k as nat),
                    seed == wav_seed(block@, ch as int),
                    seed.valid(),
                    stream == wav_codes3(block@, c, ch as int),
                    predictor == ima_run3(seed, stream, 32 * g + k).predictor,
                    step_index == ima_run3(seed, stream, 32 * g + k).step_index,
                    filled(out@, want, c, n, ch as int, 32 * g + k + 1),
                    out@.len() == n * c,
                decreases 32 - k,
            {
                let code: u8 = (rest % 8) as u8;
                let ghost at = 32 * g + k;
                proof {
                    assert(at / 32 == g && at % 32 == k);
                    assert(code == stream[at]);
                    ima_run3_valid(seed, stream, at);
                    ima_step_bounds(step_index as int);
                    next_digit(value, k as int);
                }
                rest = rest / 8;
                let sample: i16 = ima_expand_code3(&mut predictor, &mut step_index, code);
                proof {
                    wav_sample3_at(block@, c, at + 1, ch as int);
                    place(at + 1, ch as int, c, n);
                    fill_step(out@, want, c, n, ch as int, at + 1, sample);
                    assert((at + 1) * c <= n * c) by (nonlinear_arith)
                        requires
                            at + 1 < n,
                            c > 0,
                    ;
                }
                out[(GROUP_SAMPLES_3BIT * g + k + 1) * channels + ch] = sample;
                k = k + 1;
            }
            g = g + 1;
        }
        proof {
            fill_turn(out@, want, c, n, ch as int);
        }
        ch = ch + 1;
    }
    proof {
        fill_end(out@, want, c, n);
    }
    Ok(out)
}

/// The sign bit turns a code's move around and leaves its step alone.
pub proof fn ima_sign_mirrors(step: int, code: int)
    requires
        0 <= step,
    ensures
        0 <= code < 8 ==> ima_move4(step, code + 8) == -ima_move4(step, code)
            && IMA_INDEX_ADJUST[code + 8] == IMA_INDEX_ADJUST[code],
        0 <= code < 4 ==> ima_move3(step, code + 4) == -ima_move3(step, code)
            && IMA3_INDEX_ADJUST[code + 4] == IMA3_INDEX_ADJUST[code],
{
}

} // verus!
