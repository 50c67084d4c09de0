//! Microsoft ADPCM.
//!
//! A sample is predicted from the two before it with a pair of weights, and
//! each four-bit code adds a signed number of steps to the prediction.
//!
//! A block opens, for all channels in turn each, with the number of a pair of
//! weights (one byte), the step, the second sample and the first sample (two
//! bytes each, low byte first). Then come the codes, the high nibble of a byte
//! first, the channels taking turns.

use vstd::prelude::*;

use crate::arith::{
    clamp, clamp16, clamp_i16, div_floor, high_byte, high_nibble, low_byte, low_nibble, read_i16,
    word_bytes, word_bytes_round_trip, word_le,
};
use crate::error::{Component, Error};
use crate::interleave::{fill_end, fill_start, fill_step, fill_turn, filled, place};
use crate::tables::{MS_ADAPTATION, MS_ADAPT_COEFF1, MS_ADAPT_COEFF2};

verus! {

/// The weights of the last sample and of the one before it, over 256.
pub type CoefPair = (i32, i32);

/// The seven pairs of weights that every stream starts from.
pub const STANDARD_COEFFS: [CoefPair; 7] = [
    (256, 0),
    (512, -256),
    (0, 0),
    (192, 64),
    (240, 0),
    (460, -208),
    (392, -232),
];

/// The state of one channel, over the integers: the weights, the step, the
/// last sample and the one before it.
pub struct MsModel {
    pub coef1: int,
    pub coef2: int,
    pub delta: int,
    pub sample1: int,
    pub sample2: int,
}

impl MsModel {
    /// Samples fit 16 bits; the weights and the step fit 32.
    pub open spec fn valid(self) -> bool {
        &&& -32768 <= self.sample1 <= 32767
        &&& -32768 <= self.sample2 <= 32767
        &&& i32::MIN <= self.coef1 <= i32::MAX
        &&& i32::MIN <= self.coef2 <= i32::MAX
        &&& i32::MIN <= self.delta <= i32::MAX
    }
}

/// The signed value of a four-bit code.
pub open spec fn ms_signed(code: int) -> int {
    if code < 8 {
        code
    } else {
        code - 16
    }
}

/// The sample that a code stands for.
pub open spec fn ms_sample(s: MsModel, code: int) -> int {
    clamp16((s.sample1 * s.coef1 + s.sample2 * s.coef2) / 256 + ms_signed(code) * s.delta)
}

/// The step behind a code: scaled, and at least 16.
pub open spec fn ms_delta(delta: int, code: int) -> int {
    clamp((MS_ADAPTATION[code] * delta) / 256, 16, i32::MAX as int)
}

/// The state behind a code.
pub open spec fn ms_next(s: MsModel, code: int) -> MsModel {
    MsModel {
        sample1: ms_sample(s, code),
        sample2: s.sample1,
        delta: ms_delta(s.delta, code),
        ..s
    }
}

/// The state after the first `k` codes.
pub open spec fn ms_run(s: MsModel, codes: Seq<int>, k: int) -> MsModel
    decreases k,
{
    if k <= 0 {
        s
    } else {
        ms_next(ms_run(s, codes, k - 1), codes[k - 1])
    }
}

/// A channel stays valid whatever codes it takes, and its step stays at least
/// 16 from the first code on.
pub proof fn ms_run_valid(s: MsModel, codes: Seq<int>, k: int)
    requires
        s.valid(),
    ensures
        ms_run(s, codes, k).valid(),
        k > 0 ==> ms_run(s, codes, k).delta >= 16,
    decreases k,
{
    if k > 0 {
        ms_run_valid(s, codes, k - 1);
    }
}

/// The state of one channel.
#[derive(Clone, Copy, Debug)]
pub struct ChannelState {
    /// The weight of the last sample.
    pub coef1: i32,
    /// The weight of the sample before the last.
    pub coef2: i32,
    /// The step.
    pub delta: i32,
    /// The last sample.
    pub sample1: i32,
    /// The sample before the last.
    pub sample2: i32,
}

impl View for ChannelState {
    type V = MsModel;

    open spec fn view(&self) -> MsModel {
        MsModel {
            coef1: self.coef1 as int,
            coef2: self.coef2 as int,
            delta: self.delta as int,
            sample1: self.sample1 as int,
            sample2: self.sample2 as int,
        }
    }
}

/// A sample times a weight stays well within 64 bits.
proof fn product_bound(sample: int, coef: int)
    requires
        -32768 <= sample <= 32767,
        i32::MIN <= coef <= i32::MAX,
    ensures
        -0x4000_0000_0000 <= sample * coef <= 0x4000_0000_0000,
{
    assert(-0x4000_0000_0000 <= sample * coef <= 0x4000_0000_0000) by (nonlinear_arith)
        requires
            -32768 <= sample <= 32767,
            -0x8000_0000 <= coef <= 0x7fff_ffff,
    ;
}

/// The sample that a code stands for.
pub fn sample_of(st: &ChannelState, nibble: u8) -> (r: i16)
    requires
        st@.valid(),
        nibble < 16,
    ensures
        r == ms_sample(st@, nibble as int),
{
    proof {
        product_bound(st.sample1 as int, st.coef1 as int);
        product_bound(st.sample2 as int, st.coef2 as int);
    }
    let signed: i64 = if nibble < 8 {
        nibble as i64
    } else {
        nibble as i64 - 16
    };
    let weighted: i64 = st.sample1 as i64 * st.coef1 as i64 + st.sample2 as i64 * st.coef2 as i64;
    let predicted: i64 = div_floor(weighted, 256);
    assert(-0x8_0000_0000 <= signed * st.delta <= 0x8_0000_0000) by (nonlinear_arith)
        requires
            -8 <= signed <= 7,
            -0x8000_0000 <= st.delta <= 0x7fff_ffff,
    ;
    clamp_i16(predicted + signed * st.delta as i64)
}

/// Moves a channel behind a code that stood for `sample`.
pub fn advance(st: &mut ChannelState, nibble: u8, sample: i16)
    requires
        old(st)@.valid(),
        nibble < 16,
        sample == ms_sample(old(st)@, nibble as int),
    ensures
        final(st)@ == ms_next(old(st)@, nibble as int),
{
    let factor: i64 = MS_ADAPTATION[nibble as usize] as i64;
    assert(-0x300_0000_0000 <= factor * st.delta <= 0x300_0000_0000) by (nonlinear_arith)
        requires
            0 <= factor <= 768,
            -0x8000_0000 <= st.delta <= 0x7fff_ffff,
    ;
    let d: i64 = div_floor(factor * st.delta as i64, 256);
    st.sample2 = st.sample1;
    st.sample1 = sample as i32;
    st.delta = if d < 16 {
        16
    } else if d > 0x7fff_ffff {
        0x7fff_ffff
    } else {
        d as i32
    };
}

/// Expands one code: moves the channel and returns the new sample.
pub fn decode_nibble(st: &mut ChannelState, nibble: u8) -> (r: i16)
    requires
        old(st)@.valid(),
        nibble < 16,
    ensures
        final(st)@ == ms_next(old(st)@, nibble as int),
        r == final(st)@.sample1,
{
    let sample: i16 = sample_of(st, nibble);
    advance(st, nibble, sample);
    sample
}

/// The state that a block's header gives to channel `ch`.
pub open spec fn ms_seed(block: Seq<u8>, channels: int, coeffs: Seq<CoefPair>, ch: int) -> MsModel {
    let pair = coeffs[block[ch] as int];
    let delta = channels + 2 * ch;
    let second = 3 * channels + 2 * ch;
    let first = 5 * channels + 2 * ch;
    MsModel {
        coef1: pair.0 as int,
        coef2: pair.1 as int,
        delta: word_le(block[delta], block[delta + 1]),
        sample1: word_le(block[second], block[second + 1]),
        sample2: word_le(block[first], block[first + 1]),
    }
}

/// Code `m` of a block's body, over all channels.
pub open spec fn ms_code(block: Seq<u8>, channels: int, m: int) -> int {
    let b = block[7 * channels + m / 2];
    if m % 2 == 0 {
        high_nibble(b)
    } else {
        low_nibble(b)
    }
}

/// The number of codes per channel in a block of `len` bytes.
pub open spec fn ms_code_count(len: int, channels: int) -> int {
    (2 * (len - 7 * channels)) / channels
}

/// The codes of channel `ch`.
pub open spec fn ms_codes(block: Seq<u8>, channels: int, ch: int) -> Seq<int> {
    Seq::new(
        ms_code_count(block.len() as int, channels) as nat,
        |k: int| ms_code(block, channels, k * channels + ch),
    )
}

/// The first channel from `ch` on whose pair of weights is not in a table of
/// `sets` pairs, or `channels` where there is none.
pub open spec fn first_bad_predictor(block: Seq<u8>, channels: int, sets: int, ch: int) -> int
    decreases channels - ch,
{
    if ch >= channels {
        channels
    } else if block[ch] >= sets {
        ch
    } else {
        first_bad_predictor(block, channels, sets, ch + 1)
    }
}

/// Why a block cannot be decoded with a table of `sets` pairs of weights.
pub open spec fn ms_error(block: Seq<u8>, channels: int, sets: int) -> Option<Error> {
    let bad = first_bad_predictor(block, channels, sets, 0);
    if channels < 1 || channels > 2 {
        Some(Error::ChannelCount { component: Component::Ms, channels: channels as usize })
    } else if sets < 7 {
        Some(Error::CoeffTableTooSmall { sets: sets as usize })
    } else if block.len() < 7 * channels {
        Some(
            Error::BlockTooShort {
                component: Component::Ms,
                len: block.len() as usize,
                header: (7 * channels) as usize,
            },
        )
    } else if bad < channels {
        Some(Error::PredictorIndex { index: block[bad], sets: sets as usize })
    } else {
        None
    }
}

/// Sample `i` of channel `ch`: the header's two samples, oldest first, then the
/// sample behind each code.
pub open spec fn ms_channel_sample(
    block: Seq<u8>,
    channels: int,
    coeffs: Seq<CoefPair>,
    ch: int,
    i: int,
) -> int {
    let seed = ms_seed(block, channels, coeffs, ch);
    if i == 0 {
        seed.sample2
    } else {
        ms_run(seed, ms_codes(block, channels, ch), i - 1).sample1
    }
}

/// The interleaved samples of a block.
pub open spec fn ms_samples(block: Seq<u8>, channels: int, coeffs: Seq<CoefPair>) -> Seq<i16> {
    Seq::new(
        ((2 + ms_code_count(block.len() as int, channels)) * channels) as nat,
        |j: int|
            ms_channel_sample(block, channels, coeffs, j % channels, j / channels) as i16,
    )
}

/// Where the samples of a channel lie.
proof fn ms_sample_at(block: Seq<u8>, channels: int, coeffs: Seq<CoefPair>, ch: int, i: int)
    requires
        0 <= i < 2 + ms_code_count(block.len() as int, channels),
        0 <= ch < channels,
    ensures
        ms_samples(block, channels, coeffs)[i * channels + ch] == ms_channel_sample(
            block,
            channels,
            coeffs,
            ch,
            i,
        ) as i16,
{
    place(i, ch, channels, 2 + ms_code_count(block.len() as int, channels));
}

/// With one or two channels, no code is left over.
pub proof fn code_count_exact(len: int, channels: int)
    requires
        channels == 1 || channels == 2,
        7 * channels <= len,
    ensures
        ms_code_count(len, channels) * channels == 2 * (len - 7 * channels),
{
    if channels == 1 {
        assert(ms_code_count(len, 1) * 1 == ms_code_count(len, 1));
    } else {
        assert(ms_code_count(len, 2) * 2 == 2 * ms_code_count(len, 2));
    }
}

/// Decodes one block with the seven standard pairs of weights.
pub fn decode_block(block: &[u8], channels: usize) -> (r: Result<Vec<i16>, Error>)
    requires
        4 * block@.len() <= isize::MAX,
    ensures
        match r {
            Ok(pcm) => {
                &&& ms_error(block@, channels as int, 7) is None
                &&& pcm@ == ms_samples(block@, channels as int, STANDARD_COEFFS@)
            },
            Err(e) => ms_error(block@, channels as int, 7) == Some(e),
        },
{
    decode_block_with_coeffs(block, channels, &STANDARD_COEFFS)
}

/// Decodes one block with a table of pairs of weights.
pub fn decode_block_with_coeffs(block: &[u8], channels: usize, coeffs: &[CoefPair]) -> (r: Result<
    Vec<i16>,
    Error,
>)
    requires
        4 * block@.len() <= isize::MAX,
    ensures
        match r {
            Ok(pcm) => {
                &&& ms_error(block@, channels as int, coeffs@.len() as int) is None
                &&& pcm@ == ms_samples(block@, channels as int, coeffs@)
            },
            Err(e) => ms_error(block@, channels as int, coeffs@.len() as int) == Some(e),
        },
{
    if channels == 0 || channels > 2 {
        return Err(Error::ChannelCount { component: Component::Ms, channels });
    }
    let sets: usize = coeffs.len();
    if sets < 7 {
        return Err(Error::CoeffTableTooSmall { sets });
    }
    let header: usize = 7 * channels;
    let len: usize = block.len();
    if len < header {
        return Err(Error::BlockTooShort { component: Component::Ms, len, header });
    }
    let mut p: usize = 0;
    while p < channels
        invariant
            p <= channels <= 2,
            channels > 0,
            7 <= sets == coeffs@.len(),
            7 * channels <= block@.len(),
            first_bad_predictor(block@, channels as int, sets as int, 0) == first_bad_predictor(
                block@,
                channels as int,
                sets as int,
                p as int,
            ),
            forall|q: int| 0 <= q < p ==> block@[q] < sets,
        decreases channels - p,
    {
        let index: u8 = block[p];
        if index as usize >= sets {
            return Err(Error::PredictorIndex { index, sets });
        }
        p = p + 1;
    }
    let ghost c = channels as int;
    let codes: usize = (2 * (len - header)) / channels;
    let ghost n = 2 + codes as int;
    let ghost want = ms_samples(block@, c, coeffs@);
    proof {
        code_count_exact(len as int, c);
        assert(n * c == 2 * c + codes * c) by (nonlinear_arith)
            requires
                n == 2 + codes,
        ;
    }
    let mut out: Vec<i16> = vec![0i16; (2 + codes) * channels];
    proof {
        fill_start(out@, want, c, n);
    }
    let mut ch: usize = 0;
    while ch < channels
        invariant
            ch <= channels <= 2,
            c == channels,
            c > 0,
            len == block@.len(),
            4 * len <= isize::MAX,
            header == 7 * c,
            header <= len,
            sets == coeffs@.len(),
            codes == ms_code_count(len as int, c),
            codes * c == 2 * (len - header),
            n == 2 + codes,
            n * c <= usize::MAX,
            want == ms_samples(block@, c, coeffs@),
            forall|q: int| 0 <= q < c ==> block@[q] < sets,
            filled(out@, want, c, n, ch as int, 0),
            out@.len() == n * c,
        decreases channels - ch,
    {
        let d: usize = channels + 2 * ch;
        let second: usize = 3 * channels + 2 * ch;
        let first: usize = 5 * channels + 2 * ch;
        let pair: CoefPair = coeffs[block[ch] as usize];
        let mut st: ChannelState = ChannelState {
            coef1: pair.0,
            coef2: pair.1,
            delta: read_i16(block[d], block[d + 1]) as i32,
            sample1: read_i16(block[second], block[second + 1]) as i32,
            sample2: read_i16(block[first], block[first + 1]) as i32,
        };
        let ghost seed = ms_seed(block@, c, coeffs@, ch as int);
        let ghost stream = ms_codes(block@, c, ch as int);
        assert(st@ == seed);
        proof {
            ms_sample_at(block@, c, coeffs@, ch as int, 0);
            fill_step(out@, want, c, n, ch as int, 0, st.sample2 as i16);
        }
        out[ch] = st.sample2 as i16;
        proof {
            ms_sample_at(block@, c, coeffs@, ch as int, 1);
            fill_step(out@, want, c, n, ch as int, 1, st.sample1 as i16);
        }
        out[channels + ch] = st.sample1 as i16;
        let mut k: usize = 0;
        while k < codes
            invariant
                ch < channels <= 2,
                c == channels,
                len == block@.len(),
                4 * len <= isize::MAX,
                header == 7 * c,
                header <= len,
                codes == ms_code_count(len as int, c),
                codes * c == 2 * (len - header),
                n == 2 + codes,
                n * c <= usize::MAX,
                want == ms_samples(block@, c, coeffs@),
                k <= codes,
                seed == ms_seed(block@, c, coeffs@, ch as int),
                seed.valid(),
                stream == ms_codes(block@, c, ch as int),
                st@ == ms_run(seed, stream, k as int),
                filled(out@, want, c, n, ch as int, k + 2),
                out@.len() == n * c,
            decreases codes - k,
        {
            proof {
                ms_run_valid(seed, stream, k as int);
                place(k as int, ch as int, c, codes as int);
                place(k + 2, ch as int, c, n);
            }
            let m: usize = k * channels + ch;
            let byte: u8 = block[header + m / 2];
            let code: u8 = if m % 2 == 0 {
                byte / 16
            } else {
                byte % 16
            };
            assert(code == stream[k as int]);
            let sample: i16 = decode_nibble(&mut st, code);
            proof {
                ms_sample_at(block@, c, coeffs@, ch as int, k + 2);
                fill_step(out@, want, c, n, ch as int, k + 2, sample);
            }
            out[m + 2 * channels] = sample;
            k = k + 1;
        }
        proof {
            fill_turn(out@, want, c, n, ch as int);
        }
        ch = ch + 1;
    }
    proof {
        fill_end(out@, want, c, n);
    }
    Ok(out)
}

/// The number of pairs that a format trailer declares.
pub open spec fn trailer_sets(ext: Seq<u8>) -> int {
    ext[2] + 256 * ext[3]
}

/// The pairs that a format trailer declares.
pub open spec fn trailer_pairs(ext: Seq<u8>) -> Seq<CoefPair> {
    Seq::new(
        trailer_sets(ext) as nat,
        |i: int|
            (
                word_le(ext[4 + 4 * i], ext[5 + 4 * i]) as i32,
                word_le(ext[6 + 4 * i], ext[7 + 4 * i]) as i32,
            ),
    )
}

/// The first of the seven presets, from `i` on, that a table changes; 7 where
/// it changes none.
pub open spec fn first_changed_preset(coeffs: Seq<CoefPair>, i: int) -> int
    decreases 7 - i,
{
    if i >= 7 {
        7
    } else if coeffs[i] != STANDARD_COEFFS[i] {
        i
    } else {
        first_changed_preset(coeffs, i + 1)
    }
}

/// Why a format trailer of at least four bytes is refused.
pub open spec fn trailer_error(ext: Seq<u8>) -> Option<Error> {
    let sets = trailer_sets(ext);
    let pairs = trailer_pairs(ext);
    let changed = first_changed_preset(pairs, 0);
    if sets < 7 {
        Some(Error::TrailerTooFewSets { sets: sets as usize })
    } else if ext.len() < 4 + 4 * sets {
        Some(
            Error::TrailerTooShort {
                sets: sets as usize,
                need: (4 + 4 * sets) as usize,
                len: ext.len() as usize,
            },
        )
    } else if changed < 7 {
        Some(
            Error::TrailerPreset {
                set: changed as usize,
                coef1: pairs[changed].0,
                coef2: pairs[changed].1,
            },
        )
    } else {
        None
    }
}

/// The first of the seven presets that a table changes, with its pair.
fn changed_preset(coeffs: &[CoefPair]) -> (r: Option<(usize, CoefPair)>)
    requires
        coeffs@.len() >= 7,
    ensures
        match r {
            Some((i, pair)) => {
                &&& i < 7
                &&& i == first_changed_preset(coeffs@, 0)
                &&& pair == coeffs@[i as int]
            },
            None => first_changed_preset(coeffs@, 0) == 7,
        },
{
    let mut i: usize = 0;
    while i < 7
        invariant
            i <= 7 <= coeffs@.len(),
            first_changed_preset(coeffs@, 0) == first_changed_preset(coeffs@, i as int),
        decreases 7 - i,
    {
        let pair: CoefPair = coeffs[i];
        let preset: CoefPair = STANDARD_COEFFS[i];
        if pair.0 != preset.0 || pair.1 != preset.1 {
            return Some((i, pair));
        }
        assert(coeffs@[i as int] == STANDARD_COEFFS[i as int]);
        i = i + 1;
    }
    None
}

/// Reads the table of weights from a format trailer: the samples per block, the
/// number of pairs, and the pairs, each a 16-bit word with the low byte first.
/// A trailer without room for the first two words declares no table.
pub fn parse_extradata_coeffs(extradata: &[u8]) -> (r: Result<Option<Vec<CoefPair>>, Error>)
    ensures
        match r {
            Ok(None) => extradata@.len() < 4,
            Ok(Some(coeffs)) => {
                &&& extradata@.len() >= 4
                &&& trailer_error(extradata@) is None
                &&& coeffs@ == trailer_pairs(extradata@)
            },
            Err(e) => extradata@.len() >= 4 && trailer_error(extradata@) == Some(e),
        },
{
    let len: usize = extradata.len();
    if len < 4 {
        return Ok(None);
    }
    let sets: usize = extradata[2] as usize + 256 * extradata[3] as usize;
    if sets < 7 {
        return Err(Error::TrailerTooFewSets { sets });
    }
    let need: usize = 4 + 4 * sets;
    if len < need {
        return Err(Error::TrailerTooShort { sets, need, len });
    }
    let mut coeffs: Vec<CoefPair> = Vec::new();
    let mut i: usize = 0;
    while i < sets
        invariant
            i <= sets,
            sets == trailer_sets(extradata@),
            sets < 65536,
            4 + 4 * sets <= extradata@.len(),
            coeffs@.len() == i,
            forall|q: int| 0 <= q < i ==> coeffs@[q] == trailer_pairs(extradata@)[q],
        decreases sets - i,
    {
        let at: usize = 4 + 4 * i;
        let coef1: i32 = read_i16(extradata[at], extradata[at + 1]) as i32;
        let coef2: i32 = read_i16(extradata[at + 2], extradata[at + 3]) as i32;
        coeffs.push((coef1, coef2));
        i = i + 1;
    }
    assert(coeffs@ =~= trailer_pairs(extradata@));
    if let Some((set, pair)) = changed_preset(coeffs.as_slice()) {
        return Err(Error::TrailerPreset { set, coef1: pair.0, coef2: pair.1 });
    }
    Ok(Some(coeffs))
}

/// Why no trailer is built for a table.
pub open spec fn build_error(coeffs: Seq<CoefPair>) -> Option<Error> {
    let changed = first_changed_preset(coeffs, 0);
    if coeffs.len() < 7 {
        Some(Error::BuildTooFewSets { sets: coeffs.len() as usize })
    } else if changed < 7 {
        Some(
            Error::BuildPreset {
                set: changed as usize,
                coef1: coeffs[changed].0,
                coef2: coeffs[changed].1,
            },
        )
    } else {
        None
    }
}

/// The bytes of a format trailer: the samples per block, the number of pairs,
/// and the pairs, all as 16-bit words with the low byte first.
pub open spec fn trailer_bytes(samples_per_block: u16, coeffs: Seq<CoefPair>) -> Seq<u8> {
    Seq::new(
        (4 + 4 * coeffs.len()) as nat,
        |j: int|
            {
                let word = if j < 2 {
                    samples_per_block as int
                } else if j < 4 {
                    coeffs.len() as int
                } else if j % 4 < 2 {
                    coeffs[j / 4 - 1].0 as int
                } else {
                    coeffs[j / 4 - 1].1 as int
                };
                if j % 2 == 0 {
                    low_byte(word)
                } else {
                    high_byte(word)
                }
            },
    )
}

/// Builds the format trailer of a table of weights. Weights and their number
/// are stored as 16-bit words; what does not fit is cut off.
pub fn build_extradata(samples_per_block: u16, coeffs: &[CoefPair]) -> (r: Result<Vec<u8>, Error>)
    ensures
        match r {
            Ok(ext) => {
                &&& build_error(coeffs@) is None
                &&& ext@ == trailer_bytes(samples_per_block, coeffs@)
            },
            Err(e) => build_error(coeffs@) == Some(e),
        },
{
    let sets: usize = coeffs.len();
    if sets < 7 {
        return Err(Error::BuildTooFewSets { sets });
    }
    if let Some((set, pair)) = changed_preset(coeffs) {
        return Err(Error::BuildPreset { set, coef1: pair.0, coef2: pair.1 });
    }
    let ghost want = trailer_bytes(samples_per_block, coeffs@);
    let mut ext: Vec<u8> = Vec::new();
    let head: (u8, u8) = word_bytes(samples_per_block as i32);
    ext.push(head.0);
    ext.push(head.1);
    ext.push((sets % 256) as u8);
    ext.push(((sets / 256) % 256) as u8);
    let mut i: usize = 0;
    assert(ext@ =~= want.take(4));
    while i < sets
        invariant
            i <= sets == coeffs@.len(),
            want == trailer_bytes(samples_per_block, coeffs@),
            ext@ == want.take(4 + 4 * i),
        decreases sets - i,
    {
        let pair: CoefPair = coeffs[i];
        let first: (u8, u8) = word_bytes(pair.0);
        let second: (u8, u8) = word_bytes(pair.1);
        ext.push(first.0);
        ext.push(first.1);
        ext.push(second.0);
        ext.push(second.1);
        proof {
            let at = 4 + 4 * i;
            assert(at / 4 == i + 1 && at % 4 == 0);
            assert((at + 1) / 4 == i + 1 && (at + 1) % 4 == 1);
            assert((at + 2) / 4 == i + 1 && (at + 2) % 4 == 2);
            assert((at + 3) / 4 == i + 1 && (at + 3) % 4 == 3);
            assert(ext@ =~= want.take(4 + 4 * (i + 1)));
        }
        i = i + 1;
    }
    assert(want.take(4 + 4 * sets) =~= want);
    Ok(ext)
}

/// Reading a built trailer gives the table back, where the weights and their
/// number fit 16-bit words.
pub proof fn trailer_round_trip(samples_per_block: u16, coeffs: Seq<CoefPair>)
    requires
        build_error(coeffs) is None,
        coeffs.len() < 65536,
        forall|i: int|
            0 <= i < coeffs.len() ==> -32768 <= (#[trigger] coeffs[i]).0 <= 32767 && -32768
                <= coeffs[i].1 <= 32767,
    ensures
        trailer_bytes(samples_per_block, coeffs).len() >= 4,
        trailer_error(trailer_bytes(samples_per_block, coeffs)) is None,
        trailer_pairs(trailer_bytes(samples_per_block, coeffs)) == coeffs,
{
    let ext = trailer_bytes(samples_per_block, coeffs);
    assert(trailer_sets(ext) == coeffs.len());
    assert forall|i: int| 0 <= i < coeffs.len() implies trailer_pairs(ext)[i] == coeffs[i] by {
        let at = 4 + 4 * i;
        assert(at / 4 == i + 1 && at % 4 == 0);
        assert((at + 1) / 4 == i + 1 && (at + 1) % 4 == 1);
        assert((at + 2) / 4 == i + 1 && (at + 2) % 4 == 2);
        assert((at + 3) / 4 == i + 1 && (at + 3) % 4 == 3);
        word_bytes_round_trip(coeffs[i].0 as int);
        word_bytes_round_trip(coeffs[i].1 as int);
    }
    assert(trailer_pairs(ext) =~= coeffs);
}

/// The presets are the pairs of the two coefficient tables.
pub proof fn presets_are_the_tables(k: int)
    requires
        0 <= k < 7,
    ensures
        STANDARD_COEFFS[k].0 == MS_ADAPT_COEFF1[k],
        STANDARD_COEFFS[k].1 == MS_ADAPT_COEFF2[k],
{
}

} // verus!
