//! IMA ADPCM in QuickTime blocks (`ima4`).
//!
//! Every channel has blocks of its own, 34 bytes each, and the channels' blocks
//! take turns. A block opens with a big-endian word whose upper nine bits are
//! the upper bits of the starting sample and whose lower seven bits are the
//! step index. Then come 64 codes, the low nibble of a byte first. The
//! starting sample itself is not put out.

use vstd::prelude::*;

use crate::arith::{high_nibble, low_nibble, signed16};
use crate::error::{Component, Error};
use crate::ima_wav::{
    ima_expand_nibble, ima_next4, ima_run4, ima_run4_valid, ima_step_bounds, ImaCodecState,
    ImaModel,
};
use crate::interleave::{fill_end, fill_start, fill_step, fill_turn, filled, place};

verus! {

/// Bytes of one block of one channel.
pub const QT_BLOCK_SIZE: usize = 34;

/// Samples of one block of one channel.
pub const QT_SAMPLES_PER_BLOCK: usize = 64;

/// The most channels a stream can have.
pub const QT_MAX_CHANNELS: usize = 8;

/// The opening word of channel `ch`.
pub open spec fn qt_preamble(data: Seq<u8>, ch: int) -> int {
    256 * data[34 * ch] + data[34 * ch + 1]
}

/// The state that the opening word gives to channel `ch`: its signed value
/// rounded down to a multiple of 128, and its lower seven bits, at most 88.
pub open spec fn qt_seed(data: Seq<u8>, ch: int) -> ImaModel {
    let word = qt_preamble(data, ch);
    ImaModel {
        predictor: signed16(word) - word % 128,
        step_index: if word % 128 > 88 {
            88
        } else {
            word % 128
        },
    }
}

/// The codes of channel `ch`.
pub open spec fn qt_codes(data: Seq<u8>, ch: int) -> Seq<int> {
    Seq::new(
        64,
        |k: int|
            if k % 2 == 0 {
                low_nibble(data[34 * ch + 2 + k / 2])
            } else {
                high_nibble(data[34 * ch + 2 + k / 2])
            },
    )
}

/// Why one block per channel cannot be decoded.
pub open spec fn qt_error(len: int, channels: int) -> Option<Error> {
    if channels < 1 || channels > 8 {
        Some(Error::ChannelCount { component: Component::ImaQt, channels: channels as usize })
    } else if len < 34 * channels {
        Some(
            Error::ShortInput {
                need: (34 * channels) as usize,
                channels: channels as usize,
                len: len as usize,
            },
        )
    } else {
        None
    }
}

/// The interleaved samples of one block per channel: the running sample behind
/// each code.
pub open spec fn qt_samples(data: Seq<u8>, channels: int) -> Seq<i16> {
    Seq::new(
        (64 * channels) as nat,
        |j: int|
            ima_run4(
                qt_seed(data, j % channels),
                qt_codes(data, j % channels),
                j / channels + 1,
            ).predictor as i16,
    )
}

/// Where the samples of a channel lie.
proof fn qt_sample_at(data: Seq<u8>, channels: int, i: int, ch: int)
    requires
        0 <= i < 64,
        0 <= ch < channels,
    ensures
        qt_samples(data, channels)[i * channels + ch] == ima_run4(
            qt_seed(data, ch),
            qt_codes(data, ch),
            i + 1,
        ).predictor as i16,
{
    place(i, ch, channels, 64);
}

/// Expands one code of a channel.
fn expand_next(state: &mut ImaCodecState, code: u8) -> (r: i16)
    requires
        old(state)@.valid(),
        code < 16,
    ensures
        final(state)@ == ima_next4(old(state)@, code as int),
        r == final(state)@.predictor,
{
    let mut predictor: i32 = state.predictor;
    let mut step_index: i32 = state.step_index;
    proof {
        ima_step_bounds(step_index as int);
    }
    let r: i16 = ima_expand_nibble(&mut predictor, &mut step_index, code);
    state.predictor = predictor;
    state.step_index = step_index;
    r
}

/// Decodes one block per channel to interleaved samples.
pub fn decode_block(data: &[u8], channels: usize) -> (r: Result<Vec<i16>, Error>)
    ensures
        match r {
            Ok(pcm) => {
                &&& qt_error(data@.len() as int, channels as int) is None
                &&& pcm@ == qt_samples(data@, channels as int)
            },
            Err(e) => qt_error(data@.len() as int, channels as int) == Some(e),
        },
{
    if channels == 0 || channels > QT_MAX_CHANNELS {
        return Err(Error::ChannelCount { component: Component::ImaQt, channels });
    }
    let need: usize = QT_BLOCK_SIZE * channels;
    let len: usize = data.len();
    if len < need {
        return Err(Error::ShortInput { need, channels, len });
    }
    let ghost c = channels as int;
    let ghost want = qt_samples(data@, c);
    let mut out: Vec<i16> = vec![0i16; QT_SAMPLES_PER_BLOCK * channels];
    proof {
        fill_start(out@, want, c, 64);
    }
    let mut ch: usize = 0;
    while ch < channels
        invariant
            ch <= channels <= 8,
            c == channels,
            c > 0,
            34 * c <= data@.len(),
            want == qt_samples(data@, c),
            filled(out@, want, c, 64, ch as int, 0),
            out@.len() == 64 * c,
        decreases channels - ch,
    {
        let base: usize = QT_BLOCK_SIZE * ch;
        let word: i32 = 256 * data[base] as i32 + data[base + 1] as i32;
        let top: i32 = word - word % 128;
        let mut state: ImaCodecState = ImaCodecState {
            predictor: if word < 32768 {
                top
            } else {
                top - 65536
            },
            step_index: if word % 128 > 88 {
                88
            } else {
                word % 128
            },
        };
        let ghost seed = qt_seed(data@, ch as int);
        let ghost stream = qt_codes(data@, ch as int);
        assert(state@ == seed);
        let mut k: usize = 0;
        while k < QT_SAMPLES_PER_BLOCK
            invariant
                ch < channels <= 8,
                c == channels,
                base == 34 * ch,
                34 * c <= data@.len(),
                want == qt_samples(data@, c),
                k <= 64,
                seed == qt_seed(data@, ch as int),
                seed.valid(),
                stream == qt_codes(data@, ch as int),
                state@ == ima_run4(seed, stream, k as int),
                filled(out@, want, c, 64, ch as int, k as int),
                out@.len() == 64 * c,
            decreases 64 - k,
        {
            proof {
                ima_run4_valid(seed, stream, k as int);
                place(k as int, ch as int, c, 64);
            }
            let byte: u8 = data[base + 2 + k / 2];
            let code: u8 = if k % 2 == 0 {
                byte % 16
            } else {
                byte / 16
            };
            assert(code == stream[k as int]);
            let sample: i16 = expand_next(&mut state, code);
            proof {
                assert(state@ == ima_run4(seed, stream, k + 1));
                assert(k * c <= 64 * c) by (nonlinear_arith)
                    requires
                        k <= 64,
                        c > 0,
                ;
                qt_sample_at(data@, c, k as int, ch as int);
                fill_step(out@, want, c, 64, ch as int, k as int, sample);
            }
            out[k * channels + ch] = sample;
            k = k + 1;
        }
        proof {
            fill_turn(out@, want, c, 64, ch as int);
        }
        ch = ch + 1;
    }
    proof {
        fill_end(out@, want, c, 64);
    }
    Ok(out)
}

} // verus!
