//! How many bytes, codes and samples go together, and what a stream begins with.

use vstd::prelude::*;

use crate::config::bytes_for;
use crate::decoder::frame_of;
use crate::dialogic;
use crate::encoders::wav_default_size_of;
use crate::expansion::settles;
use crate::frame_encoder::{format_extra3, padded, BlockFormat, FeedModel};
use crate::g726::{
    initial, linear_sample, ordered, quarters, reconstructed, wav_block_len, CodecModel, Rate,
};
use crate::g726_packets::without_aux;
use crate::stream_encoder::StreamModel;
use crate::variant::{block_samples, format_extra, Variant};
use crate::yamaha::{self, Chip};
use crate::yamaha_a;

verus! {

/// A block is its header and its codes, and nothing else: seven bytes per channel
/// that hold two samples, four that hold one, or two that hold none; and then four
/// bits, or three, for each sample that is left.
pub proof fn blocks_are_headers_and_codes(v: Variant, channels: int, len: int)
    requires
        block_samples(v, channels, len) is Some,
    ensures
        ({
            let n = block_samples(v, channels, len)->0;
            &&& 1 <= channels <= 8
            &&& v == Variant::Ms ==> channels <= 2 && 8 * (len - 7 * channels) == 4 * (channels * (n
                - 2))
            &&& v == Variant::ImaWav ==> 8 * (len - 4 * channels) == 4 * (channels * (n - 1))
            &&& v == Variant::ImaQt ==> 8 * (len - 2 * channels) == 4 * (channels * n) && n == 64
        }),
{
    let n = block_samples(v, channels, len)->0;
    match v {
        Variant::Ms => {
            let body = len - 7 * channels;
            vstd::arithmetic::div_mod::lemma_fundamental_div_mod(body, channels);
            let q = body / channels;
            assert(channels * (n - 2) == 2 * (channels * q)) by (nonlinear_arith)
                requires
                    n == 2 + 2 * q,
            ;
        },
        Variant::ImaWav => {
            let body = len - 4 * channels;
            vstd::arithmetic::div_mod::lemma_fundamental_div_mod(body, 4 * channels);
            let q = body / (4 * channels);
            assert(8 * body == 4 * (channels * (n - 1))) by (nonlinear_arith)
                requires
                    n == 1 + 8 * q,
                    body == (4 * channels) * q,
            ;
        },
        _ => {},
    }
}

/// So are the blocks that samples are counted into, with three bits as with four.
pub proof fn samples_are_headers_and_codes(v: Variant, channels: int, width: int, n: int)
    requires
        bytes_for(v, channels, width, n) is Some,
        1 <= channels <= 8,
    ensures
        ({
            let len = bytes_for(v, channels, width, n)->0;
            &&& v == Variant::Ms ==> 8 * (len - 7 * channels) == 4 * (channels * (n - 2))
            &&& v == Variant::ImaWav && width != 3 ==> {
                8 * (len - 4 * channels) == 4 * (channels * (n - 1))
            }
            &&& v == Variant::ImaWav && width == 3 ==> {
                8 * (len - 4 * channels) == 3 * (channels * (n - 1))
            }
        }),
{
    let len = bytes_for(v, channels, width, n)->0;
    if v == Variant::Ms {
        let half = (n - 2) / 2;
        assert((n - 2) * channels == 2 * (half * channels)) by (nonlinear_arith)
            requires
                n - 2 == 2 * half,
        ;
        vstd::arithmetic::mul::lemma_mul_is_commutative(n - 2, channels);
    } else if width == 3 {
        let q = (n - 1) / 32;
        assert(8 * (len - 4 * channels) == 3 * (channels * (n - 1))) by (nonlinear_arith)
            requires
                n - 1 == 32 * q,
                len == 4 * channels + 12 * channels * q,
        ;
    } else {
        let q = (n - 1) / 8;
        assert(8 * (len - 4 * channels) == 4 * (channels * (n - 1))) by (nonlinear_arith)
            requires
                n - 1 == 8 * q,
                len == 4 * channels + q * (4 * channels),
        ;
    }
}

/// An encoder puts as many samples into a block as have room: behind the header of
/// a Microsoft block so many half bytes, and behind that of a WAV block so many
/// groups of eight codes to four bytes, or of 32 to twelve.
pub proof fn encoders_fill_blocks(m: FeedModel)
    requires
        m.wf(),
    ensures
        ({
            let c = m.channels;
            let n = m.per_block();
            &&& m.format == BlockFormat::Ms && m.block_size >= 7 * c ==> {
                &&& c * (n - 2) <= 2 * (m.block_size - 7 * c)
                &&& 2 * (m.block_size - 7 * c) < c * (n - 1)
            }
            &&& m.format == BlockFormat::ImaWav && m.block_size >= 4 * c ==> {
                &&& c * (n - 1) <= 2 * (m.block_size - 4 * c)
                &&& 2 * (m.block_size - 4 * c) < c * (n + 7)
                &&& (n - 1) % 8 == 0
            }
            &&& m.format == BlockFormat::ImaWav3 && m.block_size >= 4 * c ==> {
                &&& 3 * (c * (n - 1)) <= 8 * (m.block_size - 4 * c)
                &&& 8 * (m.block_size - 4 * c) < 3 * (c * (n + 31))
                &&& (n - 1) % 32 == 0
            }
            &&& m.format == BlockFormat::ImaQt ==> n == 64
        }),
{
    let c = m.channels;
    let n = m.per_block();
    match m.format {
        BlockFormat::Ms => {
            if m.block_size >= 7 * c {
                let body = 2 * (m.block_size - 7 * c);
                vstd::arithmetic::div_mod::lemma_fundamental_div_mod(body, c);
                vstd::arithmetic::div_mod::lemma_mod_bound(body, c);
                let q = body / c;
                assert(c * (n - 2) == c * q);
                assert(c * (n - 1) == c * q + c) by (nonlinear_arith)
                    requires
                        n == 2 + q,
                ;
            }
        },
        BlockFormat::ImaWav => {
            if m.block_size >= 4 * c {
                let body = m.block_size - 4 * c;
                let q = body / (4 * c);
                vstd::arithmetic::div_mod::lemma_fundamental_div_mod(body, 4 * c);
                vstd::arithmetic::div_mod::lemma_mod_bound(body, 4 * c);
                assert(c * (n - 1) == 2 * ((4 * c) * q)) by (nonlinear_arith)
                    requires
                        n == 1 + q * 8,
                ;
                assert(c * (n + 7) == 2 * ((4 * c) * q) + 8 * c) by (nonlinear_arith)
                    requires
                        n == 1 + q * 8,
                ;
            }
        },
        BlockFormat::ImaWav3 => {
            if m.block_size >= 4 * c {
                let body = m.block_size - 4 * c;
                let q = body / (12 * c);
                vstd::arithmetic::div_mod::lemma_fundamental_div_mod(body, 12 * c);
                vstd::arithmetic::div_mod::lemma_mod_bound(body, 12 * c);
                assert(3 * (c * (n - 1)) == 8 * ((12 * c) * q)) by (nonlinear_arith)
                    requires
                        n == 1 + q * 32,
                ;
                assert(3 * (c * (n + 31)) == 8 * ((12 * c) * q) + 96 * c) by (nonlinear_arith)
                    requires
                        n == 1 + q * 32,
                ;
            }
        },
        BlockFormat::ImaQt => {},
    }
}

/// The default block of IMA ADPCM in WAV is the largest within 256 bytes that
/// holds whole groups of all channels behind its header.
pub proof fn default_blocks_are_the_largest(bits: int, channels: int)
    requires
        1 <= channels <= 8,
    ensures
        ({
            let size = wav_default_size_of(bits, channels);
            let group: int = if bits == 3 {
                12 * channels
            } else {
                4 * channels
            };
            &&& 4 * channels <= size <= 256 < size + group
            &&& (size - 4 * channels) % group == 0
        }),
{
    let group: int = if bits == 3 {
        12 * channels
    } else {
        4 * channels
    };
    let whole: int = if bits == 3 {
        256 - 4 * channels
    } else {
        256
    };
    let q = whole / group;
    vstd::arithmetic::div_mod::lemma_fundamental_div_mod(whole, group);
    vstd::arithmetic::div_mod::lemma_mod_bound(whole, group);
    let size = wav_default_size_of(bits, channels);
    let k: int = if bits == 3 {
        q
    } else {
        q - 1
    };
    assert(size - 4 * channels == k * group) by (nonlinear_arith)
        requires
            size == 256 - (whole - group * q),
            bits == 3 ==> whole == 256 - 4 * channels && k == q,
            bits != 3 ==> whole == 256 && group == 4 * channels && k == q - 1,
    ;
    vstd::arithmetic::div_mod::lemma_mod_multiples_basic(k, group);
}

/// The last block is filled up with what every channel ended on.
pub proof fn padding_goes_on(pcm: Seq<i16>, channels: int, unit: int, k: int)
    requires
        1 <= channels <= pcm.len() <= unit,
        0 <= k < unit,
    ensures
        padded(pcm, channels, unit).len() == unit,
        k < pcm.len() ==> padded(pcm, channels, unit)[k] == pcm[k],
        k >= pcm.len() ==> padded(pcm, channels, unit)[k] == padded(pcm, channels, unit)[k
            - channels],
{
    let n = pcm.len() as int;
    let full = padded(pcm, channels, unit);
    if k >= n {
        let j = k - n;
        if j < channels {
            vstd::arithmetic::div_mod::lemma_small_mod(j as nat, channels as nat);
            assert(full[k - channels] == pcm[k - channels]);
        } else {
            vstd::arithmetic::div_mod::lemma_mod_sub_multiples_vanish(j, channels);
            assert((j - channels) % channels == j % channels);
        }
    }
}

/// The first word of a WAV format extension counts the samples per channel of a
/// block.
pub proof fn extensions_count_samples(channels: int, len: int)
    requires
        1 <= channels <= 8,
    ensures
        format_extra(Variant::ImaWav, channels, len) is Some ==> {
            let ext = format_extra(Variant::ImaWav, channels, len)->0;
            &&& ext.len() == 2
            &&& 8 * (len - 4 * channels) == 4 * (channels * (ext[0] + 256 * ext[1] - 1))
        },
        format_extra3(channels, len) is Some ==> {
            let ext = format_extra3(channels, len)->0;
            &&& ext.len() == 2
            &&& 8 * (len - 4 * channels) == 3 * (channels * (ext[0] + 256 * ext[1] - 1))
        },
{
    if format_extra(Variant::ImaWav, channels, len) is Some {
        blocks_are_headers_and_codes(Variant::ImaWav, channels, len);
    }
    if format_extra3(channels, len) is Some {
        let body = len - 4 * channels;
        let q = body / (12 * channels);
        vstd::arithmetic::div_mod::lemma_fundamental_div_mod(body, 12 * channels);
        assert(q >= 0) by (nonlinear_arith)
            requires
                body == (12 * channels) * q,
                body >= 0,
                channels > 0,
        ;
        let n = 1 + 32 * q;
        assert(8 * body == 3 * (channels * (n - 1))) by (nonlinear_arith)
            requires
                body == (12 * channels) * q,
                n == 1 + 32 * q,
        ;
    }
}

// ---- Streams ----

/// Every channel of a stream begins in silence, at the smallest step.
pub proof fn streams_begin_in_silence(chip: Chip)
    ensures
        dialogic::fresh().predictor == 0 && dialogic::fresh().step_index == 0,
        yamaha::fresh(chip).predictor == 0 && yamaha::fresh(chip).step == 127,
        yamaha::fresh(chip).chip == chip,
        yamaha_a::fresh().acc == 0 && yamaha_a::fresh().step_index == 0,
{
}

/// A VOX encoder takes a sixteenth of each 16-bit sample, rounded down.
pub proof fn vox_targets_are_twelve_bits(samples: Seq<i16>, k: int)
    requires
        0 <= k < samples.len(),
    ensures
        dialogic::narrowed(samples).len() == samples.len(),
        16 * dialogic::narrowed(samples)[k] <= samples[k] < 16 * dialogic::narrowed(samples)[k]
            + 16,
        -2048 <= dialogic::narrowed(samples)[k] <= 2047,
{
}

/// A frame becomes one packet behind the others. It is stamped with the samples
/// per channel that went before, and holds two codes to a byte.
pub proof fn frames_become_packets<S>(
    m: StreamModel<S>,
    targets: Seq<int>,
    pick: spec_fn(S, int) -> int,
    next: spec_fn(S, int) -> S,
    low_first: bool,
    turns: int,
)
    requires
        m.states.len() > 0,
        targets.len() == turns * m.states.len(),
    ensures
        ({
            let after = m.with_frame(targets, pick, next, low_first);
            let n = m.pending.len() as int;
            &&& after.pending.len() == n + 1
            &&& after.pending.take(n) == m.pending
            &&& after.pending[n].pts == m.emitted
            &&& after.pending[n].ticks == m.ticks
            &&& targets.len() <= 2 * after.pending[n].data.len() <= targets.len() + 1
            &&& after.emitted == m.emitted + turns
            &&& after.ticks == m.ticks
        }),
{
    let after = m.with_frame(targets, pick, next, low_first);
    let n = m.pending.len() as int;
    assert(after.pending.take(n) =~= m.pending);
    let c = m.states.len() as int;
    vstd::arithmetic::div_mod::lemma_fundamental_div_mod_converse(
        targets.len() as int,
        c,
        turns,
        0,
    );
}

/// A frame of samples counts those of one channel and holds two bytes for each.
pub proof fn frames_count_samples(pcm: Seq<i16>, channels: int, pts: Option<i64>, turns: int)
    requires
        channels > 0,
        0 <= turns < 4294967296,
        pcm.len() == turns * channels,
    ensures
        frame_of(pcm, channels, pts).samples == turns,
        frame_of(pcm, channels, pts).pts == pts,
        frame_of(pcm, channels, pts).data.len() == 2 * pcm.len(),
{
    vstd::arithmetic::div_mod::lemma_fundamental_div_mod_converse(
        pcm.len() as int,
        channels,
        turns,
        0,
    );
}

// ---- G.726 ----

/// A WAV block of G.726 holds 128 codes per channel behind its auxiliary bytes.
pub proof fn wav_blocks_hold_128_codes(rate: Rate, channels: int, aux: int)
    ensures
        8 * (wav_block_len(rate, channels, aux) - aux) == 128 * (rate.width() * channels),
{
    let w = rate.width();
    assert(16 * w * channels == 16 * (w * channels)) by (nonlinear_arith);
}

/// What is left of a whole block is all that stands behind its auxiliary bytes.
pub proof fn auxiliary_bytes_come_first(data: Seq<u8>, aux: int)
    requires
        0 <= aux <= data.len(),
        data.len() > 0,
    ensures
        without_aux(data, 0, aux, data.len() as int) == data.skip(aux),
{
    without_first(data, aux, data.len() as int);
    assert(data.take(data.len() as int) =~= data);
    assert(data.subrange(aux, data.len() as int) =~= data.skip(aux));
}

proof fn without_first(data: Seq<u8>, aux: int, k: int)
    requires
        0 <= aux <= data.len(),
        0 <= k <= data.len(),
        data.len() > 0,
    ensures
        without_aux(data.take(k), 0, aux, data.len() as int) == (if k <= aux {
            Seq::empty()
        } else {
            data.subrange(aux, k)
        }),
    decreases k,
{
    let n = data.len() as int;
    if k > 0 {
        without_first(data, aux, k - 1);
        assert(data.take(k).drop_last() =~= data.take(k - 1));
        assert(data.take(k).last() == data[k - 1]);
        vstd::arithmetic::div_mod::lemma_small_mod((k - 1) as nat, n as nat);
        if k - 1 > aux {
            assert(data.subrange(aux, k - 1).push(data[k - 1]) =~= data.subrange(aux, k));
        } else if k - 1 == aux {
            assert(Seq::<u8>::empty().push(data[k - 1]) =~= data.subrange(aux, k));
        }
    }
}

/// A G.726 coder begins with the smallest scale factors, the slow one 64 times the
/// fast one; with nothing learnt; and with memories of nothing, whose floating word
/// is half of one.
pub proof fn coders_begin_at_rest(rate: Rate, n: int)
    requires
        0 <= n < 6,
    ensures
        initial(rate).rate == rate,
        initial(rate).yu == 544,
        initial(rate).yl == 64 * 544,
        initial(rate).dms == 0,
        initial(rate).dml == 0,
        initial(rate).ap == 0,
        initial(rate).a1 == 0,
        initial(rate).a2 == 0,
        initial(rate).b.len() == 6 && initial(rate).b[n] == 0,
        initial(rate).dq.len() == 6 && initial(rate).dq[n] == 32,
        initial(rate).sr.len() == 2 && initial(rate).sr[0] == 32 && initial(rate).sr[1] == 32,
        initial(rate).pk1 == 0 && initial(rate).pk2 == 0 && initial(rate).td == 0,
{
}

/// A 16-bit sample is four times a 14-bit one: an encoder takes the quarter, rounded
/// down, and a decoder gives back four times what it came to, held to 14 bits.
pub proof fn samples_have_fourteen_bits(s: CodecModel, code: int, held: int, pcm: Seq<i16>, k: int)
    requires
        settles(reconstructed(s, code), -8192, 8191, held),
        0 <= k < pcm.len(),
    ensures
        linear_sample(s, code) == 4 * held,
        quarters(pcm).len() == pcm.len(),
        4 * quarters(pcm)[k] <= pcm[k] < 4 * quarters(pcm)[k] + 4,
{
}

/// Codes are put in the order of the differences that they stand for: the negative
/// ones, as two's complement numbers, before the positive.
pub proof fn codes_go_by_their_sign(rate: Rate, a: int, b: int)
    requires
        0 <= a < rate.code_count(),
        0 <= b < rate.code_count(),
    ensures
        ({
            let n = rate.code_count();
            let x: int = if 2 * a < n {
                a
            } else {
                a - n
            };
            let y: int = if 2 * b < n {
                b
            } else {
                b - n
            };
            ordered(rate, a) < ordered(rate, b) <==> x < y
        }),
{
}

} // verus!
