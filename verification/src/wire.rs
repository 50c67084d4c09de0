//! Where things stand in bytes: which nibble, which word, which channel.

use vstd::prelude::*;

use vstd::arithmetic::power::pow;

use crate::bits::{joined, joined_len, to_bits, to_bits_len, BitOrder};
use crate::encoder::{wav_block, wav_encode_error};
use crate::ima_qt::{qt_codes, qt_samples, qt_seed};
use crate::ima_wav::{
    group_value, ima_next3, ima_next4, ima_run3, ima_run4, wav_code4, wav_codes3, wav_codes4,
    wav_groups, wav_samples3, wav_samples4, wav_seed,
};
use crate::interleave::place;
use crate::lanes::{packed, packet_codes};
use crate::ms::{
    ms_codes, ms_next, ms_run, ms_samples, ms_seed, trailer_pairs, trailer_sets, CoefPair,
};
use crate::pcm::{bytes_pcm, pcm_bytes};
use crate::words::two_to;

verus! {

/// `x` is the signed number in a word of two bytes.
pub open spec fn word_holds(low: u8, high: u8, x: int) -> bool {
    &&& -32768 <= x <= 32767
    &&& (x - (low + 256 * high)) % 65536 == 0
}

// ---- Streams of nibbles ----

/// A byte of a packet holds two codes: the earlier one in its low nibble, or in its
/// high one.
pub proof fn a_byte_is_two_codes(packet: Seq<u8>, i: int)
    requires
        0 <= i < packet.len(),
    ensures
        ({
            let low = packet_codes(packet, true);
            let high = packet_codes(packet, false);
            &&& low.len() == 2 * packet.len()
            &&& high.len() == 2 * packet.len()
            &&& packet[i] == low[2 * i] + 16 * low[2 * i + 1]
            &&& packet[i] == 16 * high[2 * i] + high[2 * i + 1]
            &&& 0 <= low[2 * i] < 16 && 0 <= low[2 * i + 1] < 16
            &&& 0 <= high[2 * i] < 16 && 0 <= high[2 * i + 1] < 16
        }),
{
    assert((2 * i) % 2 == 0 && (2 * i + 1) % 2 == 1);
    assert((2 * i) / 2 == i && (2 * i + 1) / 2 == i);
}

/// Two codes are packed into one byte likewise, and an odd one at the end with a
/// zero.
pub proof fn two_codes_are_a_byte(codes: Seq<int>, i: int)
    requires
        0 <= i,
        2 * i < codes.len(),
        forall|k: int| 0 <= k < codes.len() ==> 0 <= #[trigger] codes[k] < 16,
    ensures
        ({
            let low = packed(codes, true);
            let high = packed(codes, false);
            let second = if 2 * i + 1 < codes.len() {
                codes[2 * i + 1]
            } else {
                0
            };
            &&& 2 * low.len() == codes.len() || 2 * low.len() == codes.len() + 1
            &&& low.len() == high.len()
            &&& low[i] == codes[2 * i] + 16 * second
            &&& high[i] == 16 * codes[2 * i] + second
        }),
{
    assert(0 <= codes[2 * i] < 16);
    if 2 * i + 1 < codes.len() {
        assert(0 <= codes[2 * i + 1] < 16);
    }
}

// ---- Samples as bytes ----

/// A sample is two bytes, the low one first.
pub proof fn a_sample_is_two_bytes(pcm: Seq<i16>, bytes: Seq<u8>, k: int)
    ensures
        pcm_bytes(pcm).len() == 2 * pcm.len(),
        0 <= k < pcm.len() ==> word_holds(
            pcm_bytes(pcm)[2 * k],
            pcm_bytes(pcm)[2 * k + 1],
            pcm[k] as int,
        ),
        bytes_pcm(bytes).len() == bytes.len() / 2,
        0 <= k < bytes.len() as int / 2 ==> word_holds(
            bytes[2 * k],
            bytes[2 * k + 1],
            bytes_pcm(bytes)[k] as int,
        ),
{
    assert((2 * k) % 2 == 0 && (2 * k + 1) % 2 == 1);
    assert((2 * k) / 2 == k && (2 * k + 1) / 2 == k);
}

// ---- Microsoft blocks ----

/// A Microsoft block opens with a byte per channel that names the pair of weights,
/// then words per channel: the step, the second sample, the first sample.
pub proof fn ms_header_words(block: Seq<u8>, channels: int, coeffs: Seq<CoefPair>, ch: int)
    requires
        1 <= channels <= 2,
        0 <= ch < channels,
        7 * channels <= block.len(),
    ensures
        ({
            let s = ms_seed(block, channels, coeffs, ch);
            let at = channels + 2 * ch;
            let out = ms_samples(block, channels, coeffs);
            &&& s.coef1 == coeffs[block[ch] as int].0
            &&& s.coef2 == coeffs[block[ch] as int].1
            &&& word_holds(block[at], block[at + 1], s.delta)
            &&& word_holds(block[at + 2 * channels], block[at + 2 * channels + 1], s.sample1)
            &&& word_holds(block[at + 4 * channels], block[at + 4 * channels + 1], s.sample2)
            &&& out.len() == 2 * channels + 2 * (block.len() - 7 * channels)
            &&& out[ch] == s.sample2
            &&& out[channels + ch] == s.sample1
        }),
{
    let n = 2 + (2 * (block.len() - 7 * channels)) / channels;
    assert(n * channels == 2 * channels + 2 * (block.len() - 7 * channels)) by {
        if channels == 1 {
            assert(n * 1 == n);
        } else {
            assert(n * 2 == 2 * n);
        }
    }
    place(0, ch, channels, n);
    place(1, ch, channels, n);
    assert(0 * channels == 0 && 1 * channels == channels);
}

/// Behind the header a byte of a Microsoft block holds two codes, the earlier one
/// in its high nibble, the channels taking turns; and each code puts out the next
/// sample of its channel.
pub proof fn ms_body_codes(block: Seq<u8>, channels: int, coeffs: Seq<CoefPair>, b: int, k: int)
    requires
        1 <= channels <= 2,
        0 <= b < block.len() - 7 * channels,
        0 <= k,
        channels * (k + 1) <= 2 * (block.len() - 7 * channels),
    ensures
        ({
            let byte = block[7 * channels + b] as int;
            let out = ms_samples(block, channels, coeffs);
            let left = ms_codes(block, channels, 0);
            let right = ms_codes(block, channels, channels - 1);
            &&& channels == 1 ==> byte == 16 * left[2 * b] + left[2 * b + 1]
            &&& channels == 2 ==> byte == 16 * left[b] + right[b]
            &&& forall|ch: int|
                0 <= ch < channels ==> #[trigger] out[(2 + k) * channels + ch] == ms_next(
                    ms_run(ms_seed(block, channels, coeffs, ch), ms_codes(block, channels, ch), k),
                    ms_codes(block, channels, ch)[k],
                ).sample1 as i16
        }),
{
    let n = (2 * (block.len() - 7 * channels)) / channels;
    if channels == 1 {
        assert((2 * b) * 1 + 0 == 2 * b && (2 * b + 1) * 1 + 0 == 2 * b + 1);
        assert(n == 2 * (block.len() - 7));
    } else {
        assert(b * 2 + 0 == 2 * b && b * 2 + 1 == 2 * b + 1);
        assert(n == block.len() - 14);
    }
    assert((2 * b) / 2 == b && (2 * b + 1) / 2 == b);
    assert((2 * b) % 2 == 0 && (2 * b + 1) % 2 == 1);
    assert(k < n);
    let out = ms_samples(block, channels, coeffs);
    assert forall|ch: int| 0 <= ch < channels implies #[trigger] out[(2 + k) * channels + ch]
        == ms_next(
        ms_run(ms_seed(block, channels, coeffs, ch), ms_codes(block, channels, ch), k),
        ms_codes(block, channels, ch)[k],
    ).sample1 as i16 by {
        place(2 + k, ch, channels, 2 + n);
    }
}

/// A Microsoft trailer names the number of its pairs in its second word, and holds
/// the pairs behind it, two words each.
pub proof fn ms_trailer_words(ext: Seq<u8>, i: int)
    requires
        ext.len() >= 4,
        0 <= i < trailer_sets(ext),
    ensures
        trailer_pairs(ext).len() == ext[2] + 256 * ext[3],
        word_holds(ext[4 + 4 * i], ext[5 + 4 * i], trailer_pairs(ext)[i].0 as int),
        word_holds(ext[6 + 4 * i], ext[7 + 4 * i], trailer_pairs(ext)[i].1 as int),
{
}

// ---- IMA blocks ----

/// A WAV block opens, for each channel, with the first sample in a word, then a byte
/// with the step index, then a zero byte.
pub proof fn wav_header_words(block: Seq<u8>, channels: int, ch: int)
    requires
        1 <= channels,
        0 <= ch < channels,
        4 * channels <= block.len(),
    ensures
        ({
            let s = wav_seed(block, ch);
            &&& word_holds(block[4 * ch], block[4 * ch + 1], s.predictor)
            &&& s.step_index == block[4 * ch + 2]
            &&& wav_samples4(block, channels)[ch] == s.predictor
            &&& wav_samples3(block, channels)[ch] == s.predictor
        }),
{
    let g4 = wav_groups(block.len() as int, channels, 4);
    let g3 = wav_groups(block.len() as int, channels, 12);
    vstd::arithmetic::div_mod::lemma_div_pos_is_pos(
        block.len() - 4 * channels,
        4 * channels,
    );
    vstd::arithmetic::div_mod::lemma_div_pos_is_pos(
        block.len() - 4 * channels,
        12 * channels,
    );
    place(0, ch, channels, 1 + 8 * g4);
    place(0, ch, channels, 1 + 32 * g3);
}

/// The fourth byte of a channel's header is zero in what is written.
pub proof fn wav_header_ends_in_zero(samples: Seq<i16>, channels: int, block_size: int, ch: int)
    requires
        wav_encode_error(samples.len() as int, channels, block_size) is None,
        0 <= ch < channels,
    ensures
        wav_block(samples, channels, block_size)[4 * ch + 3] == 0,
{
    assert((4 * ch + 3) % 4 == 3);
}

/// Behind the headers the channels take turns in groups of four bytes, eight codes
/// each, the earlier code of a byte in its low nibble; and each code puts out the
/// next sample of its channel.
pub proof fn wav_body_codes(block: Seq<u8>, channels: int, groups: int, g: int, ch: int, b: int)
    requires
        1 <= channels,
        0 <= g < groups,
        block.len() == 4 * channels + 4 * channels * groups,
        0 <= ch < channels,
        0 <= b < 4,
    ensures
        ({
            let codes = wav_codes4(block, channels, ch);
            let k = 8 * g + 2 * b;
            let at = 4 * channels * (1 + g) + 4 * ch + b;
            let s = ima_run4(wav_seed(block, ch), codes, k);
            let t = ima_next4(s, codes[k]);
            let out = wav_samples4(block, channels);
            &&& codes.len() == 8 * groups
            &&& block[at] == codes[k] + 16 * codes[k + 1]
            &&& out[(k + 1) * channels + ch] == t.predictor as i16
            &&& out[(k + 2) * channels + ch] == ima_next4(t, codes[k + 1]).predictor as i16
        }),
{
    let k = 8 * g + 2 * b;
    vstd::arithmetic::div_mod::lemma_div_multiples_vanish(groups, 4 * channels);
    assert(groups * (4 * channels) == 4 * channels * groups) by (nonlinear_arith);
    assert(k / 8 == g && (k + 1) / 8 == g);
    assert((k % 8) / 2 == b && ((k + 1) % 8) / 2 == b);
    assert(g * (4 * channels) + 4 * channels == 4 * channels * (1 + g)) by (nonlinear_arith);
    let codes = wav_codes4(block, channels, ch);
    let byte = block[4 * channels * (1 + g) + 4 * ch + b];
    assert(wav_groups(block.len() as int, channels, 4) == groups);
    assert(k % 2 == 0 && (k + 1) % 2 == 1);
    assert(codes[k] == byte as int % 16) by {
        assert(codes[k] == wav_code4(block, channels, ch, k));
    }
    assert(codes[k + 1] == byte as int / 16) by {
        assert(codes[k + 1] == wav_code4(block, channels, ch, k + 1));
    }
    let seed = wav_seed(block, ch);
    let t = ima_run4(seed, codes, k + 1);
    assert(t == ima_next4(ima_run4(seed, codes, k), codes[k]));
    assert(ima_run4(seed, codes, k + 2) == ima_next4(t, codes[k + 1]));
    place(k + 1, ch, channels, 1 + 8 * groups);
    place(k + 2, ch, channels, 1 + 8 * groups);
}

/// In a three-bit block the channels take turns in groups of twelve bytes, 32 codes
/// each. Three bytes, the low one first, hold eight codes, the earliest lowest; and
/// each code puts out the next sample of its channel.
pub proof fn wav3_body_codes(block: Seq<u8>, channels: int, groups: int, g: int, ch: int, t: int)
    requires
        1 <= channels,
        0 <= g < groups,
        block.len() == 4 * channels + 12 * channels * groups,
        0 <= ch < channels,
        0 <= t < 4,
    ensures
        ({
            let codes = wav_codes3(block, channels, ch);
            let k = 32 * g + 8 * t;
            let at = 4 * channels + 12 * channels * g + 12 * ch + 3 * t;
            let s = ima_run3(wav_seed(block, ch), codes, k);
            let out = wav_samples3(block, channels);
            &&& codes.len() == 32 * groups
            &&& block[at] + 256 * block[at + 1] + 65536 * block[at + 2] == codes[k] + 8 * codes[k
                + 1] + 64 * codes[k + 2] + 512 * codes[k + 3] + 4096 * codes[k + 4] + 32768
                * codes[k + 5] + 262144 * codes[k + 6] + 2097152 * codes[k + 7]
            &&& forall|i: int| k <= i < k + 8 ==> 0 <= #[trigger] codes[i] < 8
            &&& out[(k + 1) * channels + ch] == ima_next3(s, codes[k]).predictor as i16
        }),
{
    let k = 32 * g + 8 * t;
    let start = 4 * channels + g * (12 * channels) + 12 * ch;
    assert(g * (12 * channels) == 12 * channels * g) by (nonlinear_arith);
    vstd::arithmetic::div_mod::lemma_div_multiples_vanish(groups, 12 * channels);
    assert(groups * (12 * channels) == 12 * channels * groups) by (nonlinear_arith);
    place(k + 1, ch, channels, 1 + 32 * groups);
    let v = group_value(block, start, 12);
    let codes = wav_codes3(block, channels, ch);
    assert forall|i: int| 0 <= i < 8 implies #[trigger] codes[k + i] == (v / pow(
        8,
        (8 * t + i) as nat,
    )) % 8 by {
        assert((k + i) / 32 == g && (k + i) % 32 == 8 * t + i);
    }
    three_bytes(block, start, t);
    assert(codes[k + 0] == (v / pow(8, (8 * t) as nat)) % 8);
    assert(codes[k + 1] == (v / pow(8, (8 * t + 1) as nat)) % 8);
    assert(codes[k + 2] == (v / pow(8, (8 * t + 2) as nat)) % 8);
    assert(codes[k + 3] == (v / pow(8, (8 * t + 3) as nat)) % 8);
    assert(codes[k + 4] == (v / pow(8, (8 * t + 4) as nat)) % 8);
    assert(codes[k + 5] == (v / pow(8, (8 * t + 5) as nat)) % 8);
    assert(codes[k + 6] == (v / pow(8, (8 * t + 6) as nat)) % 8);
    assert(codes[k + 7] == (v / pow(8, (8 * t + 7) as nat)) % 8);
    assert forall|i: int| k <= i < k + 8 implies 0 <= #[trigger] codes[i] < 8 by {
        assert(codes[k + (i - k)] == codes[i]);
    }
}

/// The bytes of a group above the first `n`.
proof fn bytes_above(block: Seq<u8>, start: int, len: int, n: int)
    requires
        0 <= n <= len,
    ensures
        group_value(block, start, len) / pow(256, n as nat) == group_value(
            block,
            start + n,
            len - n,
        ),
        group_value(block, start, len) >= 0,
    decreases n,
{
    reveal(pow);
    group_value_positive(block, start, len);
    let v = group_value(block, start, len);
    if n == 0 {
        vstd::arithmetic::div_mod::lemma_div_basics(v);
    } else {
        let rest = group_value(block, start + 1, len - 1);
        bytes_above(block, start + 1, len - 1, n - 1);
        assert(v / 256 == rest);
        vstd::arithmetic::power::lemma_pow_positive(256, (n - 1) as nat);
        vstd::arithmetic::div_mod::lemma_div_denominator(v, 256, pow(256, (n - 1) as nat));
        assert(pow(256, n as nat) == 256 * pow(256, (n - 1) as nat));
    }
}

proof fn group_value_positive(block: Seq<u8>, start: int, len: int)
    ensures
        group_value(block, start, len) >= 0,
    decreases len,
{
    if len > 0 {
        group_value_positive(block, start + 1, len - 1);
    }
}

/// Three bytes of a group are eight digits base eight of its value.
proof fn three_bytes(block: Seq<u8>, start: int, t: int)
    requires
        0 <= t < 4,
    ensures
        ({
            let v = group_value(block, start, 12);
            let at = start + 3 * t;
            let d = |i: int| (v / pow(8, (8 * t + i) as nat)) % 8;
            block[at] + 256 * block[at + 1] + 65536 * block[at + 2] == d(0) + 8 * d(1) + 64 * d(2)
                + 512 * d(3) + 4096 * d(4) + 32768 * d(5) + 262144 * d(6) + 2097152 * d(7)
        }),
{
    let v = group_value(block, start, 12);
    let at = start + 3 * t;
    bytes_above(block, start, 12, 3 * t);
    let x = group_value(block, at, 12 - 3 * t);
    let r = group_value(block, at + 3, 9 - 3 * t);
    group_value_positive(block, at, 12 - 3 * t);
    assert(x == block[at] + 256 * group_value(block, at + 1, 11 - 3 * t));
    assert(group_value(block, at + 1, 11 - 3 * t) == block[at + 1] + 256 * group_value(
        block,
        at + 2,
        10 - 3 * t,
    ));
    assert(group_value(block, at + 2, 10 - 3 * t) == block[at + 2] + 256 * r);
    let low = block[at] + 256 * block[at + 1] + 65536 * block[at + 2];
    assert(x == low + 16777216 * r);
    same_power(t);
    assert(v / pow(8, (8 * t) as nat) == x);
    digits_above(v, 8 * t, 1);
    digits_above(v, 8 * t, 2);
    digits_above(v, 8 * t, 3);
    digits_above(v, 8 * t, 4);
    digits_above(v, 8 * t, 5);
    digits_above(v, 8 * t, 6);
    digits_above(v, 8 * t, 7);
    assert(pow(8, 1) == 8 && pow(8, 2) == 64 && pow(8, 3) == 512 && pow(8, 4) == 4096 && pow(8, 5)
        == 32768 && pow(8, 6) == 262144 && pow(8, 7) == 2097152) by {
        reveal_with_fuel(pow, 8);
    }
    eight_digits(x, low, r);
}

/// Eight digits make up what three bytes hold.
proof fn eight_digits(x: int, low: int, r: int)
    requires
        x == low + 16777216 * r,
        0 <= low < 16777216,
    ensures
        low == x % 8 + 8 * ((x / 8) % 8) + 64 * ((x / 64) % 8) + 512 * ((x / 512) % 8) + 4096 * ((x
            / 4096) % 8) + 32768 * ((x / 32768) % 8) + 262144 * ((x / 262144) % 8) + 2097152 * ((x
            / 2097152) % 8),
{
    let x1 = x / 8;
    let x2 = x1 / 8;
    let x3 = x2 / 8;
    let x4 = x3 / 8;
    let x5 = x4 / 8;
    let x6 = x5 / 8;
    let x7 = x6 / 8;
    assert(x / 64 == x2 && x / 512 == x3 && x / 4096 == x4);
    assert(x / 32768 == x5 && x / 262144 == x6 && x / 2097152 == x7);
    assert(x7 / 8 == r);
}

/// Eight to the eighth is 256 to the third.
proof fn same_power(t: int)
    requires
        0 <= t < 4,
    ensures
        pow(8, (8 * t) as nat) == pow(256, (3 * t) as nat),
{
    assert(pow(8, 0) == 1 && pow(256, 0) == 1) by {
        reveal(pow);
    }
    assert(pow(8, 8) == 16777216 && pow(256, 3) == 16777216) by {
        reveal_with_fuel(pow, 9);
    }
    assert(pow(8, 16) == 281474976710656 && pow(256, 6) == 281474976710656) by {
        reveal_with_fuel(pow, 17);
    }
    assert(pow(8, 24) == 4722366482869645213696int && pow(256, 9) == 4722366482869645213696int) by {
        reveal_with_fuel(pow, 25);
    }
}

/// Digits above digits.
proof fn digits_above(v: int, a: int, i: int)
    requires
        v >= 0,
        a >= 0,
        i >= 0,
    ensures
        v / pow(8, (a + i) as nat) == (v / pow(8, a as nat)) / pow(8, i as nat),
{
    vstd::arithmetic::power::lemma_pow_positive(8, a as nat);
    vstd::arithmetic::power::lemma_pow_positive(8, i as nat);
    vstd::arithmetic::power::lemma_pow_adds(8, a as nat, i as nat);
    vstd::arithmetic::div_mod::lemma_div_denominator(v, pow(8, a as nat), pow(8, i as nat));
}

/// A QuickTime block is 34 bytes of one channel: a word, the high byte first, whose
/// upper nine bits are the upper nine of the first sample and whose lower seven are
/// the step index, held to 88; then the codes, the earlier one of a byte in its low
/// nibble; and each code puts out the next sample.
pub proof fn qt_block_words(data: Seq<u8>, channels: int, ch: int, b: int)
    requires
        0 <= ch < channels,
        34 * channels <= data.len(),
        0 <= b < 32,
    ensures
        ({
            let s = qt_seed(data, ch);
            let codes = qt_codes(data, ch);
            let at = 34 * ch;
            let index = data[at + 1] as int % 128;
            let t = ima_run4(s, codes, 2 * b);
            let u = ima_next4(t, codes[2 * b]);
            let out = qt_samples(data, channels);
            &&& word_holds((data[at + 1] - index) as u8, data[at], s.predictor)
            &&& index <= 88 ==> s.step_index == index
            &&& index > 88 ==> s.step_index == 88
            &&& codes.len() == 64
            &&& data[at + 2 + b] == codes[2 * b] + 16 * codes[2 * b + 1]
            &&& out.len() == 64 * channels
            &&& out[(2 * b) * channels + ch] == u.predictor as i16
            &&& out[(2 * b + 1) * channels + ch] == ima_next4(u, codes[2 * b + 1]).predictor as i16
        }),
{
    let word = 256 * data[34 * ch] + data[34 * ch + 1];
    let index = data[34 * ch + 1] as int % 128;
    assert(word % 128 == index);
    assert(word >= 32768 ==> word - index >= 32768);
    let low = (data[34 * ch + 1] - index) as u8;
    assert(low == data[34 * ch + 1] - index);
    let s = qt_seed(data, ch);
    assert(s.predictor == word - index || s.predictor == word - index - 65536);
    assert(word_holds(low, data[34 * ch], s.predictor));
    assert((2 * b) % 2 == 0 && (2 * b + 1) % 2 == 1);
    assert((2 * b) / 2 == b && (2 * b + 1) / 2 == b);
    place(2 * b, ch, channels, 64);
    place(2 * b + 1, ch, channels, 64);
    let codes = qt_codes(data, ch);
    assert(ima_run4(s, codes, 2 * b + 1) == ima_next4(ima_run4(s, codes, 2 * b), codes[2 * b]));
    assert(ima_run4(s, codes, 2 * b + 2) == ima_next4(
        ima_run4(s, codes, 2 * b + 1),
        codes[2 * b + 1],
    ));
}

// ---- Streams of bits ----

/// The first bit of a number is its highest one, or its lowest one; the others are
/// those of what is left of it.
pub proof fn bits_in_order(v: int, n: int)
    requires
        0 < n,
        0 <= v < two_to(n),
    ensures
        ({
            let high = to_bits(v, n, BitOrder::MsbFirst);
            let low = to_bits(v, n, BitOrder::LsbFirst);
            &&& high.len() == n && low.len() == n
            &&& high[0] <==> 2 * v >= two_to(n)
            &&& low[0] <==> v % 2 == 1
            &&& high[n - 1] <==> v % 2 == 1
            &&& low[n - 1] <==> 2 * v >= two_to(n)
        }),
    decreases n,
{
    to_bits_len(v, n, BitOrder::MsbFirst);
    to_bits_len(v, n, BitOrder::LsbFirst);
    to_bits_len(v / 2, n - 1, BitOrder::MsbFirst);
    to_bits_len(v / 2, n - 1, BitOrder::LsbFirst);
    assert(two_to(n) == 2 * two_to(n - 1));
    if n > 1 {
        assert(two_to(n - 1) == 2 * two_to(n - 2));
        bits_in_order(v / 2, n - 1);
    } else {
        assert(two_to(0) == 1);
    }
}

/// Numbers stand in their bits one behind the other, the first one first.
pub proof fn numbers_in_order(numbers: Seq<u8>, w: int, order: BitOrder, i: int)
    requires
        0 < w,
        0 <= i < numbers.len(),
    ensures
        joined(numbers, w, order).len() == w * numbers.len(),
        joined(numbers, w, order).subrange(w * i, w * i + w) == to_bits(
            numbers[i] as int,
            w,
            order,
        ),
    decreases numbers.len(),
{
    joined_len(numbers, w, order);
    let front = numbers.drop_last();
    joined_len(front, w, order);
    let last = to_bits(numbers.last() as int, w, order);
    to_bits_len(numbers.last() as int, w, order);
    let n = numbers.len() as int;
    assert(w * n == w * (n - 1) + w) by (nonlinear_arith);
    vstd::arithmetic::mul::lemma_mul_is_commutative(w, n);
    vstd::arithmetic::mul::lemma_mul_is_commutative(w, n - 1);
    assert(joined(front, w, order).len() == w * (n - 1));
    let all = joined(numbers, w, order);
    if i == n - 1 {
        assert(all.subrange(w * i, w * i + w) =~= last);
    } else {
        numbers_in_order(front, w, order, i);
        assert(0 <= w * i && w * i + w <= w * (n - 1)) by (nonlinear_arith)
            requires
                0 <= i <= n - 2,
                w > 0,
        ;
        assert(all.subrange(w * i, w * i + w) =~= joined(front, w, order).subrange(
            w * i,
            w * i + w,
        ));
    }
}

} // verus!
