//! The bytes of IMA ADPCM blocks: the opening states of the channels and their
//! codes, in the order of WAV and of QuickTime.

use vstd::prelude::*;

use crate::arith::{
    high_byte, high_nibble, low_byte, low_nibble, signed16, word_bytes, word_bytes_round_trip,
};
use crate::encoder::nibbles;
use crate::error::Component;
use crate::ima_qt::{qt_codes, qt_seed};
use crate::ima_wav::{
    first_bad_index, wav_codes4, wav_error, wav_seed, ImaCodecState, ImaModel,
};
use crate::interleave::place;

verus! {

/// Byte `j` of the headers of a WAV block: per channel the opening sample, the
/// step index and a zero byte.
pub open spec fn header_byte(openings: Seq<ImaModel>, j: int) -> u8 {
    let opening = openings[j / 4];
    if j % 4 == 0 {
        low_byte(opening.predictor)
    } else if j % 4 == 1 {
        high_byte(opening.predictor)
    } else if j % 4 == 2 {
        opening.step_index as u8
    } else {
        0u8
    }
}

/// The bytes of a WAV block: per channel the opening sample, step index and a
/// zero byte, then `len` bytes of codes, four bytes to a channel in turn, the
/// low nibble of a byte first.
pub open spec fn wav_layout(
    openings: Seq<ImaModel>,
    codes: Seq<Seq<int>>,
    channels: int,
    len: int,
) -> Seq<u8> {
    Seq::new(
        (4 * channels + len) as nat,
        |j: int|
            if j < 4 * channels {
                header_byte(openings, j)
            } else {
                let at = j - 4 * channels;
                let within = at % (4 * channels);
                let k = 8 * (at / (4 * channels)) + 2 * (within % 4);
                (codes[within / 4][k] + 16 * codes[within / 4][k + 1]) as u8
            },
    )
}

/// The bytes of QuickTime blocks, a block per channel: the opening state in a
/// big-endian word, then the codes, the low nibble of a byte first.
pub open spec fn qt_layout(
    openings: Seq<ImaModel>,
    codes: Seq<Seq<int>>,
    channels: int,
) -> Seq<u8> {
    Seq::new(
        (34 * channels) as nat,
        |j: int|
            {
                let word = openings[j / 34].predictor + openings[j / 34].step_index;
                let r = j % 34;
                if r == 0 {
                    high_byte(word)
                } else if r == 1 {
                    low_byte(word)
                } else {
                    (codes[j / 34][2 * (r - 2)] + 16 * codes[j / 34][2 * (r - 2) + 1]) as u8
                }
            },
    )
}

/// What the channels of a block were opened with and coded to.
pub open spec fn coded(
    openings: Seq<ImaCodecState>,
    codes: Seq<Vec<u8>>,
    models: Seq<ImaModel>,
    wanted: Seq<Seq<int>>,
) -> bool {
    &&& openings.len() == models.len()
    &&& codes.len() == wanted.len()
    &&& forall|ch: int| 0 <= ch < models.len() ==> (#[trigger] openings[ch])@ == models[ch]
    &&& forall|ch: int| 0 <= ch < wanted.len() ==> nibbles((#[trigger] codes[ch])@, wanted[ch])
}

/// One channel more is opened and coded.
pub proof fn coded_one_more(
    openings: Seq<ImaCodecState>,
    codes: Seq<Vec<u8>>,
    opening: ImaCodecState,
    chosen: Vec<u8>,
    models: Seq<ImaModel>,
    wanted: Seq<Seq<int>>,
    ch: int,
)
    requires
        0 <= ch < models.len(),
        ch < wanted.len(),
        coded(openings, codes, models.take(ch), wanted.take(ch)),
        opening@ == models[ch],
        nibbles(chosen@, wanted[ch]),
    ensures
        coded(
            openings.push(opening),
            codes.push(chosen),
            models.take(ch + 1),
            wanted.take(ch + 1),
        ),
{
    assert forall|q: int| 0 <= q < ch + 1 implies (#[trigger] openings.push(opening)[q])@
        == models.take(ch + 1)[q] by {
        if q < ch {
            assert(openings[q]@ == models.take(ch)[q]);
        }
    }
    assert forall|q: int| 0 <= q < ch + 1 implies nibbles(
        (#[trigger] codes.push(chosen)[q])@,
        wanted.take(ch + 1)[q],
    ) by {
        if q < ch {
            assert(nibbles(codes[q]@, wanted.take(ch)[q]));
        }
    }
}

/// Writes the headers of a WAV block.
pub(crate) fn lay_headers(
    openings: &Vec<ImaCodecState>,
    channels: usize,
    Ghost(models): Ghost<Seq<ImaModel>>,
) -> (out: Vec<u8>)
    requires
        channels <= 8,
        openings@.len() == channels,
        models.len() == channels,
        forall|ch: int| 0 <= ch < channels ==> (#[trigger] openings@[ch])@ == models[ch],
        forall|ch: int| 0 <= ch < channels ==> (#[trigger] models[ch]).valid(),
    ensures
        out@ == Seq::new((4 * channels) as nat, |j: int| header_byte(models, j)),
{
    let ghost want = Seq::new((4 * channels) as nat, |j: int| header_byte(models, j));
    let mut out: Vec<u8> = Vec::new();
    let mut ch: usize = 0;
    assert(out@ =~= want.take(0));
    while ch < channels
        invariant
            ch <= channels <= 8,
            want == Seq::new((4 * channels) as nat, |j: int| header_byte(models, j)),
            out@ == want.take(4 * ch),
            openings@.len() == channels,
            models.len() == channels,
            forall|q: int| 0 <= q < channels ==> (#[trigger] openings@[q])@ == models[q],
            forall|q: int| 0 <= q < channels ==> (#[trigger] models[q]).valid(),
        decreases channels - ch,
    {
        let opening: ImaCodecState = openings[ch];
        assert(opening@ == models[ch as int] && models[ch as int].valid());
        let word: (u8, u8) = word_bytes(opening.predictor);
        out.push(word.0);
        out.push(word.1);
        out.push(opening.step_index as u8);
        out.push(0);
        proof {
            let j = 4 * ch as int;
            assert(j / 4 == ch && j % 4 == 0);
            assert((j + 1) / 4 == ch && (j + 1) % 4 == 1);
            assert((j + 2) / 4 == ch && (j + 2) % 4 == 2);
            assert((j + 3) / 4 == ch && (j + 3) % 4 == 3);
            assert(out@ =~= want.take(4 * (ch + 1)));
        }
        ch = ch + 1;
    }
    assert(want.take(4 * channels) =~= want);
    out
}

/// Writes a WAV block.
pub(crate) fn lay_wav(
    openings: &Vec<ImaCodecState>,
    codes: &Vec<Vec<u8>>,
    channels: usize,
    groups: usize,
    Ghost(models): Ghost<Seq<ImaModel>>,
    Ghost(wanted): Ghost<Seq<Seq<int>>>,
) -> (out: Vec<u8>)
    requires
        0 < channels <= 8,
        4 * channels * groups + 4 * channels <= usize::MAX,
        8 * groups <= usize::MAX,
        coded(openings@, codes@, models, wanted),
        models.len() == channels,
        wanted.len() == channels,
        forall|ch: int| 0 <= ch < channels ==> (#[trigger] models[ch]).valid(),
        forall|ch: int| 0 <= ch < channels ==> (#[trigger] wanted[ch]).len() == 8 * groups,
    ensures
        out@ == wav_layout(models, wanted, channels as int, 4 * channels * groups),
{
    let header: usize = 4 * channels;
    assert(header * groups == 4 * channels * groups);
    let body: usize = header * groups;
    let ghost want = wav_layout(models, wanted, channels as int, body as int);
    let mut out: Vec<u8> = lay_headers(openings, channels, Ghost(models));
    assert(out@ =~= want.take(4 * channels));
    let mut j: usize = 0;
    while j < body
        invariant
            j <= body,
            0 < channels <= 8,
            header == 4 * channels,
            body == header * groups,
            8 * groups <= usize::MAX,
            coded(openings@, codes@, models, wanted),
            wanted.len() == channels,
            forall|q: int| 0 <= q < channels ==> (#[trigger] wanted[q]).len() == 8 * groups,
            want == wav_layout(models, wanted, channels as int, body as int),
            out@ == want.take(header + j),
        decreases body - j,
    {
        let g: usize = j / header;
        let within: usize = j % header;
        let which: usize = within / 4;
        assert(g < groups) by (nonlinear_arith)
            requires
                g == j / header,
                j < header * groups,
                header > 0,
        ;
        assert(wanted[which as int].len() == 8 * groups);
        assert(8 * g + 8 <= 8 * groups);
        let k: usize = 8 * g + 2 * (within % 4);
        proof {
            let each = codes@[which as int];
            assert(nibbles(each@, wanted[which as int]));
            assert(each@[k as int] < 16);
            assert(each@[k + 1] < 16);
        }
        let lo: u8 = codes[which][k];
        let hi: u8 = codes[which][k + 1];
        out.push(lo + 16 * hi);
        proof {
            let at = header + j;
            assert(want[at as int] == (lo + 16 * hi) as u8);
            assert(out@ =~= want.take(at + 1));
        }
        j = j + 1;
    }
    assert(want.take(header + body) =~= want);
    out
}

/// Writes QuickTime blocks.
pub(crate) fn lay_qt(
    openings: &Vec<ImaCodecState>,
    codes: &Vec<Vec<u8>>,
    channels: usize,
    Ghost(models): Ghost<Seq<ImaModel>>,
    Ghost(wanted): Ghost<Seq<Seq<int>>>,
) -> (out: Vec<u8>)
    requires
        0 < channels <= 2,
        coded(openings@, codes@, models, wanted),
        models.len() == channels,
        wanted.len() == channels,
        forall|ch: int| 0 <= ch < channels ==> (#[trigger] models[ch]).valid(),
        forall|ch: int| 0 <= ch < channels ==> (#[trigger] wanted[ch]).len() == 64,
    ensures
        out@ == qt_layout(models, wanted, channels as int),
{
    let ghost want = qt_layout(models, wanted, channels as int);
    let mut out: Vec<u8> = Vec::new();
    let mut ch: usize = 0;
    assert(out@ =~= want.take(0));
    while ch < channels
        invariant
            ch <= channels <= 2,
            want == qt_layout(models, wanted, channels as int),
            out@ == want.take(34 * ch),
            coded(openings@, codes@, models, wanted),
            models.len() == channels,
            wanted.len() == channels,
            forall|q: int| 0 <= q < channels ==> (#[trigger] models[q]).valid(),
            forall|q: int| 0 <= q < channels ==> (#[trigger] wanted[q]).len() == 64,
        decreases channels - ch,
    {
        let opening: ImaCodecState = openings[ch];
        assert(opening@ == models[ch as int] && models[ch as int].valid());
        let word: (u8, u8) = word_bytes(opening.predictor + opening.step_index);
        out.push(word.1);
        out.push(word.0);
        assert(nibbles(codes@[ch as int]@, wanted[ch as int]));
        assert(wanted[ch as int].len() == 64);
        proof {
            let j = 34 * ch as int;
            assert(j / 34 == ch && j % 34 == 0);
            assert((j + 1) / 34 == ch && (j + 1) % 34 == 1);
            assert(out@ =~= want.take(34 * ch + 2));
        }
        let mut i: usize = 0;
        while i < 32
            invariant
                i <= 32,
                ch < channels <= 2,
                codes@.len() == channels,
                nibbles(codes@[ch as int]@, wanted[ch as int]),
                wanted[ch as int].len() == 64,
                want == qt_layout(models, wanted, channels as int),
                out@ == want.take(34 * ch + 2 + i),
            decreases 32 - i,
        {
            proof {
                let each = codes@[ch as int];
                assert(each@[2 * i] < 16 && each@[2 * i + 1] < 16);
            }
            let lo: u8 = codes[ch][2 * i];
            let hi: u8 = codes[ch][2 * i + 1];
            out.push(lo + 16 * hi);
            proof {
                let at = 34 * ch + 2 + i;
                assert(at / 34 == ch && at % 34 == 2 + i);
                assert(want[at] == (lo + 16 * hi) as u8);
                assert(out@ =~= want.take(at + 1));
            }
            i = i + 1;
        }
        ch = ch + 1;
    }
    assert(want.take(34 * channels) =~= want);
    out
}

/// Two nibbles put into a byte come out again.
pub proof fn nibble_pair(lo: int, hi: int)
    requires
        0 <= lo < 16,
        0 <= hi < 16,
    ensures
        low_nibble((lo + 16 * hi) as u8) == lo,
        high_nibble((lo + 16 * hi) as u8) == hi,
{
}

/// Where no header names a step index above 88, none is found.
proof fn no_bad_index(block: Seq<u8>, channels: int, from: int)
    requires
        0 <= from <= channels,
        forall|ch: int|
            from <= ch < channels ==> (#[trigger] wav_seed(block, ch)).step_index <= 88,
    ensures
        first_bad_index(block, channels, from) == channels,
    decreases channels - from,
{
    if from < channels {
        assert(wav_seed(block, from).step_index <= 88);
        no_bad_index(block, channels, from + 1);
    }
}

/// Headers hold the opening states, and none names a step index above 88.
pub proof fn headers_hold(openings: Seq<ImaModel>, block: Seq<u8>, channels: int)
    requires
        openings.len() == channels,
        4 * channels <= block.len(),
        forall|ch: int| 0 <= ch < channels ==> (#[trigger] openings[ch]).valid(),
        forall|j: int| 0 <= j < 4 * channels ==> #[trigger] block[j] == header_byte(openings, j),
    ensures
        forall|ch: int| 0 <= ch < channels ==> #[trigger] wav_seed(block, ch) == openings[ch],
        first_bad_index(block, channels, 0) == channels,
{
    assert forall|ch: int| 0 <= ch < channels implies #[trigger] wav_seed(block, ch)
        == openings[ch] by {
        let opening = openings[ch];
        assert(opening.valid());
        word_bytes_round_trip(opening.predictor);
        let j = 4 * ch;
        assert(j / 4 == ch && j % 4 == 0);
        assert((j + 1) / 4 == ch && (j + 1) % 4 == 1);
        assert((j + 2) / 4 == ch && (j + 2) % 4 == 2);
        assert(block[j] == header_byte(openings, j));
        assert(block[j + 1] == header_byte(openings, j + 1));
        assert(block[j + 2] == header_byte(openings, j + 2));
    }
    assert forall|ch: int| 0 <= ch < channels implies (#[trigger] wav_seed(
        block,
        ch,
    )).step_index <= 88 by {
        assert(openings[ch].valid());
    }
    no_bad_index(block, channels, 0);
}

/// Opening states and codes that a block can hold.
pub open spec fn fit_for_blocks(openings: Seq<ImaModel>, codes: Seq<Seq<int>>, n: int) -> bool {
    &&& codes.len() == openings.len()
    &&& forall|ch: int| 0 <= ch < openings.len() ==> (#[trigger] openings[ch]).valid()
    &&& forall|ch: int| 0 <= ch < codes.len() ==> (#[trigger] codes[ch]).len() == n
    &&& forall|ch: int, k: int|
        0 <= ch < codes.len() && 0 <= k < n ==> 0 <= #[trigger] codes[ch][k] < 16
}

/// A WAV block can be decoded, and holds the opening state and the codes of
/// every channel.
pub proof fn wav_layout_holds(
    openings: Seq<ImaModel>,
    codes: Seq<Seq<int>>,
    channels: int,
    groups: int,
)
    requires
        1 <= channels <= 8,
        0 <= groups,
        openings.len() == channels,
        fit_for_blocks(openings, codes, 8 * groups),
    ensures
        ({
            let block = wav_layout(openings, codes, channels, 4 * channels * groups);
            &&& wav_error(block, channels, 4, Component::ImaWav) is None
            &&& block.len() == 4 * channels + 4 * channels * groups
            &&& forall|ch: int|
                0 <= ch < channels ==> #[trigger] wav_seed(block, ch) == openings[ch]
            &&& forall|ch: int|
                0 <= ch < channels ==> #[trigger] wav_codes4(block, channels, ch) == codes[ch]
        }),
{
    let block = wav_layout(openings, codes, channels, 4 * channels * groups);
    assert(4 * channels * groups >= 0) by (nonlinear_arith)
        requires
            channels >= 0,
            groups >= 0,
    ;
    headers_hold(openings, block, channels);
    assert((4 * channels * groups) % (4 * channels) == 0 && (4 * channels * groups) / (4 * channels)
        == groups) by {
        vstd::arithmetic::mul::lemma_mul_is_commutative(4 * channels, groups);
        vstd::arithmetic::div_mod::lemma_mod_multiples_basic(groups, 4 * channels);
        vstd::arithmetic::div_mod::lemma_div_multiples_vanish(groups, 4 * channels);
    }
    assert forall|ch: int| 0 <= ch < channels implies #[trigger] wav_codes4(block, channels, ch)
        == codes[ch] by {
        wav_layout_stream(openings, codes, channels, groups, ch);
    }
}

/// A WAV block holds the codes of a channel.
proof fn wav_layout_stream(
    openings: Seq<ImaModel>,
    codes: Seq<Seq<int>>,
    channels: int,
    groups: int,
    ch: int,
)
    requires
        1 <= channels <= 8,
        0 <= groups,
        openings.len() == channels,
        fit_for_blocks(openings, codes, 8 * groups),
        0 <= ch < channels,
        (4 * channels * groups) / (4 * channels) == groups,
        4 * channels * groups >= 0,
    ensures
        wav_codes4(wav_layout(openings, codes, channels, 4 * channels * groups), channels, ch)
            == codes[ch],
{
    let block = wav_layout(openings, codes, channels, 4 * channels * groups);
    let got = wav_codes4(block, channels, ch);
    assert(codes[ch].len() == 8 * groups);
    assert forall|k: int| 0 <= k < 8 * groups implies got[k] == codes[ch][k] by {
        let g = k / 8;
        let i = (k % 8) / 2;
        let within = 4 * ch + i;
        let j = g * (4 * channels) + within;
        place(g, within, 4 * channels, groups);
        assert(groups * (4 * channels) == 4 * channels * groups) by (nonlinear_arith);
        assert(within / 4 == ch && within % 4 == i);
        let even = 8 * g + 2 * i;
        nibble_pair(codes[ch][even], codes[ch][even + 1]);
        assert(block[4 * channels + j] == (codes[ch][even] + 16 * codes[ch][even + 1]) as u8);
        assert(k == even || k == even + 1);
    }
    assert(got =~= codes[ch]);
}

/// A sample rounded down to a multiple of 128 and a seven-bit number share a
/// word.
proof fn preamble_word(predictor: int, index: int)
    requires
        -32768 <= predictor <= 32767,
        predictor % 128 == 0,
        0 <= index <= 88,
    ensures
        ({
            let x = predictor + index;
            let word = 256 * high_byte(x) + low_byte(x);
            signed16(word) - word % 128 == predictor && word % 128 == index
        }),
{
    let x = predictor + index;
    let word = 256 * high_byte(x) + low_byte(x);
    word_bytes_round_trip(x);
    assert(word == x || word == x + 65536);
    assert(x % 128 == index);
    assert((x + 65536) % 128 == index);
}

/// QuickTime blocks hold the opening state and the codes of every channel.
pub proof fn qt_layout_holds(openings: Seq<ImaModel>, codes: Seq<Seq<int>>, channels: int, ch: int)
    requires
        openings.len() == channels,
        fit_for_blocks(openings, codes, 64),
        0 <= ch < channels,
        openings[ch].predictor % 128 == 0,
    ensures
        qt_seed(qt_layout(openings, codes, channels), ch) == openings[ch],
        qt_codes(qt_layout(openings, codes, channels), ch) == codes[ch],
{
    let data = qt_layout(openings, codes, channels);
    let opening = openings[ch];
    let at = 34 * ch;
    assert(at / 34 == ch && at % 34 == 0);
    assert((at + 1) / 34 == ch && (at + 1) % 34 == 1);
    preamble_word(opening.predictor, opening.step_index);
    let got = qt_codes(data, ch);
    assert(codes[ch].len() == 64);
    assert forall|k: int| 0 <= k < 64 implies got[k] == codes[ch][k] by {
        let r = 2 + k / 2;
        assert((at + r) / 34 == ch && (at + r) % 34 == r);
        let even = 2 * (k / 2);
        nibble_pair(codes[ch][even], codes[ch][even + 1]);
        assert(data[at + r] == (codes[ch][even] + 16 * codes[ch][even + 1]) as u8);
        assert(k == even || k == even + 1);
    }
    assert(got =~= codes[ch]);
}

} // verus!
