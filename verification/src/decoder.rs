//! Decoding packets to frames: one state machine for the whole family.
//!
//! A packet is decoded when it arrives. Its frame waits until it is taken, and
//! the next packet is refused until then.

use vstd::prelude::*;
use vstd::slice::slice_subrange;

use crate::bits::{feed_split, joined, leftover_short, pieces_range, BitOrder, BitUnpacker};
use crate::config::{config_of, g726_rate, read_config, ConfigModel, DecoderConfig};
use crate::dialogic::{
    self, vox_samples, vox_stepper, vox_stream_valid, NibbleOrder, VoxModel,
};
use crate::error::{Component, Error};
use crate::g711::Law;
use crate::g726::{
    code_count_is_power, fed_codes, fed_rest, initial, stepper, wav_block_len, CodecModel, Rate,
    State,
};
use crate::g726_packets::{
    all_at, codec_models, decode_lanes, g726_samples, place_behind, strip_aux, without_aux,
    without_aux_split,
};
use crate::ima_qt::{decode_block as qt_decode_block, qt_error, qt_samples, QT_BLOCK_SIZE};
use crate::ima_wav::{
    decode_block as wav_decode_block, decode_block_3bit, wav_error, wav_groups, wav_samples3,
    wav_samples4,
};
use crate::lanes::{
    code_seq, lanes_run, lanes_run_len, lanes_run_prefix, lanes_split, packet_codes, same_turn,
};
use crate::ms::{
    decode_block as ms_decode_block, decode_block_with_coeffs, ms_code_count, ms_error, ms_samples,
    CoefPair, STANDARD_COEFFS,
};
use crate::options::G726Framing;
use crate::params::CodecParams;
use crate::pcm::{pcm_bytes, samples_to_bytes};
use crate::stream_laws::{rhythm_split, vox_split, yamaha_split};
pub use crate::variant::{Shape, Variant};
use crate::yamaha::{
    self, yamaha_samples, yamaha_stepper, yamaha_stream_valid, Chip, YamahaModel,
};
use crate::yamaha_a::{self, rhythm_samples, rhythm_stepper, RhythmModel};

verus! {

// ---- Blocks ----

/// The coefficient sets that a decoder goes by.
pub open spec fn coeffs_of(config: ConfigModel) -> Seq<CoefPair> {
    match config.coeffs {
        Some(c) => c,
        None => STANDARD_COEFFS@,
    }
}

/// What one block decodes to.
#[verifier::opaque]
pub open spec fn block_result(config: ConfigModel, block: Seq<u8>) -> Result<Seq<i16>, Error> {
    let channels = config.channels as int;
    match config.variant {
        Variant::Ms => {
            let coeffs = coeffs_of(config);
            match ms_error(block, channels, coeffs.len() as int) {
                Some(e) => Err(e),
                None => Ok(ms_samples(block, channels, coeffs)),
            }
        },
        Variant::ImaWav => if config.width == 3 {
            match wav_error(block, channels, 12, Component::ImaWav3Bit) {
                Some(e) => Err(e),
                None => Ok(wav_samples3(block, channels)),
            }
        } else {
            match wav_error(block, channels, 4, Component::ImaWav) {
                Some(e) => Err(e),
                None => Ok(wav_samples4(block, channels)),
            }
        },
        _ => match qt_error(block.len() as int, channels) {
            Some(e) => Err(e),
            None => Ok(qt_samples(block, channels)),
        },
    }
}

/// Samples in front of a result.
pub open spec fn behind(first: Seq<i16>, rest: Result<Seq<i16>, Error>) -> Result<
    Seq<i16>,
    Error,
> {
    match rest {
        Ok(pcm) => Ok(first + pcm),
        Err(e) => Err(e),
    }
}

/// What blocks of `size` bytes decode to, one behind the other; the last one
/// may be shorter. The first block that cannot be decoded decides.
pub open spec fn blocks_result(config: ConfigModel, data: Seq<u8>, size: int) -> Result<
    Seq<i16>,
    Error,
>
    decreases data.len(),
{
    if size <= 0 || data.len() <= size {
        block_result(config, data)
    } else {
        match block_result(config, data.take(size)) {
            Err(e) => Err(e),
            Ok(pcm) => behind(pcm, blocks_result(config, data.skip(size), size)),
        }
    }
}

/// Decodes one block.
fn decode_one(config: &DecoderConfig, block: &[u8]) -> (r: Result<Vec<i16>, Error>)
    requires
        config@.wf(),
        6 * block@.len() <= isize::MAX,
    ensures
        match r {
            Ok(pcm) => block_result(config@, block@) == Ok::<Seq<i16>, Error>(pcm@),
            Err(e) => block_result(config@, block@) == Err::<Seq<i16>, Error>(e),
        },
{
    let channels: usize = config.channels as usize;
    reveal(block_result);
    match config.variant {
        Variant::Ms => match &config.coeffs {
            Some(coeffs) => decode_block_with_coeffs(block, channels, coeffs.as_slice()),
            None => ms_decode_block(block, channels),
        },
        Variant::ImaWav => {
            if config.width == 3 {
                decode_block_3bit(block, channels)
            } else {
                wav_decode_block(block, channels)
            }
        },
        _ => qt_decode_block(block, channels),
    }
}

/// Decodes the blocks of a packet.
fn decode_blocks(config: &DecoderConfig, data: &[u8], size: usize) -> (r: Result<Vec<i16>, Error>)
    requires
        config@.wf(),
        size > 0,
        6 * data@.len() <= isize::MAX,
    ensures
        match r {
            Ok(pcm) => blocks_result(config@, data@, size as int) == Ok::<Seq<i16>, Error>(pcm@),
            Err(e) => blocks_result(config@, data@, size as int) == Err::<Seq<i16>, Error>(e),
        },
{
    let n: usize = data.len();
    let mut out: Vec<i16> = Vec::new();
    let mut off: usize = 0;
    let ghost total = blocks_result(config@, data@, size as int);
    proof {
        assert(data@.skip(0) =~= data@);
        match total {
            Ok(pcm) => {
                assert(Seq::<i16>::empty() + pcm =~= pcm);
            },
            Err(_) => {},
        }
        assert(behind(out@, total) == total);
    }
    while n - off > size
        invariant
            off <= n == data@.len(),
            size > 0,
            config@.wf(),
            6 * data@.len() <= isize::MAX,
            total == blocks_result(config@, data@, size as int),
            total == behind(out@, blocks_result(config@, data@.skip(off as int), size as int)),
        decreases n - off,
    {
        let block: &[u8] = slice_subrange(data, off, off + size);
        let ghost rest = data@.skip(off as int);
        assert(block@ =~= rest.take(size as int));
        assert(rest.skip(size as int) =~= data@.skip(off + size));
        let mut pcm: Vec<i16> = match decode_one(config, block) {
            Ok(pcm) => pcm,
            Err(e) => {
                return Err(e);
            },
        };
        let ghost before = out@;
        let ghost more = pcm@;
        out.append(&mut pcm);
        proof {
            match blocks_result(config@, data@.skip(off + size), size as int) {
                Ok(tail) => {
                    assert(before + (more + tail) =~= (before + more) + tail);
                },
                Err(_) => {},
            }
        }
        off = off + size;
    }
    let block: &[u8] = slice_subrange(data, off, n);
    assert(block@ =~= data@.skip(off as int));
    match decode_one(config, block) {
        Ok(mut pcm) => {
            out.append(&mut pcm);
            Ok(out)
        },
        Err(e) => Err(e),
    }
}

/// The blocks of a packet decode as they would in packets of their own.
pub proof fn blocks_are_independent(config: ConfigModel, a: Seq<u8>, b: Seq<u8>, size: int)
    requires
        size > 0,
        a.len() > 0,
        a.len() % size as nat == 0,
        b.len() > 0,
    ensures
        blocks_result(config, a + b, size) == (match blocks_result(config, a, size) {
            Err(e) => Err(e),
            Ok(pcm) => behind(pcm, blocks_result(config, b, size)),
        }),
    decreases a.len(),
{
    let whole = a + b;
    vstd::arithmetic::div_mod::lemma_fundamental_div_mod(a.len() as int, size);
    let k = a.len() as int / size;
    assert(k >= 1) by (nonlinear_arith)
        requires
            a.len() == size * k,
            a.len() > 0,
            size > 0,
    ;
    assert(a.len() >= size) by (nonlinear_arith)
        requires
            a.len() == size * k,
            k >= 1,
            size > 0,
    ;
    if a.len() == size {
        assert(whole.take(size) =~= a);
        assert(whole.skip(size) =~= b);
    } else {
        let rest = a.skip(size);
        assert(whole.take(size) =~= a.take(size));
        assert(whole.skip(size) =~= rest + b);
        assert(rest.len() % size as nat == 0) by {
            vstd::arithmetic::div_mod::lemma_mod_sub_multiples_vanish(a.len() as int, size);
        }
        blocks_are_independent(config, rest, b, size);
        match block_result(config, a.take(size)) {
            Ok(first) => match blocks_result(config, rest, size) {
                Ok(second) => match blocks_result(config, b, size) {
                    Ok(third) => {
                        assert(first + (second + third) =~= (first + second) + third);
                    },
                    Err(_) => {},
                },
                Err(_) => {},
            },
            Err(_) => {},
        }
    }
}

// ---- The state machine ----

/// The samples of one packet, as bytes.
#[derive(Debug)]
pub struct DecodedFrame {
    /// The time stamp of the packet.
    pub pts: Option<i64>,
    /// Samples per channel.
    pub samples: u32,
    /// 16-bit samples, the low byte first, the channels in turns.
    pub data: Vec<u8>,
}

/// The samples of one packet, over mathematical values.
pub struct FrameModel {
    pub pts: Option<i64>,
    pub samples: u32,
    pub data: Seq<u8>,
}

impl View for DecodedFrame {
    type V = FrameModel;

    open spec fn view(&self) -> FrameModel {
        FrameModel { pts: self.pts, samples: self.samples, data: self.data@ }
    }
}

/// A decoder of any variant.
pub struct AdpcmDecoder {
    codec_id: String,
    config: DecoderConfig,
    pending: Option<DecodedFrame>,
    yamaha: Vec<yamaha::Channel>,
    rhythm: Vec<yamaha_a::Channel>,
    vox: Vec<dialogic::Channel>,
    g726: Vec<State>,
    unpacker: BitUnpacker,
    block_pos: u128,
    carry: Vec<u8>,
    eof: bool,
}

/// A decoder over mathematical values.
pub struct DecoderModel {
    /// The name of the codec.
    pub codec_id: Seq<char>,
    /// What the decoder goes by.
    pub config: ConfigModel,
    /// The frame that waits to be taken.
    pub pending: Option<FrameModel>,
    /// The channels of ADPCM-B.
    pub yamaha: Seq<YamahaModel>,
    /// The channels of ADPCM-A.
    pub rhythm: Seq<RhythmModel>,
    /// The channels of VOX.
    pub vox: Seq<VoxModel>,
    /// The channels of G.726.
    pub g726: Seq<CodecModel>,
    /// The bits of a G.726 code that is not complete.
    pub bits: Seq<bool>,
    /// The place of the next byte in its WAV block.
    pub block_pos: int,
    /// The G.726 codes that do not make up a turn of all channels.
    pub carry: Seq<u8>,
    /// Whether the stream has ended.
    pub eof: bool,
}

impl View for AdpcmDecoder {
    type V = DecoderModel;

    closed spec fn view(&self) -> DecoderModel {
        DecoderModel {
            codec_id: self.codec_id@,
            config: self.config@,
            pending: match self.pending {
                Some(frame) => Some(frame@),
                None => None,
            },
            yamaha: yamaha::models(self.yamaha@),
            rhythm: Seq::new(self.rhythm@.len(), |ch: int| self.rhythm@[ch]@),
            vox: dialogic::models(self.vox@),
            g726: codec_models(self.g726@),
            bits: self.unpacker.pending(),
            block_pos: self.block_pos as int,
            carry: self.carry@,
            eof: self.eof,
        }
    }
}

/// A decoder that has not seen a packet.
pub open spec fn fresh_decoder(codec_id: Seq<char>, config: ConfigModel) -> DecoderModel {
    DecoderModel {
        codec_id,
        config,
        pending: None,
        yamaha: Seq::new(config.channels as nat, |ch: int| yamaha::fresh(config.chip)),
        rhythm: Seq::new(config.channels as nat, |ch: int| yamaha_a::fresh()),
        vox: Seq::new(config.channels as nat, |ch: int| dialogic::fresh()),
        g726: Seq::new(config.lanes() as nat, |ch: int| initial(config.rate())),
        bits: Seq::empty(),
        block_pos: 0,
        carry: Seq::empty(),
        eof: false,
    }
}

/// The bytes of a WAV block of G.726.
pub open spec fn g726_block(config: ConfigModel) -> int {
    wav_block_len(config.rate(), config.channels as int, config.aux as int)
}

/// What a packet holds besides auxiliary bytes.
pub open spec fn g726_payload(m: DecoderModel, data: Seq<u8>) -> Seq<u8> {
    if m.config.framing == G726Framing::Wav && m.config.aux > 0 {
        without_aux(data, m.block_pos, m.config.aux as int, g726_block(m.config))
    } else {
        data
    }
}

/// The codes that are there once a packet has come in.
pub open spec fn g726_codes(m: DecoderModel, data: Seq<u8>) -> Seq<u8> {
    m.carry + fed_codes(
        m.bits,
        g726_payload(m, data),
        m.config.rate().width(),
        m.config.bit_order,
    )
}

/// How many of the codes make up whole turns.
pub open spec fn g726_whole(m: DecoderModel, data: Seq<u8>) -> int {
    let n = g726_codes(m, data).len() as int;
    n - n % (m.g726.len() as int)
}

/// The codes of whole turns.
pub open spec fn g726_used(m: DecoderModel, data: Seq<u8>) -> Seq<int> {
    code_seq(g726_codes(m, data).take(g726_whole(m, data)))
}

/// The decoder behind a packet of G.726.
pub open spec fn after_g726(m: DecoderModel, data: Seq<u8>) -> DecoderModel {
    let w = m.config.rate().width();
    let used = g726_used(m, data);
    DecoderModel {
        g726: lanes_run(m.g726, used, stepper(), used.len() as int),
        bits: fed_rest(m.bits, g726_payload(m, data), w, m.config.bit_order),
        block_pos: if m.config.framing == G726Framing::Wav && m.config.aux > 0 {
            place_behind(m.block_pos, data.len() as int, g726_block(m.config))
        } else {
            m.block_pos
        },
        carry: g726_codes(m, data).skip(g726_whole(m, data)),
        ..m
    }
}

/// The samples of a packet.
pub open spec fn packet_result(m: DecoderModel, data: Seq<u8>) -> Result<Seq<i16>, Error> {
    let c = m.config;
    match c.variant {
        Variant::Ms | Variant::ImaWav => blocks_result(
            c,
            data,
            match c.block_align {
                Some(n) => n as int,
                None => data.len() as int,
            },
        ),
        Variant::ImaQt => {
            let block = 34 * c.channels as int;
            if data.len() as int % block != 0 {
                Err(
                    Error::PacketLength {
                        len: data.len() as usize,
                        block: block as usize,
                        channels: c.channels as usize,
                    },
                )
            } else {
                blocks_result(c, data, block)
            }
        },
        Variant::Yamaha => Ok(yamaha_samples(m.yamaha, packet_codes(data, true))),
        Variant::YamahaA => Ok(
            rhythm_samples(m.rhythm[0], packet_codes(data, true), yamaha_a::Output::Wide16),
        ),
        Variant::Dialogic => Ok(
            vox_samples(
                m.vox,
                packet_codes(data, c.nibble_order is LoFirst),
                dialogic::Output::Wide16,
            ),
        ),
        Variant::G726 => Ok(g726_samples(m.g726, g726_used(m, data), c.law)),
    }
}

/// The decoder behind the codes of a packet. Blocks leave nothing behind.
pub open spec fn after_codes(m: DecoderModel, data: Seq<u8>) -> DecoderModel {
    match m.config.variant {
        Variant::Ms | Variant::ImaWav | Variant::ImaQt => m,
        Variant::Yamaha => DecoderModel {
            yamaha: lanes_run(
                m.yamaha,
                packet_codes(data, true),
                yamaha_stepper(),
                2 * data.len() as int,
            ),
            ..m
        },
        Variant::YamahaA => DecoderModel {
            rhythm: m.rhythm.update(
                0,
                lanes_run(
                    seq![m.rhythm[0]],
                    packet_codes(data, true),
                    rhythm_stepper(),
                    2 * data.len() as int,
                )[0],
            ),
            ..m
        },
        Variant::Dialogic => DecoderModel {
            vox: lanes_run(
                m.vox,
                packet_codes(data, m.config.nibble_order is LoFirst),
                vox_stepper(),
                2 * data.len() as int,
            ),
            ..m
        },
        Variant::G726 => after_g726(m, data),
    }
}

/// The frame of samples.
pub open spec fn frame_of(pcm: Seq<i16>, channels: int, pts: Option<i64>) -> FrameModel {
    FrameModel {
        pts,
        samples: ((pcm.len() as int / channels) % 4294967296) as u32,
        data: pcm_bytes(pcm),
    }
}

/// The frame of a packet without bytes.
pub open spec fn empty_frame(pts: Option<i64>) -> FrameModel {
    FrameModel { pts, samples: 0, data: Seq::empty() }
}

/// Why a packet is refused.
pub open spec fn packet_error(m: DecoderModel, data: Seq<u8>) -> Option<Error> {
    if m.pending is Some {
        Some(Error::FramePending)
    } else if data.len() == 0 {
        None
    } else {
        match packet_result(m, data) {
            Err(e) => Some(e),
            Ok(pcm) => if pcm.len() as int % m.config.channels as int != 0 {
                Some(
                    Error::UnevenOutput {
                        samples: pcm.len() as usize,
                        channels: m.config.channels as usize,
                    },
                )
            } else {
                None
            },
        }
    }
}

/// The decoder behind a packet.
pub open spec fn after_packet(m: DecoderModel, data: Seq<u8>, pts: Option<i64>) -> DecoderModel {
    if m.pending is Some {
        m
    } else if data.len() == 0 {
        DecoderModel { pending: Some(empty_frame(pts)), ..m }
    } else {
        match packet_result(m, data) {
            Err(_) => m,
            Ok(pcm) => if pcm.len() as int % m.config.channels as int != 0 {
                after_codes(m, data)
            } else {
                DecoderModel {
                    pending: Some(frame_of(pcm, m.config.channels as int, pts)),
                    ..after_codes(m, data)
                }
            },
        }
    }
}

impl AdpcmDecoder {
    /// The states fit the configuration.
    pub closed spec fn wf(self) -> bool {
        let c = self.config@;
        &&& c.wf()
        &&& self.yamaha@.len() == c.channels
        &&& forall|ch: int| 0 <= ch < c.channels ==> (#[trigger] self@.yamaha[ch]).valid()
        &&& self.rhythm@.len() == c.channels
        &&& self.vox@.len() == c.channels
        &&& forall|ch: int| 0 <= ch < c.channels ==> (#[trigger] self@.vox[ch]).valid()
        &&& self.g726@.len() == c.lanes()
        &&& all_at(self.g726@, c.rate())
        &&& self.unpacker.wf()
        &&& self.unpacker.bit_order() == c.bit_order
        &&& self.unpacker.pending().len() < c.rate().width()
        &&& self.block_pos < g726_block(c)
        &&& self.carry@.len() < c.lanes()
        &&& forall|k: int|
            0 <= k < self.carry@.len() ==> (#[trigger] self.carry@[k]) < c.rate().code_count()
    }
}

/// Fresh channels of ADPCM-B.
fn fresh_yamaha(chip: Chip, channels: u16) -> (r: Vec<yamaha::Channel>)
    ensures
        yamaha::models(r@) == Seq::new(channels as nat, |ch: int| yamaha::fresh(chip)),
{
    let r: Vec<yamaha::Channel> = vec![yamaha::Channel::for_chip(chip); channels as usize];
    assert(yamaha::models(r@) =~= Seq::new(channels as nat, |ch: int| yamaha::fresh(chip)));
    r
}

/// Fresh channels of ADPCM-A.
fn fresh_rhythm(channels: u16) -> (r: Vec<yamaha_a::Channel>)
    ensures
        Seq::new(r@.len(), |ch: int| r@[ch]@) == Seq::new(
            channels as nat,
            |ch: int| yamaha_a::fresh(),
        ),
        r@.len() == channels,
{
    let r: Vec<yamaha_a::Channel> = vec![
        yamaha_a::Channel { acc: 0, step_index: 0 };
        channels as usize
    ];
    assert(Seq::new(r@.len(), |ch: int| r@[ch]@) =~= Seq::new(
        channels as nat,
        |ch: int| yamaha_a::fresh(),
    ));
    r
}

/// Fresh channels of VOX.
fn fresh_vox(channels: u16) -> (r: Vec<dialogic::Channel>)
    ensures
        dialogic::models(r@) == Seq::new(channels as nat, |ch: int| dialogic::fresh()),
{
    let r: Vec<dialogic::Channel> = vec![
        dialogic::Channel { predictor: 0, step_index: 0 };
        channels as usize
    ];
    assert(dialogic::models(r@) =~= Seq::new(channels as nat, |ch: int| dialogic::fresh()));
    r
}

/// Fresh channels of G.726.
fn fresh_g726(rate: Rate, lanes: u16) -> (r: Vec<State>)
    ensures
        codec_models(r@) == Seq::new(lanes as nat, |ch: int| initial(rate)),
        all_at(r@, rate),
{
    let st: State = State::new(rate);
    let r: Vec<State> = vec![st; lanes as usize];
    assert forall|ch: int| 0 <= ch < r@.len() implies (#[trigger] r@[ch]) == st by {}
    assert(codec_models(r@) =~= Seq::new(lanes as nat, |ch: int| initial(rate)));
    r
}

impl AdpcmDecoder {
    /// A decoder that has not seen a packet.
    pub fn new(codec_id: String, config: DecoderConfig) -> (r: AdpcmDecoder)
        requires
            config@.wf(),
        ensures
            r.wf(),
            r@ == fresh_decoder(codec_id@, config@),
    {
        let rate: Rate = g726_rate(config.width);
        let lanes: u16 = if config.framing == G726Framing::Wav {
            config.channels
        } else {
            1
        };
        let yamaha: Vec<yamaha::Channel> = fresh_yamaha(config.chip, config.channels);
        let rhythm: Vec<yamaha_a::Channel> = fresh_rhythm(config.channels);
        let vox: Vec<dialogic::Channel> = fresh_vox(config.channels);
        let g726: Vec<State> = fresh_g726(rate, lanes);
        let unpacker: BitUnpacker = BitUnpacker::new(config.bit_order);
        let r: AdpcmDecoder = AdpcmDecoder {
            codec_id,
            config,
            pending: None,
            yamaha,
            rhythm,
            vox,
            g726,
            unpacker,
            block_pos: 0,
            carry: Vec::new(),
            eof: false,
        };
        proof {
            block_is_positive(config@);
            assert(yamaha::models(yamaha@).len() == config.channels);
            assert(dialogic::models(vox@).len() == config.channels);
            assert(codec_models(g726@).len() == config@.lanes());
            assert(r@.carry =~= Seq::<u8>::empty());
        }
        r
    }

    /// The name of the codec.
    pub fn codec_id(&self) -> (r: &str)
        ensures
            r@ == self@.codec_id,
    {
        self.codec_id.as_str()
    }

    /// Takes the frame that waits.
    pub fn receive_frame(&mut self) -> (r: Result<DecodedFrame, Error>)
        requires
            old(self).wf(),
        ensures
            final(self).wf(),
            match r {
                Ok(frame) => old(self)@.pending == Some(frame@),
                Err(e) => {
                    &&& old(self)@.pending is None
                    &&& e == (if old(self)@.eof {
                        Error::EndOfStream
                    } else {
                        Error::NeedMore
                    })
                },
            },
            final(self)@ == (DecoderModel { pending: None, ..old(self)@ }),
    {
        match self.pending.take() {
            Some(frame) => Ok(frame),
            None => {
                if self.eof {
                    Err(Error::EndOfStream)
                } else {
                    Err(Error::NeedMore)
                }
            },
        }
    }

    /// Marks the end of the stream.
    pub fn flush(&mut self)
        requires
            old(self).wf(),
        ensures
            final(self).wf(),
            final(self)@ == (DecoderModel { eof: true, ..old(self)@ }),
    {
        self.eof = true;
    }

    /// Forgets everything but what the decoder goes by.
    pub fn reset(&mut self)
        requires
            old(self).wf(),
        ensures
            final(self).wf(),
            final(self)@ == fresh_decoder(old(self)@.codec_id, old(self)@.config),
    {
        self.pending = None;
        self.eof = false;
        self.yamaha = fresh_yamaha(self.config.chip, self.config.channels);
        self.rhythm = fresh_rhythm(self.config.channels);
        self.vox = fresh_vox(self.config.channels);
        let rate: Rate = g726_rate(self.config.width);
        let lanes: u16 = if self.config.framing == G726Framing::Wav {
            self.config.channels
        } else {
            1
        };
        self.g726 = fresh_g726(rate, lanes);
        self.unpacker = BitUnpacker::new(self.config.bit_order);
        self.block_pos = 0;
        self.carry = Vec::new();
        proof {
            block_is_positive(self.config@);
            assert(yamaha::models(self.yamaha@).len() == self.config.channels);
            assert(dialogic::models(self.vox@).len() == self.config.channels);
            assert(codec_models(self.g726@).len() == self.config@.lanes());
            assert(self@.carry =~= Seq::<u8>::empty());
        }
    }
}

/// A WAV block of G.726 holds at least its sub-blocks.
proof fn block_is_positive(config: ConfigModel)
    requires
        config.wf(),
    ensures
        0 < g726_block(config),
        config.aux < g726_block(config) <= 5242800 + config.aux,
{
    let w = config.rate().width();
    let channels = config.channels as int;
    assert(16 <= 16 * w * channels <= 5242800) by (nonlinear_arith)
        requires
            2 <= w <= 5,
            1 <= channels <= 65535,
    ;
}

/// Builds the decoder of a stream.
pub fn make_decoder(params: &CodecParams) -> (r: Result<AdpcmDecoder, Error>)
    ensures
        match r {
            Ok(decoder) => {
                &&& config_of(params@) is Ok
                &&& decoder.wf()
                &&& decoder@ == fresh_decoder(params@.codec_id, config_of(params@)->Ok_0)
            },
            Err(e) => config_of(params@) == Err::<ConfigModel, Error>(e),
        },
{
    match read_config(params) {
        Ok(config) => Ok(AdpcmDecoder::new(params.codec_id.as_str().to_owned(), config)),
        Err(e) => Err(e),
    }
}

impl AdpcmDecoder {
    /// Decodes a packet of G.726.
    fn decode_g726(&mut self, data: &[u8]) -> (out: Vec<i16>)
        requires
            old(self).wf(),
        ensures
            final(self).wf(),
            out@ == g726_samples(
                old(self)@.g726,
                g726_used(old(self)@, data@),
                old(self)@.config.law,
            ),
            final(self)@ == after_g726(old(self)@, data@),
    {
        let ghost m = self@;
        let ghost rate = m.config.rate();
        let ghost w = rate.width();
        let rate_now: Rate = g726_rate(self.config.width);
        let bits: u8 = rate_now.bits();
        let mut codes: Vec<u8> = Vec::new();
        codes.append(&mut self.carry);
        if self.config.framing == G726Framing::Wav && self.config.aux > 0 {
            proof {
                block_is_positive(m.config);
                assert(16 * bits * self.config.channels == 16 * w * m.config.channels as int);
                assert(16 * bits * self.config.channels <= 80 * self.config.channels)
                    by (nonlinear_arith)
                    requires
                        bits <= 5,
                        self.config.channels >= 0,
                ;
            }
            let block: u128 = 16 * bits as u128 * self.config.channels as u128
                + self.config.aux as u128;
            let cut: (Vec<u8>, u128) = strip_aux(data, self.block_pos, self.config.aux, block);
            self.block_pos = cut.1;
            self.unpacker.feed(cut.0.as_slice(), bits, &mut codes);
        } else {
            self.unpacker.feed(data, bits, &mut codes);
        }
        let ghost all = g726_codes(m, data@);
        assert(codes@ =~= all);
        proof {
            code_count_is_power(rate);
            let payload = g726_payload(m, data@);
            assert forall|k: int| 0 <= k < all.len() implies (#[trigger] all[k])
                < rate.code_count() by {
                if k >= m.carry.len() {
                    pieces_range(
                        m.bits + joined(payload, 8, m.config.bit_order),
                        w,
                        m.config.bit_order,
                        k - m.carry.len(),
                    );
                }
            }
            leftover_short(m.bits + joined(payload, 8, m.config.bit_order), w);
        }
        let lanes: usize = self.g726.len();
        let rest: usize = codes.len() % lanes;
        proof {
            vstd::arithmetic::div_mod::lemma_mod_decreases(codes@.len(), lanes as nat);
        }
        let whole: usize = codes.len() - rest;
        self.carry = codes.split_off(whole);
        assert(codes@ =~= all.take(g726_whole(m, data@)));
        assert(self.carry@ =~= all.skip(g726_whole(m, data@)));
        let out: Vec<i16> = decode_lanes(&mut self.g726, codes.as_slice(), self.config.law);
        out
    }
}

impl AdpcmDecoder {
    /// Decodes a packet that holds bytes. The frame that waits is not touched.
    pub fn decode_packet(&mut self, data: &[u8]) -> (r: Result<Vec<i16>, Error>)
        requires
            old(self).wf(),
            data@.len() > 0,
            6 * data@.len() <= isize::MAX,
        ensures
            final(self).wf(),
            match r {
                Ok(pcm) => {
                    &&& packet_result(old(self)@, data@) == Ok::<Seq<i16>, Error>(pcm@)
                    &&& final(self)@ == after_codes(old(self)@, data@)
                },
                Err(e) => {
                    &&& packet_result(old(self)@, data@) == Err::<Seq<i16>, Error>(e)
                    &&& final(self)@ == old(self)@
                },
            },
    {
        let channels: usize = self.config.channels as usize;
        match self.config.variant {
            Variant::Ms | Variant::ImaWav => {
                let size: usize = match self.config.block_align {
                    Some(n) => n,
                    None => data.len(),
                };
                decode_blocks(&self.config, data, size)
            },
            Variant::ImaQt => {
                let block: usize = QT_BLOCK_SIZE * channels;
                if data.len() % block != 0 {
                    return Err(Error::PacketLength { len: data.len(), block, channels });
                }
                decode_blocks(&self.config, data, block)
            },
            Variant::Yamaha => Ok(self.decode_yamaha(data)),
            Variant::YamahaA => Ok(self.decode_rhythm(data)),
            Variant::Dialogic => Ok(self.decode_vox(data)),
            Variant::G726 => Ok(self.decode_g726(data)),
        }
    }

    /// Decodes a packet of ADPCM-B.
    fn decode_yamaha(&mut self, data: &[u8]) -> (out: Vec<i16>)
        requires
            old(self).wf(),
            old(self)@.config.variant == Variant::Yamaha,
            2 * data@.len() <= usize::MAX,
        ensures
            final(self).wf(),
            packet_result(old(self)@, data@) == Ok::<Seq<i16>, Error>(out@),
            final(self)@ == after_codes(old(self)@, data@),
    {
        let ghost m = self@;
        let ghost codes = packet_codes(data@, true);
        proof {
            yamaha_stream_valid(m.yamaha, codes);
        }
        let out: Vec<i16> = yamaha::decode_packet(data, self.yamaha.as_mut_slice());
        proof {
            assert(out@ == yamaha_samples(m.yamaha, codes));
            assert(self@.yamaha == lanes_run(
                m.yamaha,
                codes,
                yamaha_stepper(),
                codes.len() as int,
            ));
            assert(self@ == after_codes(m, data@));
        }
        out
    }

    /// Decodes a packet of ADPCM-A.
    fn decode_rhythm(&mut self, data: &[u8]) -> (out: Vec<i16>)
        requires
            old(self).wf(),
            old(self)@.config.variant == Variant::YamahaA,
            2 * data@.len() <= usize::MAX,
        ensures
            final(self).wf(),
            packet_result(old(self)@, data@) == Ok::<Seq<i16>, Error>(out@),
            final(self)@ == after_codes(old(self)@, data@),
    {
        let out: Vec<i16> = yamaha_a::decode_packet(
            data,
            self.rhythm.as_mut_slice(),
            yamaha_a::Output::Wide16,
        );
        assert(self@.rhythm =~= after_codes(old(self)@, data@).rhythm);
        out
    }

    /// Decodes a packet of VOX.
    fn decode_vox(&mut self, data: &[u8]) -> (out: Vec<i16>)
        requires
            old(self).wf(),
            old(self)@.config.variant == Variant::Dialogic,
            2 * data@.len() <= usize::MAX,
        ensures
            final(self).wf(),
            packet_result(old(self)@, data@) == Ok::<Seq<i16>, Error>(out@),
            final(self)@ == after_codes(old(self)@, data@),
    {
        let order: NibbleOrder = self.config.nibble_order;
        let ghost m = self@;
        let ghost codes = packet_codes(data@, order is LoFirst);
        proof {
            vox_stream_valid(m.vox, codes);
        }
        let out: Vec<i16> = dialogic::decode_packet(
            data,
            self.vox.as_mut_slice(),
            order,
            dialogic::Output::Wide16,
        );
        proof {
            assert(out@ == vox_samples(m.vox, codes, dialogic::Output::Wide16));
            assert(self@.vox == lanes_run(m.vox, codes, vox_stepper(), codes.len() as int));
            assert(self@ == after_codes(m, data@));
        }
        out
    }

    /// Decodes a packet. Its frame then waits to be taken.
    pub fn send_packet(&mut self, data: &[u8], pts: Option<i64>) -> (r: Result<(), Error>)
        requires
            old(self).wf(),
            6 * data@.len() <= isize::MAX,
        ensures
            final(self).wf(),
            match r {
                Ok(_) => packet_error(old(self)@, data@) is None,
                Err(e) => packet_error(old(self)@, data@) == Some(e),
            },
            final(self)@ == after_packet(old(self)@, data@, pts),
    {
        if self.pending.is_some() {
            return Err(Error::FramePending);
        }
        if data.len() == 0 {
            self.pending = Some(DecodedFrame { pts, samples: 0, data: Vec::new() });
            assert(self@.pending->0.data =~= Seq::<u8>::empty());
            return Ok(());
        }
        let channels: usize = self.config.channels as usize;
        let pcm: Vec<i16> = match self.decode_packet(data) {
            Ok(pcm) => pcm,
            Err(e) => {
                return Err(e);
            },
        };
        let total: usize = pcm.len();
        if total % channels != 0 {
            return Err(Error::UnevenOutput { samples: total, channels });
        }
        let per_channel: u64 = (total / channels) as u64;
        let samples: u32 = (per_channel % 4294967296) as u32;
        let bytes: Vec<u8> = samples_to_bytes(pcm.as_slice());
        self.pending = Some(DecodedFrame { pts, samples, data: bytes });
        Ok(())
    }
}

// ---- What holds of the decoder as a whole ----

/// The states of a decoder fit its configuration.
pub open spec fn states_fit(m: DecoderModel) -> bool {
    &&& m.config.wf()
    &&& m.yamaha.len() == m.config.channels
    &&& m.rhythm.len() == m.config.channels
    &&& m.vox.len() == m.config.channels
    &&& m.g726.len() == m.config.lanes()
    &&& m.bits.len() < m.config.rate().width()
    &&& 0 <= m.block_pos < g726_block(m.config)
    &&& m.carry.len() < m.config.lanes()
}

/// The states of every decoder fit its configuration.
pub proof fn decoders_fit(d: AdpcmDecoder)
    requires
        d.wf(),
    ensures
        states_fit(d@),
{
}

/// The number of blocks of `size` bytes in a packet; the last one may be shorter.
pub open spec fn block_count(len: int, size: int) -> int {
    (len + size - 1) / size
}

/// Block `k` of a packet.
pub open spec fn packet_block(data: Seq<u8>, size: int, k: int) -> Seq<u8> {
    data.subrange(
        k * size,
        if (k + 1) * size < data.len() {
            (k + 1) * size
        } else {
            data.len() as int
        },
    )
}

/// The samples of the first `k` blocks of a packet, one block behind the other.
pub open spec fn blocks_pcm(config: ConfigModel, data: Seq<u8>, size: int, k: int) -> Seq<i16>
    decreases k,
{
    if k <= 0 {
        Seq::empty()
    } else {
        blocks_pcm(config, data, size, k - 1) + block_result(
            config,
            packet_block(data, size, k - 1),
        )->Ok_0
    }
}

/// Where the blocks of a packet lie.
proof fn block_places(len: int, size: int)
    requires
        size > 0,
        len > 0,
    ensures
        block_count(len, size) >= 1,
        (block_count(len, size) - 1) * size < len <= block_count(len, size) * size,
{
    let n = block_count(len, size);
    vstd::arithmetic::div_mod::lemma_fundamental_div_mod(len + size - 1, size);
    vstd::arithmetic::div_mod::lemma_mod_bound(len + size - 1, size);
    vstd::arithmetic::mul::lemma_mul_is_commutative(size, n);
    assert((n - 1) * size == n * size - size) by (nonlinear_arith);
    assert(n >= 1) by (nonlinear_arith)
        requires
            n * size >= len,
            len > 0,
            size > 0,
    ;
}

/// The first `k` blocks, then the rest.
proof fn blocks_in_order(config: ConfigModel, data: Seq<u8>, size: int, k: int)
    requires
        size > 0,
        data.len() > 0,
        0 <= k < block_count(data.len() as int, size),
        forall|i: int|
            0 <= i < block_count(data.len() as int, size) ==> (#[trigger] block_result(
                config,
                packet_block(data, size, i),
            )) is Ok,
    ensures
        0 <= k * size < data.len(),
        blocks_result(config, data, size) == behind(
            blocks_pcm(config, data, size, k),
            blocks_result(config, data.skip(k * size), size),
        ),
    decreases k,
{
    let len = data.len() as int;
    let n = block_count(len, size);
    block_places(len, size);
    assert(0 <= k * size <= (n - 1) * size) by (nonlinear_arith)
        requires
            0 <= k <= n - 1,
            size > 0,
    ;
    if k == 0 {
        assert(data.skip(0) =~= data);
        match blocks_result(config, data, size) {
            Ok(pcm) => {
                assert(Seq::<i16>::empty() + pcm =~= pcm);
            },
            Err(_) => {},
        }
    } else {
        blocks_in_order(config, data, size, k - 1);
        let rest = data.skip((k - 1) * size);
        assert(k * size == (k - 1) * size + size) by (nonlinear_arith);
        assert((k - 1 + 1) * size == k * size);
        let block = packet_block(data, size, k - 1);
        assert(rest.take(size) =~= block);
        assert(rest.skip(size) =~= data.skip(k * size));
        assert(block_result(config, block) is Ok);
        let before = blocks_pcm(config, data, size, k - 1);
        match blocks_result(config, data.skip(k * size), size) {
            Ok(tail) => {
                let more = block_result(config, block)->Ok_0;
                assert(before + (more + tail) =~= (before + more) + tail);
            },
            Err(_) => {},
        }
    }
}

/// A packet of several blocks that can all be decoded gives the samples of its
/// blocks, one block behind the other.
pub proof fn blocks_one_by_one(config: ConfigModel, data: Seq<u8>, size: int)
    requires
        size > 0,
        data.len() > 0,
        forall|i: int|
            0 <= i < block_count(data.len() as int, size) ==> (#[trigger] block_result(
                config,
                packet_block(data, size, i),
            )) is Ok,
    ensures
        blocks_result(config, data, size) == Ok::<Seq<i16>, Error>(
            blocks_pcm(config, data, size, block_count(data.len() as int, size)),
        ),
{
    let n = block_count(data.len() as int, size);
    block_places(data.len() as int, size);
    blocks_in_order(config, data, size, n - 1);
    let rest = data.skip((n - 1) * size);
    assert((n - 1 + 1) * size == (n - 1) * size + size) by (nonlinear_arith);
    assert(rest =~= packet_block(data, size, n - 1));
    assert(block_result(config, packet_block(data, size, n - 1)) is Ok);
}

/// A block decodes to whole turns of all channels.
proof fn block_turns(config: ConfigModel, block: Seq<u8>)
    requires
        config.wf(),
        config.variant == Variant::Ms || config.variant == Variant::ImaWav,
        block_result(config, block) is Ok,
    ensures
        block_result(config, block)->Ok_0.len() % config.channels as nat == 0,
{
    reveal(block_result);
    let c = config.channels as int;
    let body4 = block.len() - 4 * c;
    let n: int = if config.variant == Variant::Ms {
        2 + ms_code_count(block.len() as int, c)
    } else if config.width == 3 {
        1 + 32 * wav_groups(block.len() as int, c, 12)
    } else {
        1 + 8 * wav_groups(block.len() as int, c, 4)
    };
    if config.variant == Variant::Ms {
        vstd::arithmetic::div_mod::lemma_div_pos_is_pos(2 * (block.len() - 7 * c), c);
    } else {
        vstd::arithmetic::div_mod::lemma_div_pos_is_pos(body4, 12 * c);
        vstd::arithmetic::div_mod::lemma_div_pos_is_pos(body4, 4 * c);
    }
    assert(n * c >= 0) by (nonlinear_arith)
        requires
            n >= 0,
            c >= 0,
    ;
    vstd::arithmetic::div_mod::lemma_mod_multiples_basic(n, c);
}

/// Blocks decode to whole turns of all channels.
proof fn blocks_turns(config: ConfigModel, data: Seq<u8>, size: int, k: int)
    requires
        config.wf(),
        config.variant == Variant::Ms || config.variant == Variant::ImaWav,
        forall|i: int|
            0 <= i < k ==> (#[trigger] block_result(config, packet_block(data, size, i))) is Ok,
    ensures
        blocks_pcm(config, data, size, k).len() % config.channels as nat == 0,
    decreases k,
{
    let c = config.channels as int;
    if k <= 0 {
        vstd::arithmetic::div_mod::lemma_small_mod(0, c as nat);
    } else {
        blocks_turns(config, data, size, k - 1);
        let block = packet_block(data, size, k - 1);
        assert(block_result(config, block) is Ok);
        block_turns(config, block);
        let a = blocks_pcm(config, data, size, k - 1).len() as int;
        let b = block_result(config, block)->Ok_0.len() as int;
        vstd::arithmetic::div_mod::lemma_add_mod_noop(a, b, c);
        vstd::arithmetic::div_mod::lemma_small_mod(0, c as nat);
    }
}

/// A decoder that knows the size of its blocks takes a packet of several blocks
/// that can all be decoded, and its frame holds the samples of the blocks, one
/// block behind the other, under the time stamp of the packet.
pub proof fn packet_of_blocks(m: DecoderModel, data: Seq<u8>, pts: Option<i64>, size: int)
    requires
        m.config.wf(),
        m.pending is None,
        m.config.variant == Variant::Ms || m.config.variant == Variant::ImaWav,
        m.config.block_align matches Some(n) && n == size,
        data.len() > 0,
        forall|i: int|
            0 <= i < block_count(data.len() as int, size) ==> (#[trigger] block_result(
                m.config,
                packet_block(data, size, i),
            )) is Ok,
    ensures
        ({
            let pcm = blocks_pcm(m.config, data, size, block_count(data.len() as int, size));
            &&& packet_result(m, data) == Ok::<Seq<i16>, Error>(pcm)
            &&& packet_error(m, data) is None
            &&& pcm.len() as int % m.config.channels as int == 0
            &&& after_packet(m, data, pts) == (DecoderModel {
                pending: Some(frame_of(pcm, m.config.channels as int, pts)),
                ..m
            })
        }),
{
    blocks_one_by_one(m.config, data, size);
    blocks_turns(m.config, data, size, block_count(data.len() as int, size));
}

/// Where a stream is cut into packets makes no difference: the samples of the
/// parts are those of the whole, and so is the decoder behind them. ADPCM-B and
/// VOX can be cut where each channel has had its turn equally often, G.726 and
/// ADPCM-A anywhere.
pub proof fn stream_packets_join(m: DecoderModel, a: Seq<u8>, b: Seq<u8>)
    requires
        states_fit(m),
        m.config.variant.form() == Shape::StreamOriented,
        m.config.variant == Variant::Yamaha || m.config.variant == Variant::Dialogic ==> 2
            * a.len() % m.config.channels as nat == 0,
    ensures
        ({
            let middle = after_codes(m, a);
            &&& packet_result(m, a) is Ok
            &&& packet_result(m, a + b) == behind(
                packet_result(m, a)->Ok_0,
                packet_result(middle, b),
            )
            &&& after_codes(m, a + b) == after_codes(middle, b)
        }),
{
    match m.config.variant {
        Variant::Yamaha => {
            yamaha_split(m.yamaha, a, b);
        },
        Variant::YamahaA => {
            rhythm_split(m.rhythm[0], a, b, yamaha_a::Output::Wide16);
            let middle = after_codes(m, a);
            lanes_run_len(
                seq![m.rhythm[0]],
                packet_codes(a, true),
                rhythm_stepper(),
                2 * a.len() as int,
            );
            assert(lanes_run(
                seq![m.rhythm[0]],
                packet_codes(a, true),
                rhythm_stepper(),
                2 * a.len() as int,
            ) =~= seq![middle.rhythm[0]]);
            assert(after_codes(m, a + b).rhythm =~= after_codes(middle, b).rhythm);
        },
        Variant::Dialogic => {
            vox_split(
                m.vox,
                a,
                b,
                m.config.nibble_order is LoFirst,
                dialogic::Output::Wide16,
            );
        },
        _ => {
            g726_packets_join(m, a, b);
        },
    }
}

/// What a packet holds besides auxiliary bytes, in two parts.
proof fn payload_join(m: DecoderModel, a: Seq<u8>, b: Seq<u8>)
    requires
        states_fit(m),
    ensures
        g726_payload(m, a + b) == g726_payload(m, a) + g726_payload(after_g726(m, a), b),
        after_g726(m, a + b).block_pos == after_g726(after_g726(m, a), b).block_pos,
{
    without_aux_split(a, b, m.block_pos, m.config.aux as int, g726_block(m.config));
}

/// Bytes in two parts give the codes of the parts.
proof fn feed_join(bits: Seq<bool>, a: Seq<u8>, b: Seq<u8>, w: int, order: BitOrder)
    requires
        0 < w,
        bits.len() < w,
    ensures
        fed_codes(bits, a + b, w, order) == fed_codes(bits, a, w, order) + fed_codes(
            fed_rest(bits, a, w, order),
            b,
            w,
            order,
        ),
        fed_rest(bits, a + b, w, order) == fed_rest(fed_rest(bits, a, w, order), b, w, order),
        fed_rest(bits, a, w, order).len() < w,
{
    feed_split(bits, a, b, w, order);
    leftover_short(bits + joined(a, 8, order), w);
    if a.len() == 0 {
        assert(a + b =~= b);
        let rest = fed_codes(bits, b, w, order);
        assert(Seq::<u8>::empty() + rest =~= rest);
    } else if b.len() == 0 {
        assert(a + b =~= a);
        let first = fed_codes(bits, a, w, order);
        assert(first + Seq::<u8>::empty() =~= first);
    }
}

/// The samples of codes that are cut behind a whole turn.
proof fn g726_samples_join(
    states: Seq<CodecModel>,
    first: Seq<int>,
    second: Seq<int>,
    law: Option<Law>,
)
    requires
        states.len() > 0,
        first.len() % states.len() == 0,
    ensures
        g726_samples(states, first + second, law) == g726_samples(states, first, law)
            + g726_samples(
            lanes_run(states, first, stepper(), first.len() as int),
            second,
            law,
        ),
{
    let lanes = states.len() as int;
    let wa = first.len() as int;
    let middle = lanes_run(states, first, stepper(), wa);
    let used = first + second;
    lanes_run_len(states, first, stepper(), wa);
    let joint = g726_samples(states, first, law) + g726_samples(middle, second, law);
    assert forall|k: int| 0 <= k < used.len() implies g726_samples(states, used, law)[k]
        == joint[k] by {
        if k < wa {
            lanes_run_prefix(states, used, first, stepper(), k);
        } else {
            lanes_split(states, first, second, stepper(), k - wa);
            same_turn(wa, k - wa, lanes);
        }
    }
    assert(g726_samples(states, used, law) =~= joint);
}

/// A G.726 stream can be cut anywhere.
proof fn g726_packets_join(m: DecoderModel, a: Seq<u8>, b: Seq<u8>)
    requires
        states_fit(m),
    ensures
        ({
            let middle = after_g726(m, a);
            let law = m.config.law;
            &&& g726_samples(m.g726, g726_used(m, a + b), law) == g726_samples(
                m.g726,
                g726_used(m, a),
                law,
            ) + g726_samples(middle.g726, g726_used(middle, b), law)
            &&& after_g726(m, a + b) == after_g726(middle, b)
        }),
{
    let w = m.config.rate().width();
    let order = m.config.bit_order;
    let lanes = m.g726.len() as int;
    let law = m.config.law;
    let middle = after_g726(m, a);
    let pa = g726_payload(m, a);
    let pb = g726_payload(middle, b);
    payload_join(m, a, b);
    feed_join(m.bits, pa, pb, w, order);
    let fa = fed_codes(m.bits, pa, w, order);
    let fb = fed_codes(middle.bits, pb, w, order);
    let ca = g726_codes(m, a);
    let wa = g726_whole(m, a);
    vstd::arithmetic::div_mod::lemma_mod_bound(ca.len() as int, lanes);
    vstd::arithmetic::div_mod::lemma_mod_decreases(ca.len(), lanes as nat);
    turns(ca.len() as int, lanes);
    let first = g726_used(m, a);
    lanes_run_len(m.g726, first, stepper(), first.len() as int);
    let cb = g726_codes(middle, b);
    let wb = g726_whole(middle, b);
    vstd::arithmetic::div_mod::lemma_mod_bound(cb.len() as int, lanes);
    vstd::arithmetic::div_mod::lemma_mod_decreases(cb.len(), lanes as nat);
    let second = g726_used(middle, b);
    let all = g726_codes(m, a + b);
    assert(all =~= ca + fb);
    assert(all =~= ca.take(wa) + cb);
    same_turn(wa, cb.len() as int, lanes);
    assert(g726_whole(m, a + b) == wa + wb);
    let used = g726_used(m, a + b);
    assert(used =~= first + second);
    assert(all.skip(wa + wb) =~= cb.skip(wb));
    lanes_split(m.g726, first, second, stepper(), second.len() as int);
    assert(after_g726(m, a + b).carry =~= after_g726(middle, b).carry);
    g726_samples_join(m.g726, first, second, law);
}

/// What is left without an odd turn is whole turns.
proof fn turns(len: int, lanes: int)
    requires
        0 < lanes,
    ensures
        (len - len % lanes) % lanes == 0,
{
    vstd::arithmetic::div_mod::lemma_sub_mod_noop(len, len % lanes, lanes);
    vstd::arithmetic::div_mod::lemma_mod_twice(len, lanes);
    vstd::arithmetic::div_mod::lemma_small_mod(0, lanes as nat);
}

} // verus!
