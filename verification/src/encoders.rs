//! One frame encoder for the whole family, and how it follows from the
//! parameters of a stream.

use vstd::prelude::*;

use crate::config::{config_of, trailer_block};
use crate::decoder::block_result;
use crate::dialogic::{self, NibbleOrder, VoxModel};
use crate::encoder::DEFAULT_BLOCK_SIZE;
use crate::error::{Component, Error};
use crate::frame_encoder::{
    error_of, fed, flushed, fresh_feed, sizeable, wav_format, whole_blocks_can_be_made,
    BlockFormat, EncodedPacket, FeedModel, ImaQtEncoder, ImaWavEncoder, MsEncoder, PacketModel,
};
use crate::ladder::{qt_ladder_round_trip, wav_ladder_round_trip};
use crate::options::{
    chip_option, nibble_order_option, parse_dialogic_order_option, parse_ima_quantizer_option,
    parse_width_option, parse_yamaha_chip_option, quantizer_option, width_option, Quantizer,
};
use crate::params::{CodecParams, ParamsModel};
use crate::round_trip::{qt_round_trip, wav_round_trip};
use crate::stream_encoder::{
    rhythm_fed, vox_fed, yamaha_fed, DialogicEncoder, StreamModel, YamahaAEncoder, YamahaEncoder,
};
use crate::three_bit::{wav3_room, wav3_room_size, wav3_round_trip};
use crate::timeline::same_blocks;
use crate::variant::{
    block_samples, block_samples_round_trip, variant_named, variant_tagged, word_bytes_of, Variant,
};
use crate::yamaha::{self, Chip, YamahaModel};
use crate::yamaha_a::{self, RhythmModel};

verus! {

/// A frame encoder of any variant that has one.
pub enum FrameEncoder {
    /// Microsoft ADPCM.
    Ms(MsEncoder),
    /// IMA ADPCM in WAV blocks.
    ImaWav(ImaWavEncoder),
    /// IMA ADPCM in QuickTime blocks.
    ImaQt(ImaQtEncoder),
    /// Yamaha ADPCM-B.
    Yamaha(YamahaEncoder),
    /// Yamaha ADPCM-A.
    YamahaA(YamahaAEncoder),
    /// OKI / Dialogic VOX.
    Dialogic(DialogicEncoder),
}

/// A frame encoder over mathematical values.
pub enum EncoderModel {
    Blocks(FeedModel),
    Yamaha(StreamModel<YamahaModel>),
    Rhythm(StreamModel<RhythmModel>),
    Vox(StreamModel<VoxModel>, NibbleOrder),
}

impl View for FrameEncoder {
    type V = EncoderModel;

    open spec fn view(&self) -> EncoderModel {
        match self {
            FrameEncoder::Ms(e) => EncoderModel::Blocks(e@),
            FrameEncoder::ImaWav(e) => EncoderModel::Blocks(e@),
            FrameEncoder::ImaQt(e) => EncoderModel::Blocks(e@),
            FrameEncoder::Yamaha(e) => EncoderModel::Yamaha(e@),
            FrameEncoder::YamahaA(e) => EncoderModel::Rhythm(e@),
            FrameEncoder::Dialogic(e) => EncoderModel::Vox(e@, e.nibble_order()),
        }
    }
}

impl EncoderModel {
    /// The packets that wait to be taken.
    pub open spec fn pending(self) -> Seq<PacketModel> {
        match self {
            EncoderModel::Blocks(m) => m.pending,
            EncoderModel::Yamaha(m) => m.pending,
            EncoderModel::Rhythm(m) => m.pending,
            EncoderModel::Vox(m, _) => m.pending,
        }
    }

    /// The encoder without its first packet.
    pub open spec fn without_packet(self) -> EncoderModel {
        match self {
            EncoderModel::Blocks(m) => EncoderModel::Blocks(
                FeedModel { pending: m.pending.skip(1), ..m },
            ),
            EncoderModel::Yamaha(m) => EncoderModel::Yamaha(m.without_packet()),
            EncoderModel::Rhythm(m) => EncoderModel::Rhythm(m.without_packet()),
            EncoderModel::Vox(m, order) => EncoderModel::Vox(m.without_packet(), order),
        }
    }

    /// The extension of a WAV format header, where the blocks have one.
    pub open spec fn wave_extra(self) -> Option<Seq<u8>> {
        match self {
            EncoderModel::Blocks(m) => m.wave_extra(),
            _ => None,
        }
    }

    /// The samples per channel that the time stamps can still count.
    pub open spec fn headroom(self) -> int {
        match self {
            EncoderModel::Blocks(m) => i64::MAX - m.emitted - m.pcm.len(),
            EncoderModel::Yamaha(m) => i64::MAX - m.emitted,
            EncoderModel::Rhythm(m) => i64::MAX - m.emitted,
            EncoderModel::Vox(m, _) => i64::MAX - m.emitted,
        }
    }

    /// The encoder behind a frame.
    pub open spec fn behind_frame(self, bytes: Seq<u8>) -> (EncoderModel, Option<Error>) {
        match self {
            EncoderModel::Blocks(m) => {
                let (n, e) = fed(m, bytes);
                (EncoderModel::Blocks(n), e)
            },
            EncoderModel::Yamaha(m) => {
                let (n, e) = yamaha_fed(m, bytes);
                (EncoderModel::Yamaha(n), e)
            },
            EncoderModel::Rhythm(m) => {
                let (n, e) = rhythm_fed(m, bytes);
                (EncoderModel::Rhythm(n), e)
            },
            EncoderModel::Vox(m, order) => {
                let (n, e) = vox_fed(m, order, bytes);
                (EncoderModel::Vox(n, order), e)
            },
        }
    }

    /// The encoder behind the end of the stream. Stream encoders hold nothing
    /// back.
    pub open spec fn behind_end(self) -> (EncoderModel, Option<Error>) {
        match self {
            EncoderModel::Blocks(m) => {
                let (n, e) = flushed(m);
                (EncoderModel::Blocks(n), e)
            },
            _ => (self, None),
        }
    }
}

impl FrameEncoder {
    /// The encoder is in order.
    pub open spec fn wf(self) -> bool {
        match self {
            FrameEncoder::Ms(e) => e.wf(),
            FrameEncoder::ImaWav(e) => e.wf(),
            FrameEncoder::ImaQt(e) => e.wf(),
            FrameEncoder::Yamaha(e) => e.wf(),
            FrameEncoder::YamahaA(e) => e.wf(),
            FrameEncoder::Dialogic(e) => e.wf(),
        }
    }

    /// The extension of a WAV format header that tells how the packets are
    /// laid out.
    pub fn wave_format_extra(&self) -> (r: Option<Vec<u8>>)
        requires
            self.wf(),
        ensures
            match r {
                Some(ext) => self@.wave_extra() == Some(ext@),
                None => self@.wave_extra() is None,
            },
    {
        match self {
            FrameEncoder::Ms(e) => e.wave_format_extra(),
            FrameEncoder::ImaWav(e) => e.wave_format_extra(),
            FrameEncoder::ImaQt(e) => e.wave_format_extra(),
            FrameEncoder::Yamaha(_) | FrameEncoder::YamahaA(_) | FrameEncoder::Dialogic(_) => None,
        }
    }

    /// Takes in the samples of a frame, 16 bits each and the low byte first.
    pub fn send_frame(&mut self, bytes: &[u8]) -> (r: Result<(), Error>)
        requires
            old(self).wf(),
            bytes@.len() <= old(self)@.headroom(),
        ensures
            final(self).wf(),
            old(self)@.behind_frame(bytes@) == (final(self)@, error_of(r)),
    {
        match self {
            FrameEncoder::Ms(e) => e.send_frame(bytes),
            FrameEncoder::ImaWav(e) => e.send_frame(bytes),
            FrameEncoder::ImaQt(e) => e.send_frame(bytes),
            FrameEncoder::Yamaha(e) => e.send_frame(bytes),
            FrameEncoder::YamahaA(e) => e.send_frame(bytes),
            FrameEncoder::Dialogic(e) => e.send_frame(bytes),
        }
    }

    /// Takes the first packet that waits.
    pub fn receive_packet(&mut self) -> (r: Result<EncodedPacket, Error>)
        requires
            old(self).wf(),
        ensures
            final(self).wf(),
            match r {
                Ok(packet) => {
                    &&& old(self)@.pending().len() > 0
                    &&& packet@ == old(self)@.pending()[0]
                    &&& final(self)@ == old(self)@.without_packet()
                },
                Err(e) => {
                    &&& e == Error::NeedMore
                    &&& old(self)@.pending().len() == 0
                    &&& final(self)@ == old(self)@
                },
            },
    {
        match self {
            FrameEncoder::Ms(e) => e.receive_packet(),
            FrameEncoder::ImaWav(e) => e.receive_packet(),
            FrameEncoder::ImaQt(e) => e.receive_packet(),
            FrameEncoder::Yamaha(e) => e.receive_packet(),
            FrameEncoder::YamahaA(e) => e.receive_packet(),
            FrameEncoder::Dialogic(e) => e.receive_packet(),
        }
    }

    /// Ends the stream: what waits for a whole block goes out in a last one.
    pub fn flush(&mut self) -> (r: Result<(), Error>)
        requires
            old(self).wf(),
            old(self)@ matches EncoderModel::Blocks(m) ==> !m.flushed ==> m.per_block() <= old(
                self,
            )@.headroom(),
        ensures
            final(self).wf(),
            old(self)@.behind_end() == (final(self)@, error_of(r)),
    {
        match self {
            FrameEncoder::Ms(e) => e.flush(),
            FrameEncoder::ImaWav(e) => e.flush(),
            FrameEncoder::ImaQt(e) => e.flush(),
            FrameEncoder::Yamaha(_) | FrameEncoder::YamahaA(_) | FrameEncoder::Dialogic(_) => Ok(
                (),
            ),
        }
    }
}

/// The default block size of IMA ADPCM in WAV blocks: 256 bytes, less what is
/// no whole group of all channels.
pub open spec fn wav_default_size(channels: int) -> int {
    256 - 256int % (4 * channels)
}

/// The default block size of IMA ADPCM in WAV blocks with so many bits to a
/// code. With three bits it is the largest, up to 256 bytes, whose body is whole
/// groups of all channels.
pub open spec fn wav_default_size_of(bits: int, channels: int) -> int {
    if bits == 3 {
        256 - (256 - 4 * channels) % (12 * channels)
    } else {
        wav_default_size(channels)
    }
}

/// The ticks per second of time stamps: the sample rate, or else a default.
pub open spec fn ticks_of(params: ParamsModel, default: u32) -> u32 {
    match params.sample_rate {
        Some(rate) => rate,
        None => default,
    }
}

/// The bits of a code: the `bits_per_sample` option, which only IMA ADPCM in WAV
/// blocks goes by.
pub open spec fn encoder_width(variant: Variant, params: ParamsModel) -> Result<u8, Error> {
    if variant == Variant::ImaWav {
        width_option(variant, params.value("bits_per_sample"@))
    } else {
        Ok(4)
    }
}

/// The `bits_per_sample`, `chip`, `quantizer` and `nibble_order` options.
pub open spec fn encoder_options(variant: Variant, params: ParamsModel) -> Result<
    (u8, Chip, Quantizer, NibbleOrder),
    Error,
> {
    match encoder_width(variant, params) {
        Err(e) => Err(e),
        Ok(bits) => match chip_option(variant, params.value("chip"@)) {
            Err(e) => Err(e),
            Ok(chip) => match quantizer_option(variant, params.value("quantizer"@)) {
                Err(e) => Err(e),
                Ok(quantizer) => match nibble_order_option(
                    variant,
                    params.value("nibble_order"@),
                ) {
                    Err(e) => Err(e),
                    Ok(order) => Ok((bits, chip, quantizer, order)),
                },
            },
        },
    }
}

/// The most channels that an encoder takes, by the component that says so.
pub open spec fn encoder_limit(variant: Variant) -> (Component, int) {
    match variant {
        Variant::Ms => (Component::MsEncoder, 2),
        Variant::ImaWav => (Component::ImaWavEncoder, 8),
        Variant::ImaQt => (Component::ImaQtEncoder, 2),
        Variant::Yamaha => (Component::YamahaEncoder, 8),
        Variant::YamahaA => (Component::YamahaAEncoder, 1),
        _ => (Component::DialogicEncoder, 2),
    }
}

/// A stream encoder that has not seen a frame.
pub open spec fn fresh_stream<S>(states: Seq<S>, ticks: u32) -> StreamModel<S> {
    StreamModel { states, ticks, pending: Seq::empty(), emitted: 0 }
}

/// The encoder of a stream, or what is wrong with its parameters.
pub open spec fn fresh_encoder(params: ParamsModel) -> Result<EncoderModel, Error> {
    let channels = params.channel_count() as int;
    if channels == 0 {
        Err(Error::ZeroChannels { component: Component::Encoder })
    } else {
        match variant_named(params.codec_id) {
            None => Err(Error::UnknownCodec { component: Component::Encoder }),
            Some(variant) => if variant == Variant::G726 {
                Err(Error::UnknownCodec { component: Component::Encoder })
            } else if channels > encoder_limit(variant).1 {
                Err(
                    Error::ChannelCount {
                        component: encoder_limit(variant).0,
                        channels: channels as usize,
                    },
                )
            } else {
                match encoder_options(variant, params) {
                    Err(e) => Err(e),
                    Ok((bits, chip, quantizer, order)) => Ok(
                        match variant {
                            Variant::Ms => EncoderModel::Blocks(
                                fresh_feed(
                                    BlockFormat::Ms,
                                    channels,
                                    256,
                                    ticks_of(params, 1),
                                    Quantizer::Search,
                                ),
                            ),
                            Variant::ImaWav => EncoderModel::Blocks(
                                fresh_feed(
                                    wav_format(bits as int),
                                    channels,
                                    wav_default_size_of(bits as int, channels),
                                    ticks_of(params, 1),
                                    quantizer,
                                ),
                            ),
                            Variant::ImaQt => EncoderModel::Blocks(
                                fresh_feed(
                                    BlockFormat::ImaQt,
                                    channels,
                                    0,
                                    ticks_of(params, 1),
                                    quantizer,
                                ),
                            ),
                            Variant::Yamaha => EncoderModel::Yamaha(
                                fresh_stream(
                                    Seq::new(channels as nat, |ch: int| yamaha::fresh(chip)),
                                    ticks_of(params, 8000),
                                ),
                            ),
                            Variant::YamahaA => EncoderModel::Rhythm(
                                fresh_stream(seq![yamaha_a::fresh()], ticks_of(params, 8000)),
                            ),
                            _ => EncoderModel::Vox(
                                fresh_stream(
                                    Seq::new(channels as nat, |ch: int| dialogic::fresh()),
                                    ticks_of(params, 8000),
                                ),
                                order,
                            ),
                        },
                    ),
                }
            },
        }
    }
}

/// The ticks per second of time stamps.
fn ticks_for(params: &CodecParams, default: u32) -> (r: u32)
    ensures
        r == ticks_of(params@, default),
{
    match params.sample_rate {
        Some(rate) => rate,
        None => default,
    }
}

/// Builds the encoder of a stream.
pub fn make_encoder(params: &CodecParams) -> (r: Result<FrameEncoder, Error>)
    ensures
        match r {
            Ok(encoder) => {
                &&& encoder.wf()
                &&& fresh_encoder(params@) == Ok::<EncoderModel, Error>(encoder@)
            },
            Err(e) => fresh_encoder(params@) == Err::<EncoderModel, Error>(e),
        },
{
    let channels: usize = params.channel_count() as usize;
    if channels == 0 {
        return Err(Error::ZeroChannels { component: Component::Encoder });
    }
    let variant: Variant = match Variant::from_codec_id(params.codec_id.as_str()) {
        Some(v) => v,
        None => {
            return Err(Error::UnknownCodec { component: Component::Encoder });
        },
    };
    let limit: (Component, usize) = match variant {
        Variant::Ms => (Component::MsEncoder, 2),
        Variant::ImaWav => (Component::ImaWavEncoder, 8),
        Variant::ImaQt => (Component::ImaQtEncoder, 2),
        Variant::Yamaha => (Component::YamahaEncoder, 8),
        Variant::YamahaA => (Component::YamahaAEncoder, 1),
        Variant::Dialogic => (Component::DialogicEncoder, 2),
        Variant::G726 => {
            return Err(Error::UnknownCodec { component: Component::Encoder });
        },
    };
    if channels > limit.1 {
        return Err(Error::ChannelCount { component: limit.0, channels });
    }
    let bits: u8 = if variant == Variant::ImaWav {
        match parse_width_option(variant, params) {
            Err(e) => {
                return Err(e);
            },
            Ok(v) => v,
        }
    } else {
        4
    };
    let chip: Chip = match parse_yamaha_chip_option(variant, params) {
        Err(e) => {
            return Err(e);
        },
        Ok(v) => v,
    };
    let quantizer: Quantizer = match parse_ima_quantizer_option(variant, params) {
        Err(e) => {
            return Err(e);
        },
        Ok(v) => v,
    };
    let order: NibbleOrder = match parse_dialogic_order_option(variant, params) {
        Err(e) => {
            return Err(e);
        },
        Ok(v) => v,
    };
    Ok(
        match variant {
            Variant::Ms => FrameEncoder::Ms(
                MsEncoder::new(channels, DEFAULT_BLOCK_SIZE, ticks_for(params, 1)),
            ),
            Variant::ImaWav => {
                let size: usize = if bits == 3 {
                    DEFAULT_BLOCK_SIZE - (DEFAULT_BLOCK_SIZE - 4 * channels) % (12 * channels)
                } else {
                    DEFAULT_BLOCK_SIZE - DEFAULT_BLOCK_SIZE % (4 * channels)
                };
                let mut encoder: ImaWavEncoder = ImaWavEncoder::new(
                    channels,
                    size,
                    ticks_for(params, 1),
                    quantizer,
                );
                encoder.set_bits_per_sample(bits);
                FrameEncoder::ImaWav(encoder)
            },
            Variant::ImaQt => FrameEncoder::ImaQt(
                ImaQtEncoder::new(channels, ticks_for(params, 1), quantizer),
            ),
            Variant::Yamaha => FrameEncoder::Yamaha(
                YamahaEncoder::new(channels, chip, ticks_for(params, 8000)),
            ),
            Variant::YamahaA => FrameEncoder::YamahaA(
                YamahaAEncoder::new(ticks_for(params, 8000)),
            ),
            _ => FrameEncoder::Dialogic(
                DialogicEncoder::new(channels, order, ticks_for(params, 8000)),
            ),
        },
    )
}

/// The default block size is a suitable one, whatever the number of channels.
pub proof fn default_size_is_suitable(params: ParamsModel)
    requires
        fresh_encoder(params) matches Ok(EncoderModel::Blocks(_)),
    ensures
        fresh_encoder(params)->Ok_0->Blocks_0.wf(),
        sizeable(fresh_encoder(params)->Ok_0->Blocks_0),
{
    let m = fresh_encoder(params)->Ok_0->Blocks_0;
    let c = m.channels;
    vstd::arithmetic::div_mod::lemma_small_mod(0, c as nat);
    if m.format == BlockFormat::ImaWav {
        vstd::arithmetic::div_mod::lemma_mod_bound(256, 4 * c);
        vstd::arithmetic::div_mod::lemma_fundamental_div_mod(256, 4 * c);
        let q = 256int / (4 * c);
        assert(m.block_size == q * (4 * c)) by (nonlinear_arith)
            requires
                m.block_size == 256 - 256int % (4 * c),
                256 == (4 * c) * q + 256int % (4 * c),
        ;
        vstd::arithmetic::div_mod::lemma_mod_multiples_basic(q, 4 * c);
    }
    if m.format == BlockFormat::ImaWav3 {
        let body = 256 - 4 * c;
        vstd::arithmetic::div_mod::lemma_mod_bound(body, 12 * c);
        vstd::arithmetic::div_mod::lemma_fundamental_div_mod(body, 12 * c);
        let q = body / (12 * c);
        vstd::arithmetic::div_mod::lemma_div_pos_is_pos(body, 12 * c);
        vstd::arithmetic::mul::lemma_mul_is_commutative(12 * c, q);
        assert(q * (12 * c) >= 0) by (nonlinear_arith)
            requires
                q >= 0,
                c >= 1,
        ;
        assert(m.block_size - 4 * c == q * (12 * c));
        vstd::arithmetic::div_mod::lemma_mod_multiples_basic(q, 12 * c);
    }
}

/// With the default block size every whole block can be made.
pub proof fn default_blocks_can_be_made(params: ParamsModel, samples: Seq<i16>)
    requires
        fresh_encoder(params) matches Ok(EncoderModel::Blocks(m)) && samples.len() == m.unit(),
    ensures
        fresh_encoder(params)->Ok_0->Blocks_0.block(samples) is Ok,
{
    default_size_is_suitable(params);
    whole_blocks_can_be_made(fresh_encoder(params)->Ok_0->Blocks_0, samples);
}

/// The decoder that follows from a stream's parameters reads the IMA blocks of
/// the encoder that follows from them, however far the encoder has come: every
/// block decodes to as many samples as went into it.
pub proof fn ima_blocks_are_read_back(params: ParamsModel, m: FeedModel, samples: Seq<i16>)
    requires
        fresh_encoder(params) matches Ok(EncoderModel::Blocks(f)) && same_blocks(m, f),
        config_of(params) is Ok,
        m.wf(),
        m.format != BlockFormat::Ms,
        samples.len() == m.unit(),
    ensures
        m.block(samples) is Ok,
        block_result(config_of(params)->Ok_0, m.block(samples)->Ok_0) matches Ok(pcm)
            && pcm.len() == samples.len(),
{
    default_size_is_suitable(params);
    whole_blocks_can_be_made(m, samples);
    reveal(FeedModel::block);
    reveal(block_result);
    let c = m.channels;
    match m.format {
        BlockFormat::Ms => {},
        BlockFormat::ImaWav => match m.quantizer {
            Quantizer::Search => wav_round_trip(samples, c, m.block_size),
            Quantizer::Reference => wav_ladder_round_trip(m.states, samples, c, m.block_size),
        },
        BlockFormat::ImaWav3 => wav3_round_trip(m.quantizer, m.states, samples, c, m.block_size),
        BlockFormat::ImaQt => match m.quantizer {
            Quantizer::Search => qt_round_trip(samples, c),
            Quantizer::Reference => qt_ladder_round_trip(m.states, samples, c),
        },
    }
}

/// The extension of a WAV format header that an encoder tells, under a WAV format
/// tag of the variant, tells the decoder how long the encoder's blocks are.
pub proof fn header_names_the_blocks(m: FeedModel, params: ParamsModel)
    requires
        m.wf(),
        m.wave_extra() == Some(params.extradata),
        params.channel_count() == m.channels,
        params.tag matches Some(tag) && variant_tagged(tag) == Some(m.variant()),
    ensures
        trailer_block(
            m.variant(),
            if m.format == BlockFormat::ImaWav3 {
                3
            } else {
                4
            },
            params,
        ) == Some(m.block_size as usize),
{
    let c = m.channels;
    let samples = params.extradata[0] + 256 * params.extradata[1];
    if m.format == BlockFormat::ImaWav3 {
        wav3_room_size(c, m.block_size);
        let n = 1 + 32 * wav3_room(c, m.block_size);
        assert(params.extradata == word_bytes_of(n as u16));
        assert(samples == n);
        assert((n - 1) / 32 == wav3_room(c, m.block_size));
    } else {
        let n = block_samples(m.variant(), c, m.block_size)->0;
        block_samples_round_trip(m.variant(), c, m.block_size);
        block_samples_positive(m.variant(), c, m.block_size);
        assert(samples == n as u16);
    }
}

/// A block has samples.
proof fn block_samples_positive(variant: Variant, channels: int, len: int)
    ensures
        block_samples(variant, channels, len) matches Some(n) ==> n > 0,
{
    if variant == Variant::ImaWav && channels >= 1 && len >= 4 * channels {
        vstd::arithmetic::div_mod::lemma_div_pos_is_pos(len - 4 * channels, 4 * channels);
    }
    if variant == Variant::Ms && channels >= 1 && len >= 7 * channels {
        vstd::arithmetic::div_mod::lemma_div_pos_is_pos(len - 7 * channels, channels);
    }
}

} // verus!
