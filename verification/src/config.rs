//! What a decoder goes by, and how it follows from the parameters of a stream.

use vstd::prelude::*;

use crate::bits::BitOrder;
use crate::dialogic::{self, NibbleOrder};
use crate::error::{Component, Error};
use crate::g711::Law;
use crate::g726::{wav_extra_aux, wav_parse_format_extra, wav_rate_supported, Rate};
use crate::ms::{parse_extradata_coeffs, trailer_error, trailer_pairs, CoefPair};
use crate::options::{
    aux_option, bit_order_option, block_align_option, chip_option, framing_option, law_option,
    nibble_order_option, parse_block_align_option, parse_dialogic_order_option,
    parse_g726_aux_option, parse_g726_framing_option, parse_g726_law_option,
    parse_g726_order_option, parse_ima_quantizer_option, parse_width_option,
    parse_yamaha_chip_option, quantizer_option, width_option, G726Framing,
};
use crate::params::{CodecParams, ParamsModel};
use crate::variant::{block_bytes, names_round_trip, variant_named, variant_tagged, Variant};
use crate::yamaha::Chip;

verus! {

/// What a decoder goes by.
pub struct DecoderConfig {
    /// The codec.
    pub variant: Variant,
    /// The number of channels.
    pub channels: u16,
    /// Bits per code; only IMA ADPCM in WAV blocks and G.726 have a choice.
    pub width: u8,
    /// The coefficient sets of Microsoft ADPCM, the presets where nothing is
    /// said.
    pub coeffs: Option<Vec<CoefPair>>,
    /// The bytes of a block; where they are not known a packet is one block.
    pub block_align: Option<usize>,
    /// The chip that ADPCM-B follows.
    pub chip: Chip,
    /// Which nibble comes first in VOX.
    pub nibble_order: NibbleOrder,
    /// Where in a byte a G.726 code begins.
    pub bit_order: BitOrder,
    /// The log-PCM law of G.726 output, linear where nothing is said.
    pub law: Option<Law>,
    /// How G.726 lies in its packets.
    pub framing: G726Framing,
    /// Auxiliary bytes per block of G.726 in WAV blocks.
    pub aux: usize,
}

/// What a decoder goes by, over mathematical values.
pub struct ConfigModel {
    pub variant: Variant,
    pub channels: u16,
    pub width: u8,
    pub coeffs: Option<Seq<CoefPair>>,
    pub block_align: Option<usize>,
    pub chip: Chip,
    pub nibble_order: NibbleOrder,
    pub bit_order: BitOrder,
    pub law: Option<Law>,
    pub framing: G726Framing,
    pub aux: usize,
}

impl View for DecoderConfig {
    type V = ConfigModel;

    open spec fn view(&self) -> ConfigModel {
        ConfigModel {
            variant: self.variant,
            channels: self.channels,
            width: self.width,
            coeffs: match self.coeffs {
                Some(c) => Some(c@),
                None => None,
            },
            block_align: self.block_align,
            chip: self.chip,
            nibble_order: self.nibble_order,
            bit_order: self.bit_order,
            law: self.law,
            framing: self.framing,
            aux: self.aux,
        }
    }
}

impl ConfigModel {
    /// What the codecs demand of a configuration.
    pub open spec fn wf(self) -> bool {
        &&& self.channels > 0
        &&& self.variant == Variant::Ms ==> self.channels <= 2
        &&& self.variant == Variant::ImaWav ==> self.channels <= 8
        &&& self.variant == Variant::ImaQt ==> self.channels <= 8
        &&& self.variant == Variant::YamahaA ==> self.channels == 1
        &&& self.variant == Variant::Dialogic ==> self.channels <= 2
        &&& self.variant == Variant::G726 ==> self.channels <= (if self.framing
            == G726Framing::Wav {
            2int
        } else {
            1
        })
        &&& self.variant != Variant::G726 ==> self.framing == G726Framing::Raw
        &&& 2 <= self.width <= 5
        &&& self.variant == Variant::ImaWav ==> self.width == 3 || self.width == 4
        &&& self.block_align matches Some(n) ==> n > 0
    }

    /// The G.726 rate.
    pub open spec fn rate(self) -> Rate {
        rate_of(self.width as int)
    }

    /// The G.726 channels with a state of their own.
    pub open spec fn lanes(self) -> int {
        if self.framing == G726Framing::Wav {
            self.channels as int
        } else {
            1
        }
    }
}

/// The rate with codes of that width.
pub open spec fn rate_of(width: int) -> Rate {
    if width == 2 {
        Rate::R16
    } else if width == 3 {
        Rate::R24
    } else if width == 5 {
        Rate::R40
    } else {
        Rate::R32
    }
}

/// Why a variant cannot have so many channels.
pub open spec fn channel_error(variant: Variant, channels: u16, params: ParamsModel) -> Option<
    Error,
> {
    let refused = |component: Component|
        Some(Error::ChannelCount { component, channels: channels as usize });
    match variant {
        Variant::Ms => if channels > 2 {
            refused(Component::Ms)
        } else {
            None
        },
        Variant::ImaQt => if channels > 8 {
            refused(Component::ImaQt)
        } else {
            None
        },
        Variant::ImaWav => if channels > 8 {
            refused(Component::ImaWav)
        } else {
            None
        },
        Variant::Yamaha => None,
        Variant::YamahaA => if channels != 1 {
            refused(Component::YamahaA)
        } else {
            None
        },
        Variant::Dialogic => dialogic::channels_error(channels),
        Variant::G726 => match framing_option(variant, params.value("framing"@), params.tag) {
            Err(e) => Some(e),
            Ok(framing) => if channels > 2 || (channels == 2 && framing == G726Framing::Raw) {
                refused(Component::G726)
            } else {
                None
            },
        },
    }
}

/// The auxiliary bytes per block: the option, else the extension of the format
/// header, else none.
pub open spec fn aux_bytes(
    variant: Variant,
    framing: G726Framing,
    params: ParamsModel,
) -> Result<usize, Error> {
    let option = params.value("aux_block_size"@);
    match aux_option(variant, framing, option) {
        Err(e) => Err(e),
        Ok(n) => if framing == G726Framing::Wav && option is None {
            match wav_extra_aux(params.extradata) {
                Some(aux) => Ok(aux as usize),
                None => Ok(n),
            }
        } else {
            Ok(n)
        },
    }
}

/// The coefficient sets that a Microsoft stream declares.
pub open spec fn declared_coeffs(variant: Variant, extradata: Seq<u8>) -> Result<
    Option<Seq<CoefPair>>,
    Error,
> {
    if variant != Variant::Ms || extradata.len() < 4 {
        Ok(None)
    } else {
        match trailer_error(extradata) {
            Some(e) => Err(e),
            None => Ok(Some(trailer_pairs(extradata))),
        }
    }
}

/// The bytes of a block that holds so many samples per channel, in the blocks
/// that a packet may hold several of.
pub open spec fn bytes_for(variant: Variant, channels: int, width: int, samples: int) -> Option<
    int,
> {
    if variant == Variant::ImaWav && width == 3 {
        if samples < 1 || (samples - 1) % 32 != 0 {
            None
        } else {
            Some(4 * channels + 12 * channels * ((samples - 1) / 32))
        }
    } else if variant == Variant::Ms || variant == Variant::ImaWav {
        block_bytes(variant, channels, samples)
    } else {
        None
    }
}

/// The bytes of a block that the extension of a WAV format header comes to. Its
/// first word holds the samples per channel of a block. Only where the
/// container has a WAV format tag of the variant is there such an extension.
pub open spec fn trailer_block(variant: Variant, width: int, params: ParamsModel) -> Option<usize> {
    let tagged = match params.tag {
        Some(tag) => variant_tagged(tag) == Some(variant),
        None => false,
    };
    if !tagged || params.extradata.len() < 2 {
        None
    } else {
        let samples = params.extradata[0] + 256 * params.extradata[1];
        match bytes_for(variant, params.channel_count() as int, width, samples) {
            Some(n) => Some(n as usize),
            None => None,
        }
    }
}

/// The bytes of a block: the option, else what the extension of the WAV format
/// header comes to.
pub open spec fn known_block(variant: Variant, width: int, params: ParamsModel) -> Result<
    Option<usize>,
    Error,
> {
    match block_align_option(params.value("block_align"@)) {
        Err(e) => Err(e),
        Ok(Some(n)) => Ok(Some(n)),
        Ok(None) => Ok(trailer_block(variant, width, params)),
    }
}

/// What the options of G.726 come to.
pub open spec fn g726_config(variant: Variant, width: u8, params: ParamsModel) -> Result<
    (BitOrder, Option<Law>, G726Framing, usize),
    Error,
> {
    match bit_order_option(variant, params.value("bit_order"@)) {
        Err(e) => Err(e),
        Ok(bit_order) => match law_option(variant, params.value("law"@)) {
            Err(e) => Err(e),
            Ok(law) => match framing_option(variant, params.value("framing"@), params.tag) {
                Err(e) => Err(e),
                Ok(framing) => match aux_bytes(variant, framing, params) {
                    Err(e) => Err(e),
                    Ok(aux) => if framing == G726Framing::Wav && rate_of(width as int)
                        == Rate::R16 {
                        Err(Error::WavFramingRate)
                    } else if framing == G726Framing::Wav && bit_order == BitOrder::LsbFirst {
                        Err(Error::WavFramingBitOrder)
                    } else {
                        Ok((bit_order, law, framing, aux))
                    },
                },
            },
        },
    }
}

/// What the options of the other variants come to.
pub open spec fn chip_config(variant: Variant, params: ParamsModel) -> Result<
    (Chip, NibbleOrder),
    Error,
> {
    match chip_option(variant, params.value("chip"@)) {
        Err(e) => Err(e),
        Ok(chip) => match quantizer_option(variant, params.value("quantizer"@)) {
            Err(e) => Err(e),
            Ok(_) => match nibble_order_option(variant, params.value("nibble_order"@)) {
                Err(e) => Err(e),
                Ok(order) => Ok((chip, order)),
            },
        },
    }
}

/// What the parameters of a stream come to, or the first thing wrong with
/// them.
pub open spec fn config_of(params: ParamsModel) -> Result<ConfigModel, Error> {
    let channels = params.channel_count();
    match variant_named(params.codec_id) {
        None => Err(Error::UnknownCodec { component: Component::Decoder }),
        Some(variant) => if channels == 0 {
            Err(Error::ZeroChannels { component: Component::Decoder })
        } else {
            match channel_error(variant, channels, params) {
                Some(e) => Err(e),
                None => match width_option(variant, params.value("bits_per_sample"@)) {
                    Err(e) => Err(e),
                    Ok(width) => match declared_coeffs(variant, params.extradata) {
                        Err(e) => Err(e),
                        Ok(coeffs) => match known_block(variant, width as int, params) {
                            Err(e) => Err(e),
                            Ok(block_align) => match chip_config(variant, params) {
                                Err(e) => Err(e),
                                Ok((chip, nibble_order)) => match g726_config(
                                    variant,
                                    width,
                                    params,
                                ) {
                                    Err(e) => Err(e),
                                    Ok((bit_order, law, framing, aux)) => Ok(
                                        ConfigModel {
                                            variant,
                                            channels,
                                            width,
                                            coeffs,
                                            block_align,
                                            chip,
                                            nibble_order,
                                            bit_order,
                                            law,
                                            framing,
                                            aux,
                                        },
                                    ),
                                },
                            },
                        },
                    },
                },
            }
        },
    }
}

/// Checks the number of channels.
fn check_channels(variant: Variant, channels: u16, params: &CodecParams) -> (r: Result<(), Error>)
    ensures
        match r {
            Ok(_) => channel_error(variant, channels, params@) is None,
            Err(e) => channel_error(variant, channels, params@) == Some(e),
        },
{
    let count: usize = channels as usize;
    match variant {
        Variant::Ms => {
            if channels > 2 {
                return Err(Error::ChannelCount { component: Component::Ms, channels: count });
            }
        },
        Variant::ImaQt => {
            if channels > 8 {
                return Err(Error::ChannelCount { component: Component::ImaQt, channels: count });
            }
        },
        Variant::ImaWav => {
            if channels > 8 {
                return Err(Error::ChannelCount { component: Component::ImaWav, channels: count });
            }
        },
        Variant::Yamaha => {},
        Variant::YamahaA => {
            if channels != 1 {
                return Err(Error::ChannelCount { component: Component::YamahaA, channels: count });
            }
        },
        Variant::Dialogic => {
            return dialogic::validate_channels(channels);
        },
        Variant::G726 => {
            match parse_g726_framing_option(variant, params) {
                Err(e) => {
                    return Err(e);
                },
                Ok(framing) => {
                    if channels > 2 || (channels == 2 && framing == G726Framing::Raw) {
                        return Err(
                            Error::ChannelCount { component: Component::G726, channels: count },
                        );
                    }
                },
            }
        },
    }
    Ok(())
}

/// Reads the options of G.726.
fn read_g726_options(variant: Variant, width: u8, params: &CodecParams) -> (r: Result<
    (BitOrder, Option<Law>, G726Framing, usize),
    Error,
>)
    ensures
        r == g726_config(variant, width, params@),
{
    let bit_order: BitOrder = match parse_g726_order_option(variant, params) {
        Err(e) => {
            return Err(e);
        },
        Ok(v) => v,
    };
    let law: Option<Law> = match parse_g726_law_option(variant, params) {
        Err(e) => {
            return Err(e);
        },
        Ok(v) => v,
    };
    let framing: G726Framing = match parse_g726_framing_option(variant, params) {
        Err(e) => {
            return Err(e);
        },
        Ok(v) => v,
    };
    let mut aux: usize = match parse_g726_aux_option(variant, framing, params) {
        Err(e) => {
            return Err(e);
        },
        Ok(v) => v,
    };
    if framing == G726Framing::Wav {
        if params.option("aux_block_size").is_none() {
            match wav_parse_format_extra(params.extradata.as_slice()) {
                Some(n) => {
                    aux = n as usize;
                },
                None => {},
            }
        }
        if !wav_rate_supported(g726_rate(width)) {
            return Err(Error::WavFramingRate);
        }
        if bit_order == BitOrder::LsbFirst {
            return Err(Error::WavFramingBitOrder);
        }
    }
    Ok((bit_order, law, framing, aux))
}

/// The rate with codes of that width.
pub fn g726_rate(width: u8) -> (r: Rate)
    ensures
        r == rate_of(width as int),
{
    match Rate::from_bits(width) {
        Some(rate) => rate,
        None => Rate::R32,
    }
}

/// Works out the bytes of a block from the extension of a WAV format header.
fn read_trailer_block(variant: Variant, channels: u16, width: u8, params: &CodecParams) -> (r:
    Option<usize>)
    requires
        channels == params@.channel_count(),
        1 <= channels,
        variant == Variant::ImaWav ==> channels <= 8,
    ensures
        r == trailer_block(variant, width as int, params@),
        r matches Some(n) ==> n > 0,
{
    let tagged: Option<Variant> = match params.tag {
        Some(tag) => Variant::from_wave_format_tag(tag),
        None => None,
    };
    let known: bool = match tagged {
        Some(v) => v == variant,
        None => false,
    };
    if !known || params.extradata.len() < 2 {
        return None;
    }
    let samples: usize = params.extradata[0] as usize + 256 * params.extradata[1] as usize;
    if variant == Variant::ImaWav && width == 3 {
        if samples < 1 || (samples - 1) % 32 != 0 {
            return None;
        }
        let groups: usize = (samples - 1) / 32;
        let c: usize = channels as usize;
        assert(0 <= 12 * c * groups <= 96 * groups) by (nonlinear_arith)
            requires
                c <= 8,
        ;
        Some(4 * c + 12 * c * groups)
    } else if variant == Variant::Ms || variant == Variant::ImaWav {
        proof {
            block_bytes_small(variant, channels as int, samples as int);
        }
        variant.block_size_bytes(channels, samples)
    } else {
        None
    }
}

/// A block of so few samples has a size that fits, and is not empty.
proof fn block_bytes_small(variant: Variant, channels: int, samples: int)
    requires
        variant == Variant::Ms || variant == Variant::ImaWav,
        0 <= samples <= 65535,
    ensures
        block_bytes(variant, channels, samples) matches Some(n) ==> 0 < n <= usize::MAX,
{
    match variant {
        Variant::Ms => {
            if channels == 1 || channels == 2 {
                assert((samples - 2) * channels <= 2 * 65535) by (nonlinear_arith)
                    requires
                        channels == 1 || channels == 2,
                        samples <= 65535,
                ;
                assert(samples >= 2 ==> (samples - 2) * channels >= 0) by (nonlinear_arith)
                    requires
                        channels >= 1,
                ;
            }
        },
        _ => {
            if 1 <= channels <= 8 && samples >= 1 {
                let groups = (samples - 1) / 8;
                assert(0 <= groups * (4 * channels) <= 32 * groups) by (nonlinear_arith)
                    requires
                        1 <= channels <= 8,
                        groups >= 0,
                ;
            }
        },
    }
}

/// Works out what a decoder goes by from the parameters of a stream.
pub fn read_config(params: &CodecParams) -> (r: Result<DecoderConfig, Error>)
    ensures
        match r {
            Ok(config) => config_of(params@) == Ok::<ConfigModel, Error>(config@) && config@.wf(),
            Err(e) => config_of(params@) == Err::<ConfigModel, Error>(e),
        },
{
    let variant: Variant = match Variant::from_codec_id(params.codec_id.as_str()) {
        Some(v) => v,
        None => {
            return Err(Error::UnknownCodec { component: Component::Decoder });
        },
    };
    let channels: u16 = params.channel_count();
    if channels == 0 {
        return Err(Error::ZeroChannels { component: Component::Decoder });
    }
    match check_channels(variant, channels, params) {
        Err(e) => {
            return Err(e);
        },
        Ok(_) => {},
    }
    let width: u8 = match parse_width_option(variant, params) {
        Err(e) => {
            return Err(e);
        },
        Ok(v) => v,
    };
    let coeffs: Option<Vec<CoefPair>> = if variant == Variant::Ms {
        match parse_extradata_coeffs(params.extradata.as_slice()) {
            Err(e) => {
                return Err(e);
            },
            Ok(v) => v,
        }
    } else {
        None
    };
    let block_align: Option<usize> = match parse_block_align_option(params) {
        Err(e) => {
            return Err(e);
        },
        Ok(Some(n)) => Some(n),
        Ok(None) => read_trailer_block(variant, channels, width, params),
    };
    let chip: Chip = match parse_yamaha_chip_option(variant, params) {
        Err(e) => {
            return Err(e);
        },
        Ok(v) => v,
    };
    match parse_ima_quantizer_option(variant, params) {
        Err(e) => {
            return Err(e);
        },
        Ok(_) => {},
    }
    let nibble_order: NibbleOrder = match parse_dialogic_order_option(variant, params) {
        Err(e) => {
            return Err(e);
        },
        Ok(v) => v,
    };
    match read_g726_options(variant, width, params) {
        Err(e) => Err(e),
        Ok((bit_order, law, framing, aux)) => Ok(
            DecoderConfig {
                variant,
                channels,
                width,
                coeffs,
                block_align,
                chip,
                nibble_order,
                bit_order,
                law,
                framing,
                aux,
            },
        ),
    }
}

/// Without options, a decoder can be had for just the channels that the variant
/// has.
pub proof fn channel_limits(variant: Variant, channels: u16, params: ParamsModel)
    requires
        params.codec_id == variant.name(),
        params.channels == Some(channels),
        params.options.len() == 0,
        params.extradata.len() == 0,
        params.tag is None,
    ensures
        config_of(params) is Ok <==> channels > 0 && (variant.channel_limit() matches Some(max)
            ==> channels <= max),
{
    names_round_trip(variant, params.codec_id);
}

} // verus!
