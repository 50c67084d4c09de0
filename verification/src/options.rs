//! The options that a caller can give a codec.

use vstd::prelude::*;

use crate::bits::BitOrder;
use crate::dialogic::NibbleOrder;
use crate::error::{Error, OptionKey};
use crate::g711::Law;
use crate::params::CodecParams;
use crate::text::{decimal_up_to, parse_decimal, same_text};
use crate::variant::{variant_tagged, Variant};
use crate::yamaha::Chip;

verus! {

/// How an encoder picks its codes.
#[derive(Clone, Copy, Debug, PartialEq, Eq, Structural)]
pub enum Quantizer {
    /// Tries every code and takes the one that decodes closest.
    Search,
    /// Climbs a ladder of thresholds, and carries the step index from block to
    /// block.
    Reference,
}

/// How a G.726 stream lies in its packets.
#[derive(Clone, Copy, Debug, PartialEq, Eq, Structural)]
pub enum G726Framing {
    /// One code after another, across bytes and packets.
    Raw,
    /// Blocks of whole sub-blocks, each behind its auxiliary bytes.
    Wav,
}

/// Why an option is refused.
pub open spec fn not_applicable(option: OptionKey, variant: Variant) -> Error {
    Error::OptionNotApplicable { option, variant }
}

/// The `chip` option, which only ADPCM-B has: `aica`, the default, or `opna`.
pub open spec fn chip_option(variant: Variant, value: Option<Seq<char>>) -> Result<Chip, Error> {
    match value {
        None => Ok(Chip::Aica),
        Some(v) => if variant != Variant::Yamaha {
            Err(not_applicable(OptionKey::Chip, variant))
        } else if v == "aica"@ {
            Ok(Chip::Aica)
        } else if v == "opna"@ {
            Ok(Chip::Opna)
        } else {
            Err(Error::OptionValue { option: OptionKey::Chip, variant })
        },
    }
}

/// Reads the `chip` option.
pub fn parse_yamaha_chip_option(variant: Variant, params: &CodecParams) -> (r: Result<Chip, Error>)
    ensures
        r == chip_option(variant, params@.value("chip"@)),
{
    match params.option("chip") {
        None => Ok(Chip::Aica),
        Some(v) => {
            if variant != Variant::Yamaha {
                Err(Error::OptionNotApplicable { option: OptionKey::Chip, variant })
            } else if same_text(v, "aica") {
                Ok(Chip::Aica)
            } else if same_text(v, "opna") {
                Ok(Chip::Opna)
            } else {
                Err(Error::OptionValue { option: OptionKey::Chip, variant })
            }
        },
    }
}

/// The `quantizer` option, which only the IMA variants have: `search`, the
/// default, or `reference`.
pub open spec fn quantizer_option(variant: Variant, value: Option<Seq<char>>) -> Result<
    Quantizer,
    Error,
> {
    match value {
        None => Ok(Quantizer::Search),
        Some(v) => if variant != Variant::ImaWav && variant != Variant::ImaQt {
            Err(not_applicable(OptionKey::Quantizer, variant))
        } else if v == "search"@ {
            Ok(Quantizer::Search)
        } else if v == "reference"@ {
            Ok(Quantizer::Reference)
        } else {
            Err(Error::OptionValue { option: OptionKey::Quantizer, variant })
        },
    }
}

/// Reads the `quantizer` option.
pub fn parse_ima_quantizer_option(variant: Variant, params: &CodecParams) -> (r: Result<
    Quantizer,
    Error,
>)
    ensures
        r == quantizer_option(variant, params@.value("quantizer"@)),
{
    match params.option("quantizer") {
        None => Ok(Quantizer::Search),
        Some(v) => {
            if variant != Variant::ImaWav && variant != Variant::ImaQt {
                Err(Error::OptionNotApplicable { option: OptionKey::Quantizer, variant })
            } else if same_text(v, "search") {
                Ok(Quantizer::Search)
            } else if same_text(v, "reference") {
                Ok(Quantizer::Reference)
            } else {
                Err(Error::OptionValue { option: OptionKey::Quantizer, variant })
            }
        },
    }
}

/// The `nibble_order` option, which only VOX has: `hi`, the default, or `lo`.
pub open spec fn nibble_order_option(variant: Variant, value: Option<Seq<char>>) -> Result<
    NibbleOrder,
    Error,
> {
    match value {
        None => Ok(NibbleOrder::HiFirst),
        Some(v) => if variant != Variant::Dialogic {
            Err(not_applicable(OptionKey::NibbleOrder, variant))
        } else if v == "hi"@ {
            Ok(NibbleOrder::HiFirst)
        } else if v == "lo"@ {
            Ok(NibbleOrder::LoFirst)
        } else {
            Err(Error::OptionValue { option: OptionKey::NibbleOrder, variant })
        },
    }
}

/// Reads the `nibble_order` option.
pub fn parse_dialogic_order_option(variant: Variant, params: &CodecParams) -> (r: Result<
    NibbleOrder,
    Error,
>)
    ensures
        r == nibble_order_option(variant, params@.value("nibble_order"@)),
{
    match params.option("nibble_order") {
        None => Ok(NibbleOrder::HiFirst),
        Some(v) => {
            if variant != Variant::Dialogic {
                Err(Error::OptionNotApplicable { option: OptionKey::NibbleOrder, variant })
            } else if same_text(v, "hi") {
                Ok(NibbleOrder::HiFirst)
            } else if same_text(v, "lo") {
                Ok(NibbleOrder::LoFirst)
            } else {
                Err(Error::OptionValue { option: OptionKey::NibbleOrder, variant })
            }
        },
    }
}

/// The `bit_order` option, which only G.726 has: `msb`, the default, or `lsb`.
pub open spec fn bit_order_option(variant: Variant, value: Option<Seq<char>>) -> Result<
    BitOrder,
    Error,
> {
    match value {
        None => Ok(BitOrder::MsbFirst),
        Some(v) => if variant != Variant::G726 {
            Err(not_applicable(OptionKey::BitOrder, variant))
        } else if v == "msb"@ {
            Ok(BitOrder::MsbFirst)
        } else if v == "lsb"@ {
            Ok(BitOrder::LsbFirst)
        } else {
            Err(Error::OptionValue { option: OptionKey::BitOrder, variant })
        },
    }
}

/// Reads the `bit_order` option.
pub fn parse_g726_order_option(variant: Variant, params: &CodecParams) -> (r: Result<
    BitOrder,
    Error,
>)
    ensures
        r == bit_order_option(variant, params@.value("bit_order"@)),
{
    match params.option("bit_order") {
        None => Ok(BitOrder::MsbFirst),
        Some(v) => {
            if variant != Variant::G726 {
                Err(Error::OptionNotApplicable { option: OptionKey::BitOrder, variant })
            } else if same_text(v, "msb") {
                Ok(BitOrder::MsbFirst)
            } else if same_text(v, "lsb") {
                Ok(BitOrder::LsbFirst)
            } else {
                Err(Error::OptionValue { option: OptionKey::BitOrder, variant })
            }
        },
    }
}

/// The `law` option, which only G.726 has: `linear`, the default, `alaw` or
/// `ulaw`.
pub open spec fn law_option(variant: Variant, value: Option<Seq<char>>) -> Result<
    Option<Law>,
    Error,
> {
    match value {
        None => Ok(None),
        Some(v) => if variant != Variant::G726 {
            Err(not_applicable(OptionKey::Law, variant))
        } else if v == "linear"@ {
            Ok(None)
        } else if v == "alaw"@ {
            Ok(Some(Law::ALaw))
        } else if v == "ulaw"@ {
            Ok(Some(Law::ULaw))
        } else {
            Err(Error::OptionValue { option: OptionKey::Law, variant })
        },
    }
}

/// Reads the `law` option.
pub fn parse_g726_law_option(variant: Variant, params: &CodecParams) -> (r: Result<
    Option<Law>,
    Error,
>)
    ensures
        r == law_option(variant, params@.value("law"@)),
{
    match params.option("law") {
        None => Ok(None),
        Some(v) => {
            if variant != Variant::G726 {
                Err(Error::OptionNotApplicable { option: OptionKey::Law, variant })
            } else if same_text(v, "linear") {
                Ok(None)
            } else if same_text(v, "alaw") {
                Ok(Some(Law::ALaw))
            } else if same_text(v, "ulaw") {
                Ok(Some(Law::ULaw))
            } else {
                Err(Error::OptionValue { option: OptionKey::Law, variant })
            }
        },
    }
}

/// How G.726 lies in its packets where nothing is said: in the blocks of WAV
/// where the container has one of its WAV format tags, else in a raw stream.
pub open spec fn framing_by_tag(variant: Variant, tag: Option<u16>) -> G726Framing {
    match tag {
        Some(t) => if variant == Variant::G726 && variant_tagged(t) == Some(variant) {
            G726Framing::Wav
        } else {
            G726Framing::Raw
        },
        None => G726Framing::Raw,
    }
}

/// The `framing` option, which only G.726 has: `raw` or `wav`. Without it the
/// tag decides.
pub open spec fn framing_option(
    variant: Variant,
    value: Option<Seq<char>>,
    tag: Option<u16>,
) -> Result<G726Framing, Error> {
    match value {
        None => Ok(framing_by_tag(variant, tag)),
        Some(v) => if variant != Variant::G726 {
            Err(not_applicable(OptionKey::Framing, variant))
        } else if v == "raw"@ {
            Ok(G726Framing::Raw)
        } else if v == "wav"@ {
            Ok(G726Framing::Wav)
        } else {
            Err(Error::OptionValue { option: OptionKey::Framing, variant })
        },
    }
}

/// Reads the `framing` option.
pub fn parse_g726_framing_option(variant: Variant, params: &CodecParams) -> (r: Result<
    G726Framing,
    Error,
>)
    ensures
        r == framing_option(variant, params@.value("framing"@), params@.tag),
{
    match params.option("framing") {
        None => match params.tag {
            Some(tag) => {
                let tagged: Option<Variant> = Variant::from_wave_format_tag(tag);
                if variant == Variant::G726 && matches!(tagged, Some(Variant::G726)) {
                    Ok(G726Framing::Wav)
                } else {
                    Ok(G726Framing::Raw)
                }
            },
            None => Ok(G726Framing::Raw),
        },
        Some(v) => {
            if variant != Variant::G726 {
                Err(Error::OptionNotApplicable { option: OptionKey::Framing, variant })
            } else if same_text(v, "raw") {
                Ok(G726Framing::Raw)
            } else if same_text(v, "wav") {
                Ok(G726Framing::Wav)
            } else {
                Err(Error::OptionValue { option: OptionKey::Framing, variant })
            }
        },
    }
}

/// The `aux_block_size` option, which only G.726 in WAV blocks has: a number,
/// zero by default.
pub open spec fn aux_option(
    variant: Variant,
    framing: G726Framing,
    value: Option<Seq<char>>,
) -> Result<usize, Error> {
    match value {
        None => Ok(0),
        Some(v) => if variant != Variant::G726 || framing != G726Framing::Wav {
            Err(not_applicable(OptionKey::AuxBlockSize, variant))
        } else {
            number_option(OptionKey::AuxBlockSize, v)
        },
    }
}

/// A number that an option names.
pub open spec fn number_option(option: OptionKey, value: Seq<char>) -> Result<usize, Error> {
    match decimal_up_to(value, usize::MAX as int) {
        Some(n) => Ok(n as usize),
        None => Err(Error::OptionNotANumber { option }),
    }
}

/// Reads a number that an option names.
fn parse_number(option: OptionKey, value: &str) -> (r: Result<usize, Error>)
    ensures
        r == number_option(option, value@),
{
    match parse_decimal(value, usize::MAX as u64) {
        Some(n) => Ok(n as usize),
        None => Err(Error::OptionNotANumber { option }),
    }
}

/// Reads the `aux_block_size` option.
pub fn parse_g726_aux_option(
    variant: Variant,
    framing: G726Framing,
    params: &CodecParams,
) -> (r: Result<usize, Error>)
    ensures
        r == aux_option(variant, framing, params@.value("aux_block_size"@)),
{
    match params.option("aux_block_size") {
        None => Ok(0),
        Some(v) => {
            if variant != Variant::G726 || framing != G726Framing::Wav {
                Err(Error::OptionNotApplicable { option: OptionKey::AuxBlockSize, variant })
            } else {
                parse_number(OptionKey::AuxBlockSize, v)
            }
        },
    }
}

/// The `bits_per_sample` option: the width of a code, four by default. IMA
/// ADPCM in WAV blocks has three and four, G.726 two to five, the others only
/// four.
pub open spec fn width_option(variant: Variant, value: Option<Seq<char>>) -> Result<u8, Error> {
    match value {
        None => Ok(4),
        Some(v) => match decimal_up_to(v, 255) {
            None => Err(Error::OptionNotANumber { option: OptionKey::BitsPerSample }),
            Some(bits) => if bits == 4 || (variant == Variant::ImaWav && bits == 3) || (variant
                == Variant::G726 && 2 <= bits <= 5) {
                Ok(bits as u8)
            } else {
                Err(Error::CodeWidth { variant, bits: bits as u8 })
            },
        },
    }
}

/// Reads the `bits_per_sample` option.
pub fn parse_width_option(variant: Variant, params: &CodecParams) -> (r: Result<u8, Error>)
    ensures
        r == width_option(variant, params@.value("bits_per_sample"@)),
{
    match params.option("bits_per_sample") {
        None => Ok(4),
        Some(v) => match parse_decimal(v, 255) {
            None => Err(Error::OptionNotANumber { option: OptionKey::BitsPerSample }),
            Some(n) => {
                let bits: u8 = n as u8;
                if bits == 4 || (variant == Variant::ImaWav && bits == 3) || (variant
                    == Variant::G726 && 2 <= bits && bits <= 5) {
                    Ok(bits)
                } else {
                    Err(Error::CodeWidth { variant, bits })
                }
            },
        },
    }
}

/// The `block_align` option: the bytes of a block, more than none.
pub open spec fn block_align_option(value: Option<Seq<char>>) -> Result<Option<usize>, Error> {
    match value {
        None => Ok(None),
        Some(v) => match number_option(OptionKey::BlockAlign, v) {
            Err(e) => Err(e),
            Ok(n) => if n == 0 {
                Err(Error::OptionZero { option: OptionKey::BlockAlign })
            } else {
                Ok(Some(n))
            },
        },
    }
}

/// Reads the `block_align` option.
pub fn parse_block_align_option(params: &CodecParams) -> (r: Result<Option<usize>, Error>)
    ensures
        r == block_align_option(params@.value("block_align"@)),
{
    match params.option("block_align") {
        None => Ok(None),
        Some(v) => match parse_number(OptionKey::BlockAlign, v) {
            Err(e) => Err(e),
            Ok(n) => {
                if n == 0 {
                    Err(Error::OptionZero { option: OptionKey::BlockAlign })
                } else {
                    Ok(Some(n))
                }
            },
        },
    }
}

} // verus!
