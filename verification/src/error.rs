//! Why an operation was refused.

use vstd::prelude::*;

use crate::variant::Variant;

verus! {

/// The component that reports an error.
#[derive(Clone, Copy, Debug, PartialEq, Eq, Structural)]
pub enum Component {
    /// Microsoft ADPCM decoding.
    Ms,
    /// Microsoft ADPCM encoding.
    MsEncoder,
    /// Four-bit IMA ADPCM in WAV blocks, decoding.
    ImaWav,
    /// Three-bit IMA ADPCM in WAV blocks, decoding.
    ImaWav3Bit,
    /// Four-bit IMA ADPCM in WAV blocks, encoding.
    ImaWavEncoder,
    /// Three-bit IMA ADPCM in WAV blocks, encoding.
    ImaWav3BitEncoder,
    /// QuickTime IMA ADPCM, decoding.
    ImaQt,
    /// QuickTime IMA ADPCM, encoding.
    ImaQtEncoder,
    /// Yamaha ADPCM-B, encoding.
    YamahaEncoder,
    /// Yamaha ADPCM-A, decoding.
    YamahaA,
    /// Yamaha ADPCM-A, encoding.
    YamahaAEncoder,
    /// OKI / Dialogic VOX, decoding.
    Dialogic,
    /// OKI / Dialogic VOX, encoding.
    DialogicEncoder,
    /// G.726, decoding.
    G726,
    /// What all decoders share.
    Decoder,
    /// What all encoders share.
    Encoder,
}

/// A codec option, by its key.
#[derive(Clone, Copy, Debug, PartialEq, Eq, Structural)]
pub enum OptionKey {
    /// `bits_per_sample`
    BitsPerSample,
    /// `block_align`
    BlockAlign,
    /// `chip`
    Chip,
    /// `quantizer`
    Quantizer,
    /// `nibble_order`
    NibbleOrder,
    /// `bit_order`
    BitOrder,
    /// `law`
    Law,
    /// `framing`
    Framing,
    /// `aux_block_size`
    AuxBlockSize,
}

/// How a caller should treat an error.
#[derive(Clone, Copy, Debug, PartialEq, Eq, Structural)]
pub enum ErrorKind {
    /// Well-formed input that asks for something not offered.
    Unsupported,
    /// Input that breaks the rules of its format.
    Invalid,
    /// The caller used the interface out of turn.
    Misuse,
    /// Nothing to hand out until more input arrives.
    NeedMore,
    /// Nothing to hand out any more.
    EndOfStream,
}

/// Why an operation was refused, with the figures that tell the story.
#[derive(Clone, Copy, Debug, PartialEq, Eq, Structural)]
pub enum Error {
    /// The component does not handle this many channels.
    ChannelCount { component: Component, channels: usize },
    /// The block does not hold its own header.
    BlockTooShort { component: Component, len: usize, header: usize },
    /// A header names a step index above 88.
    StepIndex { component: Component, index: u8, channel: usize },
    /// The bytes behind the header are no whole number of channel groups.
    BodyLength { component: Component, len: usize, group: usize, channels: usize },
    /// Fewer bytes than one block per channel.
    ShortInput { need: usize, channels: usize, len: usize },
    /// A packet that is no whole number of blocks.
    PacketLength { len: usize, block: usize, channels: usize },
    /// A coefficient table without the seven presets.
    CoeffTableTooSmall { sets: usize },
    /// A block header names a coefficient set that the table lacks.
    PredictorIndex { index: u8, sets: usize },
    /// A format trailer declares fewer than seven coefficient sets.
    TrailerTooFewSets { sets: usize },
    /// A format trailer ends before its last coefficient set.
    TrailerTooShort { sets: usize, need: usize, len: usize },
    /// One of the first seven sets of a format trailer is not the preset.
    TrailerPreset { set: usize, coef1: i32, coef2: i32 },
    /// A trailer was asked for with fewer than seven coefficient sets.
    BuildTooFewSets { sets: usize },
    /// A trailer was asked for with a changed preset.
    BuildPreset { set: usize, coef1: i32, coef2: i32 },
    /// The samples do not divide evenly among the channels.
    UnevenSamples { samples: usize, channels: usize },
    /// Fewer than the two samples per channel that open a block.
    TooFewSamples,
    /// The block size does not leave room for the header.
    BlockSize { component: Component, block_size: usize, header: usize },
    /// Not enough samples to fill a block.
    NotEnoughSamples { have: usize, need: usize, block_size: usize },
    /// A block takes one exact number of samples.
    SampleCount { component: Component, got: usize, per_channel: usize, channels: usize },
    /// PCM bytes that do not pair up into 16-bit samples.
    PcmByteCount { len: usize },
    /// PCM samples that do not divide evenly among the channels.
    PcmSampleCount { samples: usize, channels: usize },
    /// No codec of this family has that name.
    UnknownCodec { component: Component },
    /// A stream has at least one channel.
    ZeroChannels { component: Component },
    /// The option means nothing to this variant.
    OptionNotApplicable { option: OptionKey, variant: Variant },
    /// The option has no such value.
    OptionValue { option: OptionKey, variant: Variant },
    /// The option takes a number.
    OptionNotANumber { option: OptionKey },
    /// The option takes a number above zero.
    OptionZero { option: OptionKey },
    /// A code width that the variant does not have.
    CodeWidth { variant: Variant, bits: u8 },
    /// The WAV sub-block layout does not carry the two-bit rate.
    WavFramingRate,
    /// The WAV sub-block layout fixes the bit order.
    WavFramingBitOrder,
    /// The decoded samples do not divide evenly among the channels.
    UnevenOutput { samples: usize, channels: usize },
    /// The frame of the last packet has not been taken yet.
    FramePending,
    /// Nothing to hand out until more input arrives.
    NeedMore,
    /// Nothing to hand out any more.
    EndOfStream,
}

impl Error {
    /// Whether the error is one of capability rather than of malformed input.
    pub open spec fn is_unsupported(self) -> bool {
        match self {
            Error::ChannelCount { .. }
            | Error::UnknownCodec { .. }
            | Error::ZeroChannels { .. }
            | Error::OptionNotApplicable { .. }
            | Error::OptionValue { .. }
            | Error::CodeWidth { .. }
            | Error::WavFramingRate
            | Error::WavFramingBitOrder => true,
            _ => false,
        }
    }

    /// How a caller should treat the error.
    pub fn kind(self) -> (r: ErrorKind)
        ensures
            r == ErrorKind::NeedMore <==> self == Error::NeedMore,
            r == ErrorKind::EndOfStream <==> self == Error::EndOfStream,
            r == ErrorKind::Misuse <==> self == Error::FramePending,
            r == ErrorKind::Unsupported <==> self.is_unsupported(),
    {
        match self {
            Error::NeedMore => ErrorKind::NeedMore,
            Error::EndOfStream => ErrorKind::EndOfStream,
            Error::FramePending => ErrorKind::Misuse,
            Error::ChannelCount { .. }
            | Error::UnknownCodec { .. }
            | Error::ZeroChannels { .. }
            | Error::OptionNotApplicable { .. }
            | Error::OptionValue { .. }
            | Error::CodeWidth { .. }
            | Error::WavFramingRate
            | Error::WavFramingBitOrder => ErrorKind::Unsupported,
            _ => ErrorKind::Invalid,
        }
    }
}

} // verus!
