//! The members of the family and what containers need to know of them.

use vstd::prelude::*;

use crate::g726::{wav_format_extra, wav_rate_supported, Rate};
use crate::ima_qt::{qt_samples, QT_BLOCK_SIZE, QT_MAX_CHANNELS, QT_SAMPLES_PER_BLOCK};
use crate::ima_wav::wav_samples4;
use crate::ms::{
    build_error, build_extradata, first_changed_preset, ms_code_count, ms_samples, trailer_bytes,
    trailer_error, trailer_pairs, trailer_round_trip, CoefPair, STANDARD_COEFFS,
};
use crate::text::same_text;
use crate::{
    CODEC_ID_DIALOGIC, CODEC_ID_G726, CODEC_ID_IMA_QT, CODEC_ID_IMA_WAV, CODEC_ID_MS,
    CODEC_ID_YAMAHA, CODEC_ID_YAMAHA_A,
};

verus! {

/// Which codec of the family.
#[derive(Clone, Copy, Debug, PartialEq, Eq, Structural)]
pub enum Variant {
    /// Microsoft ADPCM.
    Ms,
    /// IMA ADPCM in WAV blocks.
    ImaWav,
    /// IMA ADPCM in QuickTime blocks.
    ImaQt,
    /// Yamaha ADPCM-B (DELTA-T).
    Yamaha,
    /// Yamaha ADPCM-A.
    YamahaA,
    /// OKI / Dialogic VOX.
    Dialogic,
    /// ITU-T G.726.
    G726,
}

/// How a variant carries its state over the wire.
#[derive(Clone, Copy, Debug, PartialEq, Eq, Structural)]
pub enum Shape {
    /// Each block opens with the state of its channels, and no block depends
    /// on another.
    BlockOriented,
    /// One run of codes without headers; the state lives on from packet to
    /// packet.
    StreamOriented,
}

/// The variants that the registry offers, in order.
pub const ALL_VARIANTS: [Variant; 6] = [
    Variant::Ms,
    Variant::ImaWav,
    Variant::ImaQt,
    Variant::Yamaha,
    Variant::YamahaA,
    Variant::Dialogic,
];

pub const MS_TAGS: [u16; 1] = [0x0002];

pub const IMA_WAV_TAGS: [u16; 1] = [0x0011];

pub const YAMAHA_TAGS: [u16; 1] = [0x0020];

pub const DIALOGIC_TAGS: [u16; 2] = [0x0010, 0x0203];

pub const G726_TAGS: [u16; 2] = [0x0040, 0x0014];

pub const NO_TAGS: [u16; 0] = [];

/// The four-character code `ima4`.
pub const IMA4: [u8; 4] = [0x69, 0x6d, 0x61, 0x34];

impl Variant {
    /// The variants that the registry offers, in order.
    pub fn all() -> (r: &'static [Variant])
        ensures
            r@ == ALL_VARIANTS@,
    {
        &ALL_VARIANTS
    }

    /// The name of the codec.
    pub open spec fn name(self) -> Seq<char> {
        match self {
            Variant::Ms => CODEC_ID_MS@,
            Variant::ImaWav => CODEC_ID_IMA_WAV@,
            Variant::ImaQt => CODEC_ID_IMA_QT@,
            Variant::Yamaha => CODEC_ID_YAMAHA@,
            Variant::YamahaA => CODEC_ID_YAMAHA_A@,
            Variant::Dialogic => CODEC_ID_DIALOGIC@,
            Variant::G726 => CODEC_ID_G726@,
        }
    }

    /// The name of the codec.
    pub fn codec_id(self) -> (r: &'static str)
        ensures
            r@ == self.name(),
    {
        match self {
            Variant::Ms => CODEC_ID_MS,
            Variant::ImaWav => CODEC_ID_IMA_WAV,
            Variant::ImaQt => CODEC_ID_IMA_QT,
            Variant::Yamaha => CODEC_ID_YAMAHA,
            Variant::YamahaA => CODEC_ID_YAMAHA_A,
            Variant::Dialogic => CODEC_ID_DIALOGIC,
            Variant::G726 => CODEC_ID_G726,
        }
    }

    /// The variant of that name.
    pub fn from_codec_id(id: &str) -> (r: Option<Variant>)
        ensures
            r == variant_named(id@),
    {
        if same_text(id, CODEC_ID_MS) {
            Some(Variant::Ms)
        } else if same_text(id, CODEC_ID_IMA_WAV) {
            Some(Variant::ImaWav)
        } else if same_text(id, CODEC_ID_IMA_QT) {
            Some(Variant::ImaQt)
        } else if same_text(id, CODEC_ID_YAMAHA) {
            Some(Variant::Yamaha)
        } else if same_text(id, CODEC_ID_YAMAHA_A) {
            Some(Variant::YamahaA)
        } else if same_text(id, CODEC_ID_DIALOGIC) {
            Some(Variant::Dialogic)
        } else if same_text(id, CODEC_ID_G726) {
            Some(Variant::G726)
        } else {
            None
        }
    }

    /// The WAV format tags that stand for the variant, the canonical one
    /// first.
    pub open spec fn tags(self) -> Seq<u16> {
        match self {
            Variant::Ms => MS_TAGS@,
            Variant::ImaWav => IMA_WAV_TAGS@,
            Variant::Yamaha => YAMAHA_TAGS@,
            Variant::Dialogic => DIALOGIC_TAGS@,
            Variant::G726 => G726_TAGS@,
            Variant::ImaQt | Variant::YamahaA => NO_TAGS@,
        }
    }

    /// The canonical WAV format tag, where there is one.
    pub fn wave_format_tag(self) -> (r: Option<u16>)
        ensures
            r == (if self.tags().len() == 0 {
                None
            } else {
                Some(self.tags()[0])
            }),
    {
        let tags: &[u16] = self.wave_format_tags();
        if tags.len() == 0 {
            None
        } else {
            Some(tags[0])
        }
    }

    /// The WAV format tags that stand for the variant, the canonical one
    /// first. QuickTime goes by a four-character code instead, and ADPCM-A has
    /// no container of its own.
    pub fn wave_format_tags(self) -> (r: &'static [u16])
        ensures
            r@ == self.tags(),
    {
        match self {
            Variant::Ms => &MS_TAGS,
            Variant::ImaWav => &IMA_WAV_TAGS,
            Variant::Yamaha => &YAMAHA_TAGS,
            Variant::Dialogic => &DIALOGIC_TAGS,
            Variant::G726 => &G726_TAGS,
            Variant::ImaQt | Variant::YamahaA => &NO_TAGS,
        }
    }

    /// The variant that a WAV format tag stands for.
    pub fn from_wave_format_tag(tag: u16) -> (r: Option<Variant>)
        ensures
            r == variant_tagged(tag),
    {
        match tag {
            0x0002 => Some(Variant::Ms),
            0x0010 | 0x0203 => Some(Variant::Dialogic),
            0x0011 => Some(Variant::ImaWav),
            0x0020 => Some(Variant::Yamaha),
            0x0040 | 0x0014 => Some(Variant::G726),
            _ => None,
        }
    }

    /// The four-character code of the variant in QuickTime, `ima4`, which only
    /// one variant has.
    pub fn fourcc(self) -> (r: Option<[u8; 4]>)
        ensures
            match r {
                Some(code) => self == Variant::ImaQt && code@ == IMA4@,
                None => self != Variant::ImaQt,
            },
    {
        match self {
            Variant::ImaQt => Some(IMA4),
            _ => None,
        }
    }

    /// The variant that a four-character code stands for.
    pub fn from_fourcc(fourcc: [u8; 4]) -> (r: Option<Variant>)
        ensures
            r == (if fourcc@ == IMA4@ {
                Some(Variant::ImaQt)
            } else {
                None
            }),
    {
        if fourcc[0] == IMA4[0] && fourcc[1] == IMA4[1] && fourcc[2] == IMA4[2] && fourcc[3]
            == IMA4[3] {
            assert(fourcc@ =~= IMA4@);
            Some(Variant::ImaQt)
        } else {
            None
        }
    }

    /// How the variant carries its state.
    pub open spec fn form(self) -> Shape {
        match self {
            Variant::Ms | Variant::ImaWav | Variant::ImaQt => Shape::BlockOriented,
            _ => Shape::StreamOriented,
        }
    }

    /// How the variant carries its state.
    pub fn shape(self) -> (r: Shape)
        ensures
            r == self.form(),
    {
        match self {
            Variant::Ms | Variant::ImaWav | Variant::ImaQt => Shape::BlockOriented,
            Variant::Yamaha | Variant::YamahaA | Variant::Dialogic | Variant::G726 => {
                Shape::StreamOriented
            },
        }
    }

    /// The most channels of the variant; ADPCM-B has no limit.
    pub open spec fn channel_limit(self) -> Option<u16> {
        match self {
            Variant::Ms => Some(2),
            Variant::ImaWav => Some(8),
            Variant::ImaQt => Some(8),
            Variant::Yamaha => None,
            Variant::YamahaA => Some(1),
            Variant::Dialogic => Some(2),
            Variant::G726 => Some(1),
        }
    }

    /// The most channels of the variant; ADPCM-B has no limit.
    pub fn max_channels(self) -> (r: Option<u16>)
        ensures
            r == self.channel_limit(),
    {
        match self {
            Variant::Ms => Some(2),
            Variant::ImaWav => Some(8),
            Variant::ImaQt => Some(QT_MAX_CHANNELS as u16),
            Variant::Yamaha => None,
            Variant::YamahaA => Some(1),
            Variant::Dialogic => Some(2),
            Variant::G726 => Some(1),
        }
    }

    /// The bytes that open a block, per channel.
    pub open spec fn header_unit(self) -> int {
        match self {
            Variant::Ms => 7,
            Variant::ImaWav => 4,
            _ => 2,
        }
    }

    /// The bytes that open a block; streams and blocks without a channel have
    /// none.
    pub fn header_bytes(self, channels: u16) -> (r: Option<usize>)
        ensures
            match r {
                Some(n) => {
                    &&& channels > 0
                    &&& self.form() == Shape::BlockOriented
                    &&& n == self.header_unit() * channels
                },
                None => channels == 0 || self.form() == Shape::StreamOriented,
            },
    {
        if channels == 0 {
            return None;
        }
        let ch: usize = channels as usize;
        match self {
            Variant::Ms => Some(7 * ch),
            Variant::ImaWav => Some(4 * ch),
            Variant::ImaQt => Some(2 * ch),
            Variant::Yamaha | Variant::YamahaA | Variant::Dialogic | Variant::G726 => None,
        }
    }

    /// The samples of a block, computed without a limit to their number.
    fn samples_in(self, channels: u16, block_bytes: usize) -> (r: Option<u128>)
        ensures
            match r {
                Some(n) => block_samples(self, channels as int, block_bytes as int) == Some(
                    n as int,
                ),
                None => block_samples(self, channels as int, block_bytes as int) is None,
            },
    {
        let ch: u128 = channels as u128;
        let len: u128 = block_bytes as u128;
        match self {
            Variant::Ms => {
                if ch < 1 || ch > 2 || len < 7 * ch || (len - 7 * ch) % ch != 0 {
                    None
                } else {
                    Some(2 + 2 * ((len - 7 * ch) / ch))
                }
            },
            Variant::ImaWav => {
                if ch < 1 || ch > 8 || len < 4 * ch || (len - 4 * ch) % (4 * ch) != 0 {
                    None
                } else {
                    Some(1 + 8 * ((len - 4 * ch) / (4 * ch)))
                }
            },
            Variant::ImaQt => {
                let unit: u128 = QT_BLOCK_SIZE as u128;
                assert(unit == 34);
                if ch < 1 || ch > 8 || len != unit * ch {
                    None
                } else {
                    Some(QT_SAMPLES_PER_BLOCK as u128)
                }
            },
            Variant::Yamaha | Variant::YamahaA | Variant::Dialogic | Variant::G726 => None,
        }
    }

    /// The samples per channel of a block of so many bytes.
    pub fn samples_per_block(self, channels: u16, block_bytes: usize) -> (r: Option<usize>)
        requires
            block_samples(self, channels as int, block_bytes as int) matches Some(n) ==> n
                <= usize::MAX,
        ensures
            match r {
                Some(n) => block_samples(self, channels as int, block_bytes as int) == Some(
                    n as int,
                ),
                None => block_samples(self, channels as int, block_bytes as int) is None,
            },
    {
        match self.samples_in(channels, block_bytes) {
            Some(n) => Some(n as usize),
            None => None,
        }
    }

    /// The bytes of a block of so many samples per channel.
    pub fn block_size_bytes(self, channels: u16, samples_per_channel: usize) -> (r: Option<usize>)
        requires
            block_bytes(self, channels as int, samples_per_channel as int) matches Some(n) ==> n
                <= usize::MAX,
        ensures
            match r {
                Some(n) => block_bytes(
                    self,
                    channels as int,
                    samples_per_channel as int,
                ) == Some(n as int),
                None => block_bytes(self, channels as int, samples_per_channel as int) is None,
            },
    {
        let ch: u128 = channels as u128;
        let n: u128 = samples_per_channel as u128;
        match self {
            Variant::Ms => {
                if ch < 1 || ch > 2 || n < 2 || n % 2 != 0 {
                    return None;
                }
                assert((n - 2) * ch == (if ch == 1 { n - 2 } else { 2 * (n - 2) })) by (
                nonlinear_arith)
                    requires
                        ch == 1 || ch == 2,
                ;
                let nibbles: u128 = (n - 2) * ch;
                Some((7 * ch + nibbles / 2) as usize)
            },
            Variant::ImaWav => {
                if ch < 1 || ch > 8 || n < 1 || (n - 1) % 8 != 0 {
                    return None;
                }
                let groups: u128 = (n - 1) / 8;
                assert(groups * (4 * ch) <= 32 * groups) by (nonlinear_arith)
                    requires
                        1 <= ch <= 8,
                        groups >= 0,
                ;
                Some((4 * ch + groups * (4 * ch)) as usize)
            },
            Variant::ImaQt => {
                if ch < 1 || ch > 8 || n != QT_SAMPLES_PER_BLOCK as u128 {
                    return None;
                }
                Some(QT_BLOCK_SIZE * channels as usize)
            },
            Variant::Yamaha | Variant::YamahaA | Variant::Dialogic | Variant::G726 => None,
        }
    }

    /// The extension of a WAV format header for blocks of so many bytes,
    /// without the word that counts its bytes.
    pub fn build_wave_format_extra(self, channels: u16, block_align: usize) -> (r: Option<Vec<u8>>)
        ensures
            match r {
                Some(ext) => format_extra(self, channels as int, block_align as int) == Some(ext@),
                None => format_extra(self, channels as int, block_align as int) is None,
            },
    {
        if self == Variant::G726 {
            if channels == 0 || channels > 2 {
                return None;
            }
            let unit: usize = 16 * channels as usize;
            assert(unit == 16 || unit == 32);
            if block_align % unit != 0 {
                return None;
            }
            let bits: usize = block_align / unit;
            assert(block_align == bits * unit) by {
                vstd::arithmetic::div_mod::lemma_fundamental_div_mod(
                    block_align as int,
                    unit as int,
                );
                vstd::arithmetic::mul::lemma_mul_is_commutative(bits as int, unit as int);
            }
            assert(unit == 16 ==> block_align == 16 * bits);
            assert(unit == 32 ==> block_align == 32 * bits);
            if bits > 255 {
                return None;
            }
            return match Rate::from_bits(bits as u8) {
                Some(rate) => {
                    if wav_rate_supported(rate) {
                        let word: [u8; 2] = wav_format_extra(0);
                        let ext: Vec<u8> = vec![word[0], word[1]];
                        assert(ext@ =~= seq![0u8, 0u8]);
                        Some(ext)
                    } else {
                        None
                    }
                },
                None => None,
            };
        }
        let n: u128 = match self.samples_in(channels, block_align) {
            Some(n) => n,
            None => {
                return None;
            },
        };
        if n > 65535 {
            return None;
        }
        let word: u16 = n as u16;
        match self {
            Variant::Ms => {
                proof {
                    presets_are_in_order();
                }
                match build_extradata(word, &STANDARD_COEFFS) {
                    Ok(ext) => Some(ext),
                    Err(_) => None,
                }
            },
            Variant::ImaWav => {
                let ext: Vec<u8> = vec![(word % 256) as u8, (word / 256) as u8];
                assert(ext@ =~= word_bytes_of(word));
                Some(ext)
            },
            _ => None,
        }
    }
}

/// The variant of that name.
pub open spec fn variant_named(name: Seq<char>) -> Option<Variant> {
    if name == Variant::Ms.name() {
        Some(Variant::Ms)
    } else if name == Variant::ImaWav.name() {
        Some(Variant::ImaWav)
    } else if name == Variant::ImaQt.name() {
        Some(Variant::ImaQt)
    } else if name == Variant::Yamaha.name() {
        Some(Variant::Yamaha)
    } else if name == Variant::YamahaA.name() {
        Some(Variant::YamahaA)
    } else if name == Variant::Dialogic.name() {
        Some(Variant::Dialogic)
    } else if name == Variant::G726.name() {
        Some(Variant::G726)
    } else {
        None
    }
}

/// The variant that a WAV format tag stands for.
pub open spec fn variant_tagged(tag: u16) -> Option<Variant> {
    if tag == 0x0002 {
        Some(Variant::Ms)
    } else if tag == 0x0010 || tag == 0x0203 {
        Some(Variant::Dialogic)
    } else if tag == 0x0011 {
        Some(Variant::ImaWav)
    } else if tag == 0x0020 {
        Some(Variant::Yamaha)
    } else if tag == 0x0040 || tag == 0x0014 {
        Some(Variant::G726)
    } else {
        None
    }
}

/// The samples per channel of a block, where the bytes make one.
pub open spec fn block_samples(variant: Variant, channels: int, len: int) -> Option<int> {
    match variant {
        Variant::Ms => {
            if channels < 1 || channels > 2 || len < 7 * channels || (len - 7 * channels)
                % channels != 0 {
                None
            } else {
                Some(2 + 2 * ((len - 7 * channels) / channels))
            }
        },
        Variant::ImaWav => {
            if channels < 1 || channels > 8 || len < 4 * channels || (len - 4 * channels) % (4
                * channels) != 0 {
                None
            } else {
                Some(1 + 8 * ((len - 4 * channels) / (4 * channels)))
            }
        },
        Variant::ImaQt => {
            if channels < 1 || channels > 8 || len != 34 * channels {
                None
            } else {
                Some(64)
            }
        },
        _ => None,
    }
}

/// The bytes of a block, where the samples per channel make one. A Microsoft
/// block holds whole bytes of codes for every channel, so its samples per channel
/// are even in number.
pub open spec fn block_bytes(variant: Variant, channels: int, samples: int) -> Option<int> {
    match variant {
        Variant::Ms => {
            if channels < 1 || channels > 2 || samples < 2 || samples % 2 != 0 {
                None
            } else {
                Some(7 * channels + ((samples - 2) * channels) / 2)
            }
        },
        Variant::ImaWav => {
            if channels < 1 || channels > 8 || samples < 1 || (samples - 1) % 8 != 0 {
                None
            } else {
                Some(4 * channels + ((samples - 1) / 8) * (4 * channels))
            }
        },
        Variant::ImaQt => {
            if channels < 1 || channels > 8 || samples != 64 {
                None
            } else {
                Some(34 * channels)
            }
        },
        _ => None,
    }
}

/// The two bytes of a word, the low one first.
pub open spec fn word_bytes_of(word: u16) -> Seq<u8> {
    seq![(word % 256) as u8, (word / 256) as u8]
}

/// The extension of a WAV format header: the samples per block, and for
/// Microsoft ADPCM the seven presets; for G.726, whose blocks then hold sixteen
/// sub-blocks of three, four or five bytes per channel, the count of auxiliary
/// bytes, which is zero.
pub open spec fn format_extra(variant: Variant, channels: int, block_align: int) -> Option<
    Seq<u8>,
> {
    if variant == Variant::G726 {
        if (channels == 1 || channels == 2) && (block_align == 48 * channels || block_align == 64
            * channels || block_align == 80 * channels) {
            Some(seq![0u8, 0u8])
        } else {
            None
        }
    } else {
        match block_samples(variant, channels, block_align) {
            Some(n) => {
                if n > 65535 {
                    None
                } else if variant == Variant::Ms {
                    Some(trailer_bytes(n as u16, STANDARD_COEFFS@))
                } else if variant == Variant::ImaWav {
                    Some(word_bytes_of(n as u16))
                } else {
                    None
                }
            },
            None => None,
        }
    }
}

/// The preset table is accepted as it stands.
proof fn presets_are_in_order()
    ensures
        build_error(STANDARD_COEFFS@) is None,
{
    reveal_with_fuel(first_changed_preset, 8);
}

/// Reading the extension of Microsoft ADPCM gives the preset table.
pub proof fn format_extra_round_trip(channels: int, block_align: int)
    requires
        format_extra(Variant::Ms, channels, block_align) is Some,
    ensures
        trailer_error(format_extra(Variant::Ms, channels, block_align)->0) is None,
        trailer_pairs(format_extra(Variant::Ms, channels, block_align)->0) == STANDARD_COEFFS@,
{
    let n = block_samples(Variant::Ms, channels, block_align)->0 as u16;
    presets_are_in_order();
    assert forall|i: int| 0 <= i < STANDARD_COEFFS@.len() implies -32768 <= (
    #[trigger] STANDARD_COEFFS@[i]).0 <= 32767 && -32768 <= STANDARD_COEFFS@[i].1 <= 32767 by {
        assert(i == 0 || i == 1 || i == 2 || i == 3 || i == 4 || i == 5 || i == 6);
    }
    trailer_round_trip(n, STANDARD_COEFFS@);
}

/// No two variants have the same name.
pub proof fn names_differ(a: Variant, b: Variant)
    requires
        a.name() == b.name(),
    ensures
        a == b,
{
    reveal_strlit("adpcm_ms");
    reveal_strlit("adpcm_ima_wav");
    reveal_strlit("adpcm_ima_qt");
    reveal_strlit("adpcm_yamaha");
    reveal_strlit("adpcm_yamaha_a");
    reveal_strlit("adpcm_dialogic");
    reveal_strlit("adpcm_g726");
    assert(CODEC_ID_MS@.len() == 8);
    assert(CODEC_ID_IMA_WAV@.len() == 13);
    assert(CODEC_ID_IMA_QT@.len() == 12 && CODEC_ID_IMA_QT@[6] == 'i');
    assert(CODEC_ID_YAMAHA@.len() == 12 && CODEC_ID_YAMAHA@[6] == 'y');
    assert(CODEC_ID_YAMAHA_A@.len() == 14 && CODEC_ID_YAMAHA_A@[6] == 'y');
    assert(CODEC_ID_DIALOGIC@.len() == 14 && CODEC_ID_DIALOGIC@[6] == 'd');
    assert(CODEC_ID_G726@.len() == 10);
}

/// A variant's name leads back to the variant, and nothing else does.
pub proof fn names_round_trip(v: Variant, name: Seq<char>)
    ensures
        variant_named(v.name()) == Some(v),
        variant_named(name) == Some(v) ==> name == v.name(),
{
    names_differ(Variant::Ms, Variant::Ms);
    match variant_named(v.name()) {
        Some(w) => {
            names_differ(v, w);
        },
        None => {},
    }
}

/// Every tag of a variant leads back to the variant, and no other tag does.
pub proof fn tags_round_trip(v: Variant, tag: u16)
    ensures
        variant_tagged(tag) == Some(v) <==> v.tags().contains(tag),
{
    if v.tags().contains(tag) {
        let k = choose|k: int| 0 <= k < v.tags().len() && v.tags()[k] == tag;
        assert(v.tags()[k] == tag);
    }
    if variant_tagged(tag) == Some(v) {
        if tag == 0x0203 || tag == 0x0014 {
            assert(v.tags()[1] == tag);
        } else {
            assert(v.tags()[0] == tag);
        }
    }
}

/// A block of the bytes that so many samples need holds that many samples.
pub proof fn block_bytes_round_trip(v: Variant, channels: int, samples: int)
    requires
        block_bytes(v, channels, samples) is Some,
    ensures
        block_samples(v, channels, block_bytes(v, channels, samples)->0) == Some(samples),
{
    let b = block_bytes(v, channels, samples)->0;
    match v {
        Variant::Ms => {
            if channels == 1 {
                assert((samples - 2) * channels == samples - 2);
            } else {
                assert((samples - 2) * channels == 2 * (samples - 2)) by (nonlinear_arith)
                    requires
                        channels == 2,
                ;
            }
        },
        Variant::ImaWav => {
            let g = (samples - 1) / 8;
            vstd::arithmetic::div_mod::lemma_div_multiples_vanish(g, 4 * channels);
            vstd::arithmetic::div_mod::lemma_mod_multiples_basic(g, 4 * channels);
            vstd::arithmetic::mul::lemma_mul_is_commutative(g, 4 * channels);
            assert(g * (4 * channels) >= 0) by (nonlinear_arith)
                requires
                    g >= 0,
                    channels >= 0,
            ;
        },
        _ => {},
    }
}

/// The samples of a block need just its bytes.
pub proof fn block_samples_round_trip(v: Variant, channels: int, len: int)
    requires
        block_samples(v, channels, len) is Some,
    ensures
        block_bytes(v, channels, block_samples(v, channels, len)->0) == Some(len),
{
    let n = block_samples(v, channels, len)->0;
    match v {
        Variant::Ms => {
            if channels == 1 {
                assert((n - 2) * channels == n - 2);
            } else {
                assert((n - 2) * channels == 2 * (n - 2)) by (nonlinear_arith)
                    requires
                        channels == 2,
                ;
            }
        },
        Variant::ImaWav => {
            let body = len - 4 * channels;
            vstd::arithmetic::div_mod::lemma_fundamental_div_mod(body, 4 * channels);
            vstd::arithmetic::mul::lemma_mul_is_commutative(
                body / (4 * channels),
                4 * channels,
            );
            vstd::arithmetic::div_mod::lemma_div_pos_is_pos(body, 4 * channels);
        },
        _ => {},
    }
}

/// The samples of a block and its bytes determine each other.
pub proof fn block_sizes_invert(v: Variant, channels: int, samples: int, len: int)
    ensures
        block_bytes(v, channels, samples) == Some(len) <==> block_samples(v, channels, len) == Some(
            samples,
        ),
{
    if block_bytes(v, channels, samples) == Some(len) {
        block_bytes_round_trip(v, channels, samples);
    }
    if block_samples(v, channels, len) == Some(samples) {
        block_samples_round_trip(v, channels, len);
    }
}

/// A decoder puts out as many samples per channel as the block's bytes say.
pub proof fn decoded_length(v: Variant, channels: int, block: Seq<u8>, coeffs: Seq<CoefPair>)
    requires
        block_samples(v, channels, block.len() as int) is Some,
    ensures
        ({
            let n = block_samples(v, channels, block.len() as int)->0;
            &&& v == Variant::Ms ==> ms_samples(block, channels, coeffs).len() == n * channels
            &&& v == Variant::ImaWav ==> wav_samples4(block, channels).len() == n * channels
            &&& v == Variant::ImaQt ==> qt_samples(block, channels).len() == n * channels
        }),
{
    let len = block.len() as int;
    let n = block_samples(v, channels, len)->0;
    if v == Variant::Ms {
        if channels == 1 {
            vstd::arithmetic::div_mod::lemma_div_basics(len - 7);
            vstd::arithmetic::div_mod::lemma_div_basics(2 * (len - 7));
            assert(n == 2 + 2 * ((len - 7) / 1));
            assert(n == 2 + ms_code_count(len, 1));
        } else {
            assert(channels == 2);
            let body = len - 14;
            assert(n == 2 + 2 * (body / 2) && body % 2 == 0);
            vstd::arithmetic::div_mod::lemma_fundamental_div_mod(body, 2);
            vstd::arithmetic::div_mod::lemma_div_multiples_vanish(body, 2);
            assert(n == 2 + ms_code_count(len, 2));
        }
    }
    if v == Variant::ImaWav {
        vstd::arithmetic::div_mod::lemma_div_pos_is_pos(len - 4 * channels, 4 * channels);
    }
    assert(n * channels >= 0) by (nonlinear_arith)
        requires
            n >= 0,
            channels >= 0,
    ;
}

} // verus!
