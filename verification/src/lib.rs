//! ADPCM audio: seven codecs of one family, decoded and encoded.

use vstd::prelude::*;

pub mod arith;
pub mod bits;
pub mod companding;
pub mod config;
pub mod decoder;
pub mod dialogic;
pub mod encoder;
pub mod encoders;
pub mod error;
pub mod expansion;
pub mod frame_encoder;
pub mod g711;
pub mod g726;
pub mod g726_packets;
pub mod g726_rules;
pub mod ima_layout;
pub mod ima_qt;
pub mod ima_wav;
pub mod interleave;
pub mod ladder;
pub mod lanes;
pub mod measures;
pub mod ms;
pub mod openings;
pub mod options;
pub mod params;
pub mod pcm;
pub mod quantizing;
pub mod round_trip;
pub mod step_ladder;
pub mod stream_encoder;
pub mod stream_laws;
pub mod tables;
pub mod tandem;
pub mod text;
pub mod three_bit;
pub mod timeline;
pub mod variant;
pub mod wire;
pub mod words;
pub mod yamaha;
pub mod yamaha_a;

pub use variant::{Shape, Variant};

verus! {

/// The name of Microsoft ADPCM.
pub const CODEC_ID_MS: &'static str = "adpcm_ms";

/// The name of IMA ADPCM in WAV blocks.
pub const CODEC_ID_IMA_WAV: &'static str = "adpcm_ima_wav";

/// The name of IMA ADPCM in QuickTime blocks.
pub const CODEC_ID_IMA_QT: &'static str = "adpcm_ima_qt";

/// The name of Yamaha ADPCM-B (DELTA-T: Y8950, YM2608-B, YMZ280B, AICA).
pub const CODEC_ID_YAMAHA: &'static str = "adpcm_yamaha";

/// The name of Yamaha ADPCM-A, the codec of the YM2608 and YM2610 rhythm
/// channels.
pub const CODEC_ID_YAMAHA_A: &'static str = "adpcm_yamaha_a";

/// The name of OKI / Dialogic ADPCM (VOX).
pub const CODEC_ID_DIALOGIC: &'static str = "adpcm_dialogic";

/// The name of ITU-T G.726.
pub const CODEC_ID_G726: &'static str = "adpcm_g726";

} // verus!
