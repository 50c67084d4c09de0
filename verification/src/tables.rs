//! The constant tables of the ADPCM family.

use vstd::prelude::*;

verus! {

/// Microsoft ADPCM: step multipliers by code, over 256.
pub const MS_ADAPTATION: [i32; 16] = [
    230, 230, 230, 230, 307, 409, 512, 614, 768, 614, 512, 409, 307, 230, 230, 230,
];

/// Microsoft ADPCM: preset weights of the last sample, over 256.
pub const MS_ADAPT_COEFF1: [i32; 7] = [256, 512, 0, 192, 240, 460, 392];

/// Microsoft ADPCM: preset weights of the sample before the last, over 256.
pub const MS_ADAPT_COEFF2: [i32; 7] = [0, -256, 0, 64, 0, -208, -232];

/// IMA ADPCM: quantizer step by step index.
pub const IMA_STEP_SIZE: [i16; 89] = [
    7, 8, 9, 10, 11, 12, 13, 14, 16, 17, 19, 21, 23, 25, 28, 31, 34, 37, 41, 45, 50, 55, 60, 66,
    73, 80, 88, 97, 107, 118, 130, 143, 157, 173, 190, 209, 230, 253, 279, 307, 337, 371, 408, 449,
    494, 544, 598, 658, 724, 796, 876, 963, 1060, 1166, 1282, 1411, 1552, 1707, 1878, 2066, 2272,
    2499, 2749, 3024, 3327, 3660, 4026, 4428, 4871, 5358, 5894, 6484, 7132, 7845, 8630, 9493,
    10442, 11487, 12635, 13899, 15289, 16818, 18500, 20350, 22385, 24623, 27086, 29794, 32767,
];

/// IMA ADPCM: step-index change by four-bit code. The sign bit plays no part.
pub const IMA_INDEX_ADJUST: [i32; 16] = [-1, -1, -1, -1, 2, 4, 6, 8, -1, -1, -1, -1, 2, 4, 6, 8];

/// IMA ADPCM: step-index change by three-bit code. The sign bit plays no part.
pub const IMA3_INDEX_ADJUST: [i32; 8] = [-1, -1, 1, 2, -1, -1, 1, 2];

/// Yamaha ADPCM-B: twice the code's magnitude plus one, in eighths of a step.
pub const YAMAHA_DIFF_LOOKUP: [i32; 8] = [1, 3, 5, 7, 9, 11, 13, 15];

/// Yamaha ADPCM-B on the AICA and Y8950 chips: step multiplier by magnitude, over 256.
pub const YAMAHA_INDEX_SCALE: [i32; 8] = [230, 230, 230, 230, 307, 409, 512, 614];

/// Yamaha ADPCM-B on the YM2608 (OPNA) chip: step multiplier by magnitude, over 64.
pub const YAMAHA_INDEX_SCALE_OPNA: [i32; 8] = [57, 57, 57, 57, 77, 102, 128, 153];

/// Yamaha ADPCM-B: smallest step.
pub const YAMAHA_STEP_MIN: i32 = 127;

/// Yamaha ADPCM-B: largest step.
pub const YAMAHA_STEP_MAX: i32 = 24576;

/// OKI / Dialogic VOX: quantizer step by step index.
pub const OKI_STEP_SIZE: [i16; 49] = [
    16, 17, 19, 21, 23, 25, 28, 31, 34, 37, 41, 45, 50, 55, 60, 66, 73, 80, 88, 97, 107, 118, 130,
    143, 157, 173, 190, 209, 230, 253, 279, 307, 337, 371, 408, 449, 494, 544, 598, 658, 724, 796,
    876, 963, 1060, 1166, 1282, 1411, 1552,
];

/// OKI / Dialogic VOX: step-index change by magnitude.
pub const OKI_INDEX_ADJUST: [i32; 8] = [-1, -1, -1, -1, 2, 4, 6, 8];

/// OKI / Dialogic VOX: smallest step index.
pub const OKI_STEP_INDEX_MIN: i32 = 0;

/// OKI / Dialogic VOX: largest step index.
pub const OKI_STEP_INDEX_MAX: i32 = 48;

/// OKI / Dialogic VOX: smallest 12-bit sample.
pub const OKI_PREDICTOR_MIN: i32 = -2048;

/// OKI / Dialogic VOX: largest 12-bit sample.
pub const OKI_PREDICTOR_MAX: i32 = 2047;

/// Yamaha ADPCM-A: quantizer step by step index, the same ladder as [`OKI_STEP_SIZE`].
pub const YAMAHA_A_STEP_SIZE: [i16; 49] = [
    16, 17, 19, 21, 23, 25, 28, 31, 34, 37, 41, 45, 50, 55, 60, 66, 73, 80, 88, 97, 107, 118, 130,
    143, 157, 173, 190, 209, 230, 253, 279, 307, 337, 371, 408, 449, 494, 544, 598, 658, 724, 796,
    876, 963, 1060, 1166, 1282, 1411, 1552,
];

/// Yamaha ADPCM-A: step-index change by code. The sign bit plays no part.
pub const YAMAHA_A_INDEX_ADJUST: [i32; 16] =
    [-1, -1, -1, -1, 2, 5, 7, 9, -1, -1, -1, -1, 2, 5, 7, 9];

/// Yamaha ADPCM-A: smallest step index.
pub const YAMAHA_A_STEP_INDEX_MIN: i32 = 0;

/// Yamaha ADPCM-A: largest step index.
pub const YAMAHA_A_STEP_INDEX_MAX: i32 = 48;

/// Yamaha ADPCM-A: smallest 12-bit sample.
pub const YAMAHA_A_PREDICTOR_MIN: i32 = -2048;

/// Yamaha ADPCM-A: largest 12-bit sample.
pub const YAMAHA_A_PREDICTOR_MAX: i32 = 2047;

/// G.726 at 40 kbit/s: normalised log level by code, a 12-bit two's-complement word.
pub const G726_DQLN_40: [u16; 32] = [
    2048, 4030, 28, 104, 169, 224, 274, 318, 358, 395, 429, 459, 488, 514, 539, 566, 566, 539, 514,
    488, 459, 429, 395, 358, 318, 274, 224, 169, 104, 28, 4030, 2048,
];

/// G.726 at 32 kbit/s: normalised log level by code, a 12-bit two's-complement word.
pub const G726_DQLN_32: [u16; 16] = [
    2048, 4, 135, 213, 273, 323, 373, 425, 425, 373, 323, 273, 213, 135, 4, 2048,
];

/// G.726 at 24 kbit/s: normalised log level by code, a 12-bit two's-complement word.
pub const G726_DQLN_24: [u16; 8] = [2048, 135, 273, 373, 373, 273, 135, 2048];

/// G.726 at 16 kbit/s: normalised log level by code, a 12-bit two's-complement word.
pub const G726_DQLN_16: [u16; 4] = [116, 365, 365, 116];

/// G.726 at 40 kbit/s: scale-factor multiplier by magnitude, a 12-bit two's-complement word.
pub const G726_WI_40: [u16; 16] = [
    14, 14, 24, 39, 40, 41, 58, 100, 141, 179, 219, 280, 358, 440, 529, 696,
];

/// G.726 at 32 kbit/s: scale-factor multiplier by magnitude, a 12-bit two's-complement word.
pub const G726_WI_32: [u16; 8] = [4084, 18, 41, 64, 112, 198, 355, 1122];

/// G.726 at 24 kbit/s: scale-factor multiplier by magnitude, a 12-bit two's-complement word.
pub const G726_WI_24: [u16; 4] = [4092, 30, 137, 582];

/// G.726 at 16 kbit/s: scale-factor multiplier by magnitude, a 12-bit two's-complement word.
pub const G726_WI_16: [u16; 2] = [4074, 439];

/// G.726 at 40 kbit/s: adaptation-speed weight by magnitude.
pub const G726_FI_40: [u16; 16] = [0, 0, 0, 0, 0, 1, 1, 1, 1, 1, 2, 3, 4, 5, 6, 6];

/// G.726 at 32 kbit/s: adaptation-speed weight by magnitude.
pub const G726_FI_32: [u16; 8] = [0, 0, 0, 1, 1, 1, 3, 7];

/// G.726 at 24 kbit/s: adaptation-speed weight by magnitude.
pub const G726_FI_24: [u16; 4] = [0, 1, 2, 7];

/// G.726 at 16 kbit/s: adaptation-speed weight by magnitude.
pub const G726_FI_16: [u16; 2] = [0, 7];

} // verus!
