use oxideav_adpcm::encoder::{
    encode_block, ima_encode_block, ima_qt_encode_block, QT_BLOCK_BYTES_PER_CHANNEL,
    QT_SAMPLES_PER_BLOCK,
};
use oxideav_adpcm::{ima_qt, ima_wav, ms};

fn rms_error(a: &[i16], b: &[i16]) -> f64 {
    let n = a.len().min(b.len());
    if n == 0 {
        return 0.0;
    }
    let mut sse = 0f64;
    for i in 0..n {
        let d = a[i] as f64 - b[i] as f64;
        sse += d * d;
    }
    (sse / n as f64).sqrt()
}

fn sine_pcm(n: usize, hz: f64, sample_rate: f64, amp: f64) -> Vec<i16> {
    let mut v = Vec::with_capacity(n);
    for i in 0..n {
        let t = i as f64 / sample_rate;
        let s = (2.0 * std::f64::consts::PI * hz * t).sin() * amp;
        v.push(s.round().clamp(i16::MIN as f64, i16::MAX as f64) as i16);
    }
    v
}

#[test]
fn ms_mono_round_trip_sine_is_bit_exact_to_decoder() {
    let pcm = sine_pcm(2205, 440.0, 22050.0, 16000.0);
    let samples_per_block = 2 + (256 - 7) * 2;
    let n_blocks = pcm.len() / samples_per_block;
    let pcm_trim = &pcm[..n_blocks * samples_per_block];
    let mut encoded = Vec::new();
    for chunk in pcm_trim.chunks(samples_per_block) {
        let blk = encode_block(chunk, 1, 256).unwrap();
        assert_eq!(blk.len(), 256);
        encoded.push(blk);
    }
    let mut decoded = Vec::new();
    for blk in &encoded {
        let d = ms::decode_block(blk, 1).unwrap();
        decoded.extend_from_slice(&d);
    }
    assert_eq!(decoded.len(), pcm_trim.len());
    let rms = rms_error(&decoded, pcm_trim);
    assert!(
        rms < 1000.0,
        "MS-ADPCM round-trip RMS error {rms} exceeds 1000"
    );
}

#[test]
fn ms_stereo_round_trip_sine_low_error() {
    let samples_per_block = 2 + (256 - 14) / 2 * 2;
    let n = samples_per_block * 4;
    let mut pcm = Vec::with_capacity(n * 2);
    let l = sine_pcm(n, 440.0, 22050.0, 8000.0);
    let r = sine_pcm(n, 660.0, 22050.0, 8000.0);
    for i in 0..n {
        pcm.push(l[i]);
        pcm.push(r[i]);
    }
    let mut decoded_l = Vec::new();
    let mut decoded_r = Vec::new();
    let per_block_interleaved = samples_per_block * 2;
    for chunk in pcm.chunks(per_block_interleaved) {
        let blk = encode_block(chunk, 2, 256).unwrap();
        assert_eq!(blk.len(), 256);
        let d = ms::decode_block(&blk, 2).unwrap();
        assert_eq!(d.len(), per_block_interleaved);
        for i in 0..samples_per_block {
            decoded_l.push(d[i * 2]);
            decoded_r.push(d[i * 2 + 1]);
        }
    }
    let n_emitted = decoded_l.len();
    let rms_l = rms_error(&decoded_l, &l[..n_emitted]);
    let rms_r = rms_error(&decoded_r, &r[..n_emitted]);
    assert!(rms_l < 1500.0, "MS-ADPCM stereo L RMS {rms_l}");
    assert!(rms_r < 1500.0, "MS-ADPCM stereo R RMS {rms_r}");
}

#[test]
fn ima_wav_mono_round_trip_sine_low_error() {
    let samples_per_block = 1 + 63 * 8;
    let n_blocks = 5;
    let pcm = sine_pcm(samples_per_block * n_blocks, 440.0, 22050.0, 16000.0);
    let mut decoded = Vec::new();
    for chunk in pcm.chunks(samples_per_block) {
        let blk = ima_encode_block(chunk, 1, 256).unwrap();
        assert_eq!(blk.len(), 256);
        let d = ima_wav::decode_block(&blk, 1).unwrap();
        assert_eq!(d.len(), samples_per_block);
        decoded.extend_from_slice(&d);
    }
    let rms = rms_error(&decoded, &pcm);
    assert!(
        rms < 1500.0,
        "IMA-WAV mono round-trip RMS {rms} exceeds 1500"
    );
}

#[test]
fn ima_wav_stereo_round_trip_low_error() {
    let samples_per_block = 1 + 31 * 8;
    let n = samples_per_block * 3;
    let l = sine_pcm(n, 440.0, 22050.0, 8000.0);
    let r = sine_pcm(n, 660.0, 22050.0, 8000.0);
    let mut pcm = Vec::with_capacity(n * 2);
    for i in 0..n {
        pcm.push(l[i]);
        pcm.push(r[i]);
    }
    let mut decoded_l = Vec::new();
    let mut decoded_r = Vec::new();
    let per_block_interleaved = samples_per_block * 2;
    for chunk in pcm.chunks(per_block_interleaved) {
        let blk = ima_encode_block(chunk, 2, 256).unwrap();
        assert_eq!(blk.len(), 256);
        let d = ima_wav::decode_block(&blk, 2).unwrap();
        for i in 0..samples_per_block {
            decoded_l.push(d[i * 2]);
            decoded_r.push(d[i * 2 + 1]);
        }
    }
    let rms_l = rms_error(&decoded_l, &l);
    let rms_r = rms_error(&decoded_r, &r);
    assert!(rms_l < 1500.0, "IMA-WAV stereo L RMS {rms_l}");
    assert!(rms_r < 1500.0, "IMA-WAV stereo R RMS {rms_r}");
}

#[test]
fn ms_encoder_rejects_too_few_samples() {
    assert!(encode_block(&[0i16], 1, 256).is_err());
    assert!(encode_block(&[], 1, 256).is_err());
}

#[test]
fn ima_encoder_rejects_size_mismatch() {
    let pcm = vec![0i16; 504];
    assert!(ima_encode_block(&pcm, 1, 256).is_err());
}

#[test]
fn ima_qt_mono_round_trip_sine_low_error() {
    let n_blocks = 8;
    let pcm = sine_pcm(QT_SAMPLES_PER_BLOCK * n_blocks, 440.0, 22050.0, 16000.0);
    let mut decoded = Vec::new();
    for chunk in pcm.chunks(QT_SAMPLES_PER_BLOCK) {
        let blk = ima_qt_encode_block(chunk, 1).unwrap();
        assert_eq!(blk.len(), QT_BLOCK_BYTES_PER_CHANNEL);
        let d = ima_qt::decode_block(&blk, 1).unwrap();
        assert_eq!(d.len(), QT_SAMPLES_PER_BLOCK);
        decoded.extend_from_slice(&d);
    }
    let rms = rms_error(&decoded, &pcm);
    assert!(
        rms < 1500.0,
        "IMA-QT mono round-trip RMS {rms} exceeds 1500"
    );
}

#[test]
fn ima_qt_stereo_round_trip_low_error() {
    let n_blocks = 6;
    let n = QT_SAMPLES_PER_BLOCK * n_blocks;
    let l = sine_pcm(n, 440.0, 22050.0, 8000.0);
    let r = sine_pcm(n, 660.0, 22050.0, 8000.0);
    let mut pcm = Vec::with_capacity(n * 2);
    for i in 0..n {
        pcm.push(l[i]);
        pcm.push(r[i]);
    }
    let mut decoded_l = Vec::new();
    let mut decoded_r = Vec::new();
    let per_block_interleaved = QT_SAMPLES_PER_BLOCK * 2;
    for chunk in pcm.chunks(per_block_interleaved) {
        let blk = ima_qt_encode_block(chunk, 2).unwrap();
        assert_eq!(blk.len(), QT_BLOCK_BYTES_PER_CHANNEL * 2);
        let d = ima_qt::decode_block(&blk, 2).unwrap();
        assert_eq!(d.len(), per_block_interleaved);
        for i in 0..QT_SAMPLES_PER_BLOCK {
            decoded_l.push(d[i * 2]);
            decoded_r.push(d[i * 2 + 1]);
        }
    }
    let rms_l = rms_error(&decoded_l, &l);
    let rms_r = rms_error(&decoded_r, &r);
    assert!(rms_l < 1500.0, "IMA-QT stereo L RMS {rms_l}");
    assert!(rms_r < 1500.0, "IMA-QT stereo R RMS {rms_r}");
}

#[test]
fn ima_qt_encode_rejects_size_mismatch() {
    let pcm = vec![0i16; 63];
    assert!(ima_qt_encode_block(&pcm, 1).is_err());
    let pcm = vec![0i16; 64];
    assert!(ima_qt_encode_block(&pcm, 1).is_ok());
    let pcm = vec![0i16; 127];
    assert!(ima_qt_encode_block(&pcm, 2).is_err());
}

#[test]
fn ima_qt_encode_rejects_unsupported_channel_count() {
    let pcm = vec![0i16; QT_SAMPLES_PER_BLOCK * 3];
    assert!(ima_qt_encode_block(&pcm, 3).is_err());
    assert!(ima_qt_encode_block(&[], 0).is_err());
}

#[test]
fn ima_qt_seed_predictor_is_top_9_bits() {
    let pcm = vec![12345i16; QT_SAMPLES_PER_BLOCK];
    let blk = ima_qt_encode_block(&pcm, 1).unwrap();
    assert_eq!(blk[0], 0x30);
    assert_eq!(blk[1], 0x00);
}

#[test]
fn ima_qt_seeds_step_index_from_local_delta() {
    let pcm: Vec<i16> = (0..QT_SAMPLES_PER_BLOCK as i32)
        .map(|i| (i * 200) as i16)
        .collect();
    let blk = ima_qt_encode_block(&pcm, 1).unwrap();
    let preamble = u16::from_be_bytes([blk[0], blk[1]]);
    let step_index = (preamble & 0x7F) as usize;
    assert!(
        (40..=55).contains(&step_index),
        "step_index seed {step_index} should be ~47 for a 200-LSB-per-sample ramp"
    );
}
