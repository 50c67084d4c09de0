use oxideav_adpcm::tables::{
    YAMAHA_A_PREDICTOR_MAX, YAMAHA_A_PREDICTOR_MIN, YAMAHA_A_STEP_INDEX_MAX,
};
use oxideav_adpcm::yamaha_a::{
    decode_nibble, decode_packet, encode_packet, encode_sample, Channel, Output,
};

#[test]
fn zero_nibble_positive_grows_acc_by_step_over_8() {
    let mut st = Channel::default();
    let s = decode_nibble(&mut st, 0x0, Output::Native12);
    assert_eq!(st.acc, 2);
    assert_eq!(s, 2);
    assert_eq!(st.step_index, 0);
}

#[test]
fn high_magnitude_nibble_increments_step_pointer_by_nine() {
    let mut st = Channel::default();
    let _ = decode_nibble(&mut st, 0x7, Output::Native12);
    assert_eq!(st.step_index, 9);
}

#[test]
fn yamaha_a_sign_bit_flips_direction() {
    let mut a = Channel::default();
    let mut b = Channel::default();
    let sa = decode_nibble(&mut a, 0x5, Output::Native12);
    let sb = decode_nibble(&mut b, 0xD, Output::Native12);
    assert_eq!(sa, -sb);
}

#[test]
fn acc_clamps_to_12_bit_signed() {
    let mut st = Channel::default();
    for _ in 0..1000 {
        let _ = decode_nibble(&mut st, 0x7, Output::Native12);
    }
    assert!(st.acc <= YAMAHA_A_PREDICTOR_MAX);
    assert!(st.acc >= YAMAHA_A_PREDICTOR_MIN);
    assert_eq!(st.acc, YAMAHA_A_PREDICTOR_MAX);
    assert_eq!(st.step_index, YAMAHA_A_STEP_INDEX_MAX);
}

#[test]
fn step_index_clamps_to_zero_when_low_magnitudes_dominate() {
    let mut st = Channel {
        acc: 0,
        step_index: 5,
    };
    for _ in 0..20 {
        let _ = decode_nibble(&mut st, 0x0, Output::Native12);
    }
    assert_eq!(st.step_index, 0);
}

#[test]
fn wide16_output_left_shifts_by_4() {
    let mut native_st = Channel::default();
    let mut wide_st = Channel::default();
    let s_native = decode_nibble(&mut native_st, 0x5, Output::Native12);
    let s_wide = decode_nibble(&mut wide_st, 0x5, Output::Wide16);
    assert_eq!(s_wide, (s_native as i32 * 16) as i16);
}

#[test]
fn yamaha_a_packet_decode_mono_emits_two_samples_per_byte() {
    let mut st = [Channel::default()];
    let pcm = decode_packet(&[0x00, 0x77, 0x12], &mut st, Output::Native12);
    assert_eq!(pcm.len(), 6);
}

#[test]
fn empty_state_decodes_to_empty() {
    let mut empty: [Channel; 0] = [];
    let pcm = decode_packet(&[0x00, 0x77, 0xFF], &mut empty, Output::Native12);
    assert!(pcm.is_empty());
}

#[test]
fn encode_then_decode_state_matches_decoder() {
    let mut enc = Channel::default();
    let mut dec = Channel::default();
    let pcm = [0i16, 50, 100, 200, -300, -100, 0, 50];
    for &s in &pcm {
        let (nib, _) = encode_sample(&mut enc, s, Output::Native12);
        let _ = decode_nibble(&mut dec, nib, Output::Native12);
        assert_eq!(enc.acc, dec.acc, "acc drift after target {s}");
        assert_eq!(
            enc.step_index, dec.step_index,
            "step drift after target {s}"
        );
    }
}

#[test]
fn yamaha_a_encode_packs_two_nibbles_per_byte_low_first() {
    let mut st = [Channel::default()];
    let bytes = encode_packet(&[0, 1000], &mut st, Output::Native12);
    assert_eq!(bytes.len(), 1);
    assert_eq!(bytes[0] & 0x0F, 0x0);
}

#[test]
fn encode_sets_sign_bit_for_negative_residual() {
    let mut st = Channel::default();
    let (n, _) = encode_sample(&mut st, -1000, Output::Native12);
    assert_eq!(n & 0x08, 0x08);
}

#[test]
fn encode_picks_high_magnitude_for_large_residual() {
    let mut st = Channel::default();
    let (n, _) = encode_sample(&mut st, 2000, Output::Native12);
    assert_eq!(n & 0x07, 7);
    assert_eq!(n & 0x08, 0);
}

#[test]
fn round_trip_dc_zero_is_bounded() {
    let mut enc_state = [Channel::default()];
    let pcm = vec![0i16; 64];
    let bytes = encode_packet(&pcm, &mut enc_state, Output::Native12);
    let mut dec_state = [Channel::default()];
    let decoded = decode_packet(&bytes, &mut dec_state, Output::Native12);
    for &s in &decoded {
        assert!(
            s.unsigned_abs() <= 8,
            "silence wobble {s} exceeds 8 native-12 LSBs"
        );
    }
}

#[test]
fn round_trip_sine_bounded_rms_mono_wide16() {
    let sample_rate = 8000f64;
    let n = (sample_rate * 0.05) as usize;
    let pcm: Vec<i16> = (0..n)
        .map(|i| {
            let t = i as f64 / sample_rate;
            ((2.0 * std::f64::consts::PI * 220.0 * t).sin() * 6000.0).round() as i16
        })
        .collect();
    let mut enc_state = [Channel::default()];
    let bytes = encode_packet(&pcm, &mut enc_state, Output::Wide16);
    let mut dec_state = [Channel::default()];
    let decoded = decode_packet(&bytes, &mut dec_state, Output::Wide16);
    assert_eq!(decoded.len(), pcm.len());

    let mut sse = 0f64;
    for i in 0..pcm.len() {
        let d = decoded[i] as f64 - pcm[i] as f64;
        sse += d * d;
    }
    let rms = (sse / pcm.len() as f64).sqrt();
    assert!(rms < 4500.0, "Yamaha ADPCM-A wide16 RMS {rms} > 4500");
}
