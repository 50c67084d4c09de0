use oxideav_adpcm::tables::{
    YAMAHA_INDEX_SCALE, YAMAHA_INDEX_SCALE_OPNA, YAMAHA_STEP_MAX, YAMAHA_STEP_MIN,
};
use oxideav_adpcm::yamaha::{
    decode_nibble, decode_packet, encode_packet, encode_sample, Channel, Chip,
};

#[test]
fn zero_nibble_positive_moves_predictor_up_by_step_over_8() {
    let mut st = Channel::default();
    let _ = decode_nibble(&mut st, 0);
    assert!(st.predictor > 0);
    assert!(st.step < YAMAHA_STEP_MIN * 2);
    assert!(st.step >= YAMAHA_STEP_MIN);
}

#[test]
fn yamaha_sign_bit_flips_direction() {
    let mut a = Channel::default();
    let mut b = Channel::default();
    let sa = decode_nibble(&mut a, 5);
    let sb = decode_nibble(&mut b, 0x5 | 0x8);
    assert_eq!(sa.saturating_add(sb), 0);
}

#[test]
fn step_size_stays_in_spec_range() {
    let mut st = Channel::default();
    for _ in 0..1000 {
        let _ = decode_nibble(&mut st, 7);
        assert!(st.step >= YAMAHA_STEP_MIN);
        assert!(st.step <= YAMAHA_STEP_MAX);
    }
}

#[test]
fn predictor_clamps_to_i16() {
    let mut st = Channel::default();
    for _ in 0..1000 {
        let _ = decode_nibble(&mut st, 7);
    }
    assert!(st.predictor <= i16::MAX as i32);
    assert!(st.predictor >= i16::MIN as i32);
}

#[test]
fn yamaha_packet_decode_mono_emits_two_samples_per_byte() {
    let mut st = [Channel::default()];
    let pcm = decode_packet(&[0x00, 0x00, 0x00], &mut st);
    assert_eq!(pcm.len(), 6);
}

#[test]
fn encode_then_decode_advances_state_identically() {
    let mut enc = Channel::default();
    let mut dec = Channel::default();
    let pcm = [0i16, 200, 800, -1500, 12000, -8000, 0, 100];
    for &s in &pcm {
        let (n, _) = encode_sample(&mut enc, s);
        let _ = decode_nibble(&mut dec, n);
        assert_eq!(enc.predictor, dec.predictor);
        assert_eq!(enc.step, dec.step);
    }
}

#[test]
fn yamaha_encode_packs_two_nibbles_per_byte_low_first() {
    let mut st = Channel::default();
    let mut enc_state = [st];
    let bytes = encode_packet(&[0, 1000], &mut enc_state);
    assert_eq!(bytes.len(), 1);
    let lo = bytes[0] & 0x0F;
    assert_eq!(lo, 0x0);
    let _ = decode_nibble(&mut st, lo);
}

#[test]
fn round_trip_dc_zero_is_bit_exact() {
    let mut enc_state = [Channel::default()];
    let pcm = vec![0i16; 64];
    let bytes = encode_packet(&pcm, &mut enc_state);
    assert_eq!(bytes.len(), 32);
    let mut dec_state = [Channel::default()];
    let decoded = decode_packet(&bytes, &mut dec_state);
    for &s in &decoded {
        assert!(s.unsigned_abs() <= 64, "silence wobble {s} > 64");
    }
}

#[test]
fn round_trip_sine_bounded_rms_mono() {
    let sample_rate = 8000f64;
    let n = (sample_rate * 0.05) as usize;
    let pcm: Vec<i16> = (0..n)
        .map(|i| {
            let t = i as f64 / sample_rate;
            ((2.0 * std::f64::consts::PI * 220.0 * t).sin() * 8000.0).round() as i16
        })
        .collect();
    let mut enc_state = [Channel::default()];
    let bytes = encode_packet(&pcm, &mut enc_state);
    assert_eq!(bytes.len(), pcm.len().div_ceil(2));
    let mut dec_state = [Channel::default()];
    let decoded = decode_packet(&bytes, &mut dec_state);
    assert_eq!(decoded.len(), pcm.len());
    let mut sse = 0f64;
    for i in 0..pcm.len() {
        let d = decoded[i] as f64 - pcm[i] as f64;
        sse += d * d;
    }
    let rms = (sse / pcm.len() as f64).sqrt();
    assert!(rms < 2000.0, "Yamaha mono round-trip RMS {rms} > 2000");
}

#[test]
fn round_trip_sine_bounded_rms_stereo() {
    let sample_rate = 8000f64;
    let n = (sample_rate * 0.05) as usize;
    let mut pcm = Vec::with_capacity(n * 2);
    for i in 0..n {
        let t = i as f64 / sample_rate;
        let l = ((2.0 * std::f64::consts::PI * 220.0 * t).sin() * 6000.0).round() as i16;
        let r = ((2.0 * std::f64::consts::PI * 330.0 * t).sin() * 6000.0).round() as i16;
        pcm.push(l);
        pcm.push(r);
    }
    let mut enc_state = [Channel::default(), Channel::default()];
    let bytes = encode_packet(&pcm, &mut enc_state);
    let mut dec_state = [Channel::default(), Channel::default()];
    let decoded = decode_packet(&bytes, &mut dec_state);
    assert_eq!(decoded.len(), pcm.len());
    let mut sse_l = 0f64;
    let mut sse_r = 0f64;
    for i in 0..n {
        let dl = decoded[i * 2] as f64 - pcm[i * 2] as f64;
        let dr = decoded[i * 2 + 1] as f64 - pcm[i * 2 + 1] as f64;
        sse_l += dl * dl;
        sse_r += dr * dr;
    }
    let rms_l = (sse_l / n as f64).sqrt();
    let rms_r = (sse_r / n as f64).sqrt();
    assert!(rms_l < 2000.0, "Yamaha stereo L RMS {rms_l} > 2000");
    assert!(rms_r < 2000.0, "Yamaha stereo R RMS {rms_r} > 2000");
}

#[test]
fn encoder_picks_max_magnitude_for_large_residual() {
    let mut st = Channel::default();
    let (n, _) = encode_sample(&mut st, 30_000);
    assert_eq!(n & 0x07, 7, "magnitude bits");
    assert_eq!(n & 0x08, 0, "sign bit clear for positive residual");
}

#[test]
fn encoder_picks_zero_magnitude_for_small_residual() {
    let mut st = Channel::default();
    let (n, _) = encode_sample(&mut st, 15);
    assert_eq!(n & 0x07, 0);
    assert_eq!(n & 0x08, 0);
}

#[test]
fn encoder_sets_sign_bit_for_negative_residual() {
    let mut st = Channel::default();
    let (n, _) = encode_sample(&mut st, -200);
    assert_eq!(n & 0x08, 0x08);
}

#[test]
fn yamaha_empty_inputs_produce_empty_outputs() {
    let mut st = [Channel::default()];
    assert!(encode_packet(&[], &mut st).is_empty());
    let mut empty_state: [Channel; 0] = [];
    assert!(encode_packet(&[1, 2, 3], &mut empty_state).is_empty());
}

#[test]
fn default_channel_emulates_aica() {
    assert_eq!(Channel::default().chip, Chip::Aica);
    assert_eq!(Chip::default(), Chip::Aica);
}

#[test]
fn for_chip_constructor_seeds_step_and_chip() {
    for chip in [Chip::Aica, Chip::Opna] {
        let c = Channel::for_chip(chip);
        assert_eq!(c.chip, chip);
        assert_eq!(c.predictor, 0);
        assert_eq!(c.step, YAMAHA_STEP_MIN);
    }
}

#[test]
fn opna_step_update_matches_table_5_1_fractions() {
    for mag in 0u8..8 {
        let mut opna = Channel::for_chip(Chip::Opna);
        let _ = decode_nibble(&mut opna, mag);
        let want_opna = ((YAMAHA_STEP_MIN * YAMAHA_INDEX_SCALE_OPNA[mag as usize]) >> 6)
            .max(YAMAHA_STEP_MIN);
        assert_eq!(opna.step, want_opna, "OPNA step mismatch for mag {mag}");

        let mut aica = Channel::for_chip(Chip::Aica);
        let _ = decode_nibble(&mut aica, mag);
        let want_aica =
            ((YAMAHA_STEP_MIN * YAMAHA_INDEX_SCALE[mag as usize]) >> 8).max(YAMAHA_STEP_MIN);
        assert_eq!(aica.step, want_aica, "AICA step mismatch for mag {mag}");
    }
}

#[test]
fn opna_and_aica_diverge_on_a_long_max_magnitude_run() {
    let nibbles: Vec<u8> = (0..200).map(|i| if i % 2 == 0 { 7 } else { 0xF }).collect();
    let mut opna = Channel::for_chip(Chip::Opna);
    let mut aica = Channel::for_chip(Chip::Aica);
    let mut diverged = false;
    for &n in &nibbles {
        let so = decode_nibble(&mut opna, n);
        let sa = decode_nibble(&mut aica, n);
        if so != sa || opna.step != aica.step {
            diverged = true;
        }
    }
    assert!(
        diverged,
        "OPNA and AICA produced identical trajectories — the chip selector is a no-op"
    );
}

#[test]
fn opna_step_stays_in_spec_range() {
    let mut up = Channel::for_chip(Chip::Opna);
    let mut down = Channel::for_chip(Chip::Opna);
    for _ in 0..1000 {
        let _ = decode_nibble(&mut up, 7);
        let _ = decode_nibble(&mut down, 0);
        for st in [&up, &down] {
            assert!(st.step >= YAMAHA_STEP_MIN);
            assert!(st.step <= YAMAHA_STEP_MAX);
        }
    }
}

#[test]
fn opna_encode_decode_round_trips_self_consistently() {
    let mut enc = Channel::for_chip(Chip::Opna);
    let mut dec = Channel::for_chip(Chip::Opna);
    let pcm = [0i16, 300, 1200, -2000, 15000, -9000, 50, -50];
    for &s in &pcm {
        let (n, _) = encode_sample(&mut enc, s);
        let _ = decode_nibble(&mut dec, n);
        assert_eq!(enc.predictor, dec.predictor);
        assert_eq!(enc.step, dec.step);
        assert_eq!(enc.chip, dec.chip);
    }
}
