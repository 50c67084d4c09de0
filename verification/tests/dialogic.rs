use oxideav_adpcm::dialogic::{
    decode_nibble, decode_packet, encode_packet, reset_preamble, validate_channels, Channel,
    NibbleOrder, Output, RESET_PREAMBLE_BYTES, RESET_PREAMBLE_SAMPLES,
};
use oxideav_adpcm::tables::{
    OKI_PREDICTOR_MAX, OKI_PREDICTOR_MIN, OKI_STEP_INDEX_MAX, OKI_STEP_INDEX_MIN,
};

#[test]
fn zero_nibble_positive_grows_predictor_by_step_over_8() {
    let mut st = Channel::default();
    let s = decode_nibble(&mut st, 0, Output::Native12);
    assert_eq!(s, 2);
    assert_eq!(st.predictor, 2);
    assert_eq!(st.step_index, 0);
}

#[test]
fn dialogic_sign_bit_flips_direction() {
    let mut a = Channel::default();
    let mut b = Channel::default();
    let sa = decode_nibble(&mut a, 5, Output::Native12);
    let sb = decode_nibble(&mut b, 0x5 | 0x08, Output::Native12);
    assert_eq!(sa + sb, 0);
}

#[test]
fn predictor_clamps_to_12bit_signed() {
    let mut st = Channel::default();
    for _ in 0..1000 {
        let _ = decode_nibble(&mut st, 7, Output::Native12);
    }
    assert!(st.predictor <= OKI_PREDICTOR_MAX);
    assert!(st.predictor >= OKI_PREDICTOR_MIN);
}

#[test]
fn step_index_clamps_to_table_bounds() {
    let mut st = Channel::default();
    for _ in 0..1000 {
        let _ = decode_nibble(&mut st, 7, Output::Native12);
    }
    assert_eq!(st.step_index, OKI_STEP_INDEX_MAX);
    for _ in 0..1000 {
        let _ = decode_nibble(&mut st, 0, Output::Native12);
    }
    assert_eq!(st.step_index, OKI_STEP_INDEX_MIN);
}

#[test]
fn wide16_output_is_native12_shifted_left_by_4() {
    let mut a = Channel::default();
    let mut b = Channel::default();
    for &n in &[0u8, 1, 2, 5, 7, 0x9, 0xD, 0xF] {
        let s12 = decode_nibble(&mut a, n, Output::Native12) as i32;
        let s16 = decode_nibble(&mut b, n, Output::Wide16) as i32;
        assert_eq!(s16, s12 << 4, "nibble {:#x}", n);
    }
}

#[test]
fn packet_round_trip_mono_native_12bit() {
    let input: Vec<i16> = (0..256)
        .map(|i| ((i as f32 * 0.1).sin() * 1024.0) as i16)
        .collect();
    let mut enc = Channel::default();
    let bytes = encode_packet(&input, &mut enc, NibbleOrder::HiFirst);
    let mut dec = Channel::default();
    let out = decode_packet(&bytes, &mut [dec], NibbleOrder::HiFirst, Output::Native12);
    assert_eq!(out.len(), bytes.len() * 2);
    dec = Channel::default();
    let mut rec = Vec::with_capacity(input.len());
    for &b in &bytes {
        let hi = (b >> 4) & 0x0F;
        let lo = b & 0x0F;
        rec.push(decode_nibble(&mut dec, hi, Output::Native12));
        rec.push(decode_nibble(&mut dec, lo, Output::Native12));
    }
    let rms = {
        let mut acc: f64 = 0.0;
        for i in 0..input.len() {
            let d = input[i] as f64 - rec[i] as f64;
            acc += d * d;
        }
        (acc / input.len() as f64).sqrt()
    };
    assert!(rms < 256.0, "round-trip RMS {} too high", rms);
}

#[test]
fn lo_first_byte_order_pairs_with_hi_first_decode() {
    let a = Channel::default();
    let b = Channel::default();
    let byte_lo_first = (0x3 << 4) | 0x5;
    let pcm_lo = decode_packet(
        &[byte_lo_first],
        &mut [a],
        NibbleOrder::LoFirst,
        Output::Native12,
    );
    let byte_hi_first = (0x5 << 4) | 0x3;
    let pcm_hi = decode_packet(
        &[byte_hi_first],
        &mut [b],
        NibbleOrder::HiFirst,
        Output::Native12,
    );
    assert_eq!(pcm_lo, pcm_hi);
}

#[test]
fn dialogic_empty_inputs_produce_empty_outputs() {
    let mut st = [Channel::default()];
    assert!(decode_packet(&[], &mut st, NibbleOrder::HiFirst, Output::Native12).is_empty());
    let mut enc = Channel::default();
    assert!(encode_packet(&[], &mut enc, NibbleOrder::HiFirst).is_empty());
}

#[test]
fn odd_sample_count_pads_a_trailing_nibble() {
    let mut enc = Channel::default();
    let bytes = encode_packet(&[100, -100, 50], &mut enc, NibbleOrder::HiFirst);
    assert_eq!(bytes.len(), 2);
    assert_eq!(bytes[1] & 0x0F, 0x00);
}

#[test]
fn reset_preamble_has_spec_length() {
    assert_eq!(reset_preamble(NibbleOrder::HiFirst).len(), 24);
    assert_eq!(RESET_PREAMBLE_BYTES, 24);
    assert_eq!(RESET_PREAMBLE_SAMPLES, 48);
    assert!(reset_preamble(NibbleOrder::HiFirst)
        .iter()
        .all(|&b| b == 0x80));
    assert!(reset_preamble(NibbleOrder::LoFirst)
        .iter()
        .all(|&b| b == 0x08));
}

#[test]
fn reset_preamble_decodes_to_alternating_minus_plus_zero() {
    for order in [NibbleOrder::HiFirst, NibbleOrder::LoFirst] {
        let bytes = reset_preamble(order);
        let pcm = decode_packet(&bytes, &mut [Channel::default()], order, Output::Native12);
        assert_eq!(pcm.len(), RESET_PREAMBLE_SAMPLES);
        for (i, &s) in pcm.iter().enumerate() {
            if i % 2 == 0 {
                assert!(s <= 0, "sample {i} ({s}) should be the -0 code");
            } else {
                assert!(s >= 0, "sample {i} ({s}) should be the +0 code");
            }
        }
    }
}

#[test]
fn reset_preamble_walks_step_pointer_to_floor() {
    for order in [NibbleOrder::HiFirst, NibbleOrder::LoFirst] {
        let mut st = Channel {
            predictor: 500,
            step_index: 30,
        };
        let bytes = reset_preamble(order);
        let _ = decode_packet(
            &bytes,
            std::slice::from_mut(&mut st),
            order,
            Output::Native12,
        );
        assert_eq!(st.step_index, OKI_STEP_INDEX_MIN);
    }
}

#[test]
fn reset_preamble_introduces_no_dc_from_fresh_state() {
    for order in [NibbleOrder::HiFirst, NibbleOrder::LoFirst] {
        let mut st = Channel::default();
        let bytes = reset_preamble(order);
        let _ = decode_packet(
            &bytes,
            std::slice::from_mut(&mut st),
            order,
            Output::Native12,
        );
        assert_eq!(st.step_index, OKI_STEP_INDEX_MIN);
        assert!(
            st.predictor.abs() <= 2,
            "predictor {} drifted (DC introduced)",
            st.predictor
        );
    }
}

#[test]
fn validate_channels_accepts_1_and_2_rejects_0_and_3() {
    assert!(validate_channels(1).is_ok());
    assert!(validate_channels(2).is_ok());
    assert!(validate_channels(0).is_err());
    assert!(validate_channels(3).is_err());
}
