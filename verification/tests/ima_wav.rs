use oxideav_adpcm::ima_wav::{
    decode_block, decode_block_3bit, ima_expand_code3, ima_expand_nibble, ima_quantize_code3,
    ima_quantize_nibble, GROUP_BYTES_3BIT, GROUP_SAMPLES_3BIT,
};
use oxideav_adpcm::tables::IMA_STEP_SIZE;

#[test]
fn expand_zero_nibble_grows_toward_zero_index() {
    let mut p = 0i32;
    let mut si = 10i32;
    let _ = ima_expand_nibble(&mut p, &mut si, 0);
    assert_eq!(si, 9);
}

#[test]
fn expand_high_nibble_grows_index() {
    let mut p = 0i32;
    let mut si = 10i32;
    let _ = ima_expand_nibble(&mut p, &mut si, 7);
    assert_eq!(si, 18);
}

#[test]
fn step_index_saturates() {
    let mut p = 0i32;
    let mut si = 88i32;
    for _ in 0..10 {
        let _ = ima_expand_nibble(&mut p, &mut si, 7);
    }
    assert_eq!(si, 88);
    let mut si = 0i32;
    for _ in 0..10 {
        let _ = ima_expand_nibble(&mut p, &mut si, 0);
    }
    assert_eq!(si, 0);
}

#[test]
fn predictor_clamps_to_i16_range() {
    let mut p: i32 = 30000;
    let mut si: i32 = 80;
    for _ in 0..10 {
        let _ = ima_expand_nibble(&mut p, &mut si, 7);
    }
    assert!(p <= i16::MAX as i32);

    let mut p: i32 = -30000;
    let mut si: i32 = 80;
    for _ in 0..10 {
        let _ = ima_expand_nibble(&mut p, &mut si, 0xF);
    }
    assert!(p >= i16::MIN as i32);
}

#[test]
fn mono_block_header_only_emits_seed_sample() {
    let mut block = Vec::new();
    block.extend_from_slice(&1234i16.to_le_bytes());
    block.push(7);
    block.push(0);
    let pcm = decode_block(&block, 1).unwrap();
    assert_eq!(pcm, vec![1234]);
}

#[test]
fn mono_block_with_one_group_decodes_9_samples() {
    let mut block = Vec::new();
    block.extend_from_slice(&0i16.to_le_bytes());
    block.push(10);
    block.push(0);
    block.extend_from_slice(&[0u8; 4]);
    let pcm = decode_block(&block, 1).unwrap();
    assert_eq!(pcm.len(), 9);
    assert_eq!(pcm[0], 0);
}

#[test]
fn rejects_bad_step_index() {
    let mut block = Vec::new();
    block.extend_from_slice(&0i16.to_le_bytes());
    block.push(200);
    block.push(0);
    assert!(decode_block(&block, 1).is_err());
}

#[test]
fn expand_code3_zero_code_is_quarter_step_and_shrinks_index() {
    let mut p = 0i32;
    let mut si = 10i32;
    let s = ima_expand_code3(&mut p, &mut si, 0);
    assert_eq!(s, 4);
    assert_eq!(si, 9);
}

#[test]
fn expand_code3_full_magnitude_grows_index() {
    let mut p = 0i32;
    let mut si = 10i32;
    let s = ima_expand_code3(&mut p, &mut si, 3);
    assert_eq!(s, 32);
    assert_eq!(si, 12);
}

#[test]
fn expand_code3_sign_bit_mirrors_diff() {
    for m in 0u8..4 {
        let mut p_pos = 0i32;
        let mut si_pos = 40i32;
        let s_pos = ima_expand_code3(&mut p_pos, &mut si_pos, m);
        let mut p_neg = 0i32;
        let mut si_neg = 40i32;
        let s_neg = ima_expand_code3(&mut p_neg, &mut si_neg, m | 4);
        assert_eq!(s_pos as i32, -(s_neg as i32), "magnitude {m}");
        assert_eq!(si_pos, si_neg, "magnitude {m}");
    }
}

#[test]
fn expand_code3_index_saturates() {
    let mut p = 0i32;
    let mut si = 88i32;
    for _ in 0..10 {
        let _ = ima_expand_code3(&mut p, &mut si, 3);
    }
    assert_eq!(si, 88);
    let mut si = 0i32;
    for _ in 0..10 {
        let _ = ima_expand_code3(&mut p, &mut si, 0);
    }
    assert_eq!(si, 0);
}

#[test]
fn expand_code3_predictor_clamps_to_i16_range() {
    let mut p: i32 = 32000;
    let mut si: i32 = 88;
    for _ in 0..10 {
        let _ = ima_expand_code3(&mut p, &mut si, 3);
    }
    assert!(p <= i16::MAX as i32);
    let mut p: i32 = -32000;
    let mut si: i32 = 88;
    for _ in 0..10 {
        let _ = ima_expand_code3(&mut p, &mut si, 7);
    }
    assert!(p >= i16::MIN as i32);
}

#[test]
fn mono_3bit_header_only_emits_seed_sample() {
    let mut block = Vec::new();
    block.extend_from_slice(&1234i16.to_le_bytes());
    block.push(7);
    block.push(0);
    let pcm = decode_block_3bit(&block, 1).unwrap();
    assert_eq!(pcm, vec![1234]);
}

#[test]
fn mono_3bit_one_group_decodes_33_samples_as_quarter_step_ramp() {
    let mut block = Vec::new();
    block.extend_from_slice(&0i16.to_le_bytes());
    block.push(0);
    block.push(0);
    block.extend_from_slice(&[0u8; GROUP_BYTES_3BIT]);
    let pcm = decode_block_3bit(&block, 1).unwrap();
    assert_eq!(pcm.len(), 1 + GROUP_SAMPLES_3BIT);
    for (i, &s) in pcm.iter().enumerate() {
        assert_eq!(s as usize, i, "sample {i}");
    }
}

#[test]
fn decode_3bit_extracts_codes_low_bits_first() {
    let mut block = Vec::new();
    block.extend_from_slice(&1000i16.to_le_bytes());
    block.push(20);
    block.push(0);
    let mut group = [0u8; GROUP_BYTES_3BIT];
    group[0] = 0b100;
    block.extend_from_slice(&group);
    let pcm = decode_block_3bit(&block, 1).unwrap();
    assert_eq!(pcm[1], 988);
}

#[test]
fn rejects_3bit_bad_step_index_and_off_size_body() {
    let mut block = Vec::new();
    block.extend_from_slice(&0i16.to_le_bytes());
    block.push(89);
    block.push(0);
    block.extend_from_slice(&[0u8; GROUP_BYTES_3BIT]);
    assert!(decode_block_3bit(&block, 1).is_err());

    let mut block = Vec::new();
    block.extend_from_slice(&0i16.to_le_bytes());
    block.push(0);
    block.push(0);
    block.extend_from_slice(&[0u8; 8]);
    assert!(decode_block_3bit(&block, 1).is_err());

    assert!(decode_block_3bit(&[0u8; 3], 1).is_err());
    assert!(decode_block_3bit(&[0u8; 48], 0).is_err());
    assert!(decode_block_3bit(&[0u8; 48], 9).is_err());
}

#[test]
fn stereo_3bit_block_layout() {
    let mut block = Vec::new();
    block.extend_from_slice(&100i16.to_le_bytes());
    block.push(0);
    block.push(0);
    block.extend_from_slice(&200i16.to_le_bytes());
    block.push(0);
    block.push(0);
    block.extend_from_slice(&[0u8; 24]);
    let pcm = decode_block_3bit(&block, 2).unwrap();
    assert_eq!(pcm.len(), 33 * 2);
    assert_eq!(pcm[0], 100);
    assert_eq!(pcm[1], 200);
    assert_eq!(pcm[2], 101);
    assert_eq!(pcm[3], 201);
}

#[test]
fn quantize_nibble_reproduces_the_recommendation_worked_example() {
    assert_eq!(IMA_STEP_SIZE[24], 73, "step table row 24");
    let mut predictor = 0x8700u16 as i16 as i32;
    let mut step_index = 24i32;
    let sample = 0x873Fu16 as i16;
    let code = ima_quantize_nibble(&mut predictor, &mut step_index, sample);
    assert_eq!(code, 3, "worked-example code");
    assert_eq!(
        predictor, 0x873Fu16 as i16 as i32,
        "worked-example predictor"
    );
    assert_eq!(step_index, 23, "worked-example index");
    assert_eq!(IMA_STEP_SIZE[23], 66, "worked-example next stepsize");
}

#[test]
fn expand_nibble_reproduces_the_recommendation_worked_example() {
    let mut predictor = 0x8700u16 as i16 as i32;
    let mut step_index = 24i32;
    let s = ima_expand_nibble(&mut predictor, &mut step_index, 0x3);
    assert_eq!(s, 0x873Fu16 as i16, "worked-example expansion");
    assert_eq!(step_index, 23);
    assert_eq!(IMA_STEP_SIZE[23], 66);
}

#[test]
fn quantize_nibble_state_advance_is_exactly_the_expansion() {
    let mut x = 0x2545F1u64;
    let mut rng = move || {
        x ^= x << 13;
        x ^= x >> 7;
        x ^= x << 17;
        x
    };
    for _ in 0..20_000 {
        let p0 = (rng() as i16) as i32;
        let si0 = (rng() % 89) as i32;
        let sample = rng() as i16;

        let mut pq = p0;
        let mut sq = si0;
        let code = ima_quantize_nibble(&mut pq, &mut sq, sample);
        assert!(code < 16);

        let mut pe = p0;
        let mut se = si0;
        let _ = ima_expand_nibble(&mut pe, &mut se, code);
        assert_eq!((pq, sq), (pe, se), "quantizer state != expansion state");
    }
}

#[test]
fn quantize_code3_state_advance_is_exactly_the_expansion() {
    let mut x = 0x9E3779B9u64;
    let mut rng = move || {
        x ^= x << 13;
        x ^= x >> 7;
        x ^= x << 17;
        x
    };
    for _ in 0..20_000 {
        let p0 = (rng() as i16) as i32;
        let si0 = (rng() % 89) as i32;
        let sample = rng() as i16;

        let mut pq = p0;
        let mut sq = si0;
        let code = ima_quantize_code3(&mut pq, &mut sq, sample);
        assert!(code < 8);

        let mut pe = p0;
        let mut se = si0;
        let _ = ima_expand_code3(&mut pe, &mut se, code);
        assert_eq!(
            (pq, sq),
            (pe, se),
            "3-bit quantizer state != expansion state"
        );
    }
}

#[test]
fn quantize_nibble_sign_and_magnitude_selection() {
    let mut p = 1000i32;
    let mut si = 30i32;
    assert_eq!(ima_quantize_nibble(&mut p, &mut si, 1000), 0);
    let mut p = 0i32;
    let mut si = 0i32;
    assert_eq!(ima_quantize_nibble(&mut p, &mut si, 20_000), 7);
    let mut p = 0i32;
    let mut si = 0i32;
    assert_eq!(ima_quantize_nibble(&mut p, &mut si, -20_000), 0xF);
    let mut p = 0i32;
    let mut si = 20i32;
    assert_eq!(IMA_STEP_SIZE[20], 50);
    assert_eq!(ima_quantize_nibble(&mut p, &mut si, -50), 0xC);
}

#[test]
fn quantize_code3_sign_and_magnitude_selection() {
    let mut p = 500i32;
    let mut si = 30i32;
    assert_eq!(ima_quantize_code3(&mut p, &mut si, 500), 0);
    let mut p = 0i32;
    let mut si = 0i32;
    assert_eq!(ima_quantize_code3(&mut p, &mut si, 20_000), 3);
    let mut p = 0i32;
    let mut si = 0i32;
    assert_eq!(ima_quantize_code3(&mut p, &mut si, -20_000), 7);
    let mut p = 0i32;
    let mut si = 20i32;
    assert_eq!(ima_quantize_code3(&mut p, &mut si, 50), 2);
}

#[test]
fn quantize_nibble_converges_on_a_sine() {
    let mut p = 0i32;
    let mut si = 0i32;
    let mut sse = 0f64;
    let mut n = 0f64;
    for i in 0..2_000 {
        let target = ((i as f64 / 40.0).sin() * 6000.0) as i16;
        let _ = ima_quantize_nibble(&mut p, &mut si, target);
        if i >= 100 {
            let e = p as f64 - target as f64;
            sse += e * e;
            n += 1.0;
        }
    }
    let rms = (sse / n).sqrt();
    assert!(rms < 200.0, "post-warm-up RMS {rms} exceeds 200");
}

#[test]
fn stereo_block_layout() {
    let mut block = Vec::new();
    block.extend_from_slice(&100i16.to_le_bytes());
    block.push(0);
    block.push(0);
    block.extend_from_slice(&200i16.to_le_bytes());
    block.push(0);
    block.push(0);
    block.extend_from_slice(&[0u8; 16]);
    let pcm = decode_block(&block, 2).unwrap();
    assert_eq!(pcm.len(), 17 * 2);
    assert_eq!(pcm[0], 100);
    assert_eq!(pcm[1], 200);
}
