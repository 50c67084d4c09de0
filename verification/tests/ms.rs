use oxideav_adpcm::ms::{
    build_extradata, decode_block, decode_block_with_coeffs, parse_extradata_coeffs,
    STANDARD_COEFFS,
};

#[test]
fn mono_minimal_block_header_only() {
    let mut block = Vec::new();
    block.push(0);
    block.extend_from_slice(&100i16.to_le_bytes());
    block.extend_from_slice(&500i16.to_le_bytes());
    block.extend_from_slice(&300i16.to_le_bytes());
    let pcm = decode_block(&block, 1).unwrap();
    assert_eq!(pcm, vec![300, 500]);
}

#[test]
fn mono_block_decodes_zero_nibbles_as_pure_prediction() {
    let mut block = Vec::new();
    block.push(0);
    block.extend_from_slice(&16i16.to_le_bytes());
    block.extend_from_slice(&1000i16.to_le_bytes());
    block.extend_from_slice(&2000i16.to_le_bytes());
    block.push(0x00);
    let pcm = decode_block(&block, 1).unwrap();
    assert_eq!(pcm, vec![2000, 1000, 1000, 1000]);
}

#[test]
fn rejects_bad_predictor_index() {
    let mut block = Vec::new();
    block.push(7);
    block.extend_from_slice(&16i16.to_le_bytes());
    block.extend_from_slice(&0i16.to_le_bytes());
    block.extend_from_slice(&0i16.to_le_bytes());
    assert!(decode_block(&block, 1).is_err());
}

#[test]
fn rejects_truncated_block() {
    assert!(decode_block(&[0u8; 3], 1).is_err());
    assert!(decode_block(&[0u8; 13], 2).is_err());
}

#[test]
fn empty_extradata_falls_back_to_standard() {
    assert!(parse_extradata_coeffs(&[]).unwrap().is_none());
    assert!(parse_extradata_coeffs(&[0x00, 0x02]).unwrap().is_none());
}

fn trailer(spb: u16, extra: &[(i16, i16)]) -> Vec<u8> {
    let mut t = Vec::new();
    t.extend_from_slice(&spb.to_le_bytes());
    let num = (7 + extra.len()) as u16;
    t.extend_from_slice(&num.to_le_bytes());
    for &(c1, c2) in &STANDARD_COEFFS {
        t.extend_from_slice(&(c1 as i16).to_le_bytes());
        t.extend_from_slice(&(c2 as i16).to_le_bytes());
    }
    for &(c1, c2) in extra {
        t.extend_from_slice(&c1.to_le_bytes());
        t.extend_from_slice(&c2.to_le_bytes());
    }
    t
}

#[test]
fn parses_standard_seven_pair_trailer() {
    let t = trailer(0x01F4, &[]);
    assert_eq!(t.len(), 32);
    let coeffs = parse_extradata_coeffs(&t).unwrap().unwrap();
    assert_eq!(coeffs.len(), 7);
    assert_eq!(&coeffs[..], &STANDARD_COEFFS[..]);
}

#[test]
fn parses_custom_eighth_pair() {
    let t = trailer(0x01F4, &[(128, -32)]);
    let coeffs = parse_extradata_coeffs(&t).unwrap().unwrap();
    assert_eq!(coeffs.len(), 8);
    assert_eq!(coeffs[7], (128, -32));
}

#[test]
fn rejects_too_few_coef_sets() {
    let mut t = Vec::new();
    t.extend_from_slice(&0x01F4u16.to_le_bytes());
    t.extend_from_slice(&3u16.to_le_bytes());
    t.extend_from_slice(&[0u8; 12]);
    assert!(parse_extradata_coeffs(&t).is_err());
}

#[test]
fn rejects_truncated_table() {
    let mut t = trailer(0x01F4, &[]);
    t[2] = 8;
    t[3] = 0;
    assert!(parse_extradata_coeffs(&t).is_err());
}

#[test]
fn rejects_altered_preset_pair() {
    let mut t = trailer(0x01F4, &[]);
    t[4] = 0xFF;
    t[5] = 0x00;
    assert!(parse_extradata_coeffs(&t).is_err());
}

#[test]
fn custom_coeff_block_decodes_against_eighth_set() {
    let mut block = Vec::new();
    block.push(7);
    block.extend_from_slice(&16i16.to_le_bytes());
    block.extend_from_slice(&1000i16.to_le_bytes());
    block.extend_from_slice(&2000i16.to_le_bytes());
    block.push(0x00);

    assert!(decode_block(&block, 1).is_err());

    let mut coeffs = STANDARD_COEFFS.to_vec();
    coeffs.push((256, 0));
    let pcm = decode_block_with_coeffs(&block, 1, &coeffs).unwrap();
    assert_eq!(pcm, vec![2000, 1000, 1000, 1000]);

    let mut coeffs2 = STANDARD_COEFFS.to_vec();
    coeffs2.push((512, -256));
    let pcm2 = decode_block_with_coeffs(&block, 1, &coeffs2).unwrap();
    assert_eq!(pcm2[2], 0);
}

#[test]
fn build_extradata_round_trips_through_parser_standard() {
    let ext = build_extradata(0x01F4, &STANDARD_COEFFS).unwrap();
    assert_eq!(ext.len(), 32);
    assert_eq!(u16::from_le_bytes([ext[0], ext[1]]), 0x01F4);
    assert_eq!(u16::from_le_bytes([ext[2], ext[3]]), 7);
    let parsed = parse_extradata_coeffs(&ext).unwrap().unwrap();
    assert_eq!(&parsed[..], &STANDARD_COEFFS[..]);
}

#[test]
fn build_extradata_round_trips_with_custom_eighth_pair() {
    let mut coeffs = STANDARD_COEFFS.to_vec();
    coeffs.push((128, -32));
    let ext = build_extradata(1024, &coeffs).unwrap();
    assert_eq!(ext.len(), 36);
    let parsed = parse_extradata_coeffs(&ext).unwrap().unwrap();
    assert_eq!(parsed.len(), 8);
    assert_eq!(parsed[7], (128, -32));
    assert_eq!(u16::from_le_bytes([ext[0], ext[1]]), 1024);
    assert_eq!(u16::from_le_bytes([ext[2], ext[3]]), 8);
}

#[test]
fn build_extradata_rejects_short_or_altered_preset_tables() {
    assert!(build_extradata(256, &STANDARD_COEFFS[..3]).is_err());
    let mut bad = STANDARD_COEFFS.to_vec();
    bad[0] = (1, 2);
    assert!(build_extradata(256, &bad).is_err());
}

#[test]
fn stereo_prelude_interleaves_channels() {
    let mut block = Vec::new();
    block.extend_from_slice(&[0, 0]);
    block.extend_from_slice(&50i16.to_le_bytes());
    block.extend_from_slice(&60i16.to_le_bytes());
    block.extend_from_slice(&100i16.to_le_bytes());
    block.extend_from_slice(&200i16.to_le_bytes());
    block.extend_from_slice(&300i16.to_le_bytes());
    block.extend_from_slice(&400i16.to_le_bytes());
    let pcm = decode_block(&block, 2).unwrap();
    assert_eq!(pcm, vec![300, 400, 100, 200]);
}
