use oxideav_adpcm::ima_qt::{decode_block, QT_BLOCK_SIZE};

#[test]
fn mono_zero_block_emits_64_samples() {
    let block = [0u8; QT_BLOCK_SIZE];
    let pcm = decode_block(&block, 1).unwrap();
    assert_eq!(pcm.len(), 64);
    assert!(pcm.iter().all(|&s| s.abs() < 16));
}

#[test]
fn rejects_short_input() {
    assert!(decode_block(&[0u8; 33], 1).is_err());
    assert!(decode_block(&[0u8; 34], 2).is_err());
}

#[test]
fn stereo_reads_two_blocks() {
    let mut data = vec![0u8; QT_BLOCK_SIZE * 2];
    data[0] = 0x08;
    data[1] = 0x00;
    data[34] = 0xF8;
    data[35] = 0x00;
    let pcm = decode_block(&data, 2).unwrap();
    assert_eq!(pcm.len(), 128);
    assert!(pcm[0] >= 2048 - 64);
    assert!(pcm[1] <= -1920 + 64);
}
