use oxideav_adpcm::encoder::{
    ima_encode_block, ima_encode_block_reference, ima_qt_encode_block_reference, make_encoder,
    FrameEncoder,
};
use oxideav_adpcm::error::{Component, Error, OptionKey};
use oxideav_adpcm::ima_wav::{ima_quantize_nibble, ImaCodecState};
use oxideav_adpcm::params::CodecParams;
use oxideav_adpcm::{ima_qt, ima_wav, Variant, CODEC_ID_IMA_QT, CODEC_ID_IMA_WAV, CODEC_ID_MS};

fn wobble(n: usize, seed: u64) -> Vec<i16> {
    let mut x = seed;
    let mut level: i32 = 0;
    let mut v = Vec::with_capacity(n);
    for _ in 0..n {
        x = x.wrapping_mul(6364136223846793005).wrapping_add(1442695040888963407);
        level = (level + ((x >> 52) as i32 - 2048)).clamp(-30000, 30000);
        v.push(level as i16);
    }
    v
}

fn params(id: &str, channels: u16, quantizer: &str) -> CodecParams {
    let mut p = CodecParams::audio(id);
    p.channels = Some(channels);
    p.options = vec![("quantizer".to_string(), quantizer.to_string())];
    p
}

fn bytes_of(pcm: &[i16]) -> Vec<u8> {
    pcm.iter().flat_map(|s| s.to_le_bytes()).collect()
}

fn all_bytes(enc: &mut FrameEncoder) -> Vec<u8> {
    let mut out = Vec::new();
    while let Ok(p) = enc.receive_packet() {
        out.extend(p.data);
    }
    out
}

#[test]
fn a_ladder_block_is_its_header_and_its_codes() {
    let pcm = wobble(9, 5);
    let mut states = [ImaCodecState { predictor: -77, step_index: 21 }];
    let block = ima_encode_block_reference(&pcm, 1, 8, &mut states).unwrap();
    let mut predictor = pcm[0] as i32;
    let mut index = 21;
    let mut want = vec![pcm[0].to_le_bytes()[0], pcm[0].to_le_bytes()[1], 21, 0];
    for pair in pcm[1..].chunks(2) {
        let lo = ima_quantize_nibble(&mut predictor, &mut index, pair[0]);
        let hi = ima_quantize_nibble(&mut predictor, &mut index, pair[1]);
        want.push(lo + 16 * hi);
    }
    assert_eq!(block, want);
    assert_eq!(states[0], ImaCodecState { predictor, step_index: index });
}

#[test]
fn step_indices_go_on_from_block_to_block() {
    for channels in 1..=8usize {
        let size = 4 * channels + 8 * 4 * channels;
        let unit = 65 * channels;
        let pcm = wobble(3 * unit, channels as u64);
        let mut states = vec![ImaCodecState::default(); channels];
        for chunk in pcm.chunks(unit) {
            let before = states.clone();
            let block = ima_encode_block_reference(chunk, channels, size, &mut states).unwrap();
            for ch in 0..channels {
                assert_eq!(block[4 * ch + 2] as i32, before[ch].step_index);
            }
            let decoded = ima_wav::decode_block(&block, channels).unwrap();
            assert_eq!(decoded.len(), unit);
            for ch in 0..channels {
                assert_eq!(decoded[ch], chunk[ch]);
                assert_eq!(decoded[64 * channels + ch] as i32, states[ch].predictor);
            }
        }
    }
}

#[test]
fn step_indices_outside_the_table_count_as_the_nearest() {
    let pcm = wobble(9, 3);
    for (given, named) in [(-5, 0u8), (1_000_000, 88)] {
        let mut states = [ImaCodecState { predictor: 1 << 20, step_index: given }];
        let block = ima_encode_block_reference(&pcm, 1, 8, &mut states).unwrap();
        assert_eq!(block[2], named);
        assert!(ima_wav::decode_block(&block, 1).is_ok());
    }
}

#[test]
fn quicktime_ladder_blocks_carry_on_too() {
    let pcm = wobble(2 * 128, 11);
    let mut states = [ImaCodecState::default(); 2];
    for chunk in pcm.chunks(128) {
        let before = states;
        let data = ima_qt_encode_block_reference(chunk, 2, &mut states).unwrap();
        assert_eq!(data.len(), 68);
        for ch in 0..2 {
            let word = u16::from_be_bytes([data[34 * ch], data[34 * ch + 1]]);
            assert_eq!((word % 128) as i32, before[ch].step_index);
            assert_eq!(word / 128, (chunk[ch] as u16) / 128);
        }
        let decoded = ima_qt::decode_block(&data, 2).unwrap();
        for ch in 0..2 {
            assert_eq!(decoded[126 + ch] as i32, states[ch].predictor);
        }
    }
}

#[test]
fn refused_ladder_blocks_leave_the_states() {
    let seed = ImaCodecState { predictor: 3, step_index: 40 };
    let mut states = [seed];
    assert_eq!(
        ima_encode_block_reference(&[0; 8], 1, 8, &mut states),
        Err(Error::SampleCount {
            component: Component::ImaWavEncoder,
            got: 8,
            per_channel: 9,
            channels: 1
        })
    );
    assert_eq!(
        ima_encode_block_reference(&[0; 9], 1, 9, &mut states),
        Err(Error::BodyLength { component: Component::ImaWavEncoder, len: 5, group: 4, channels: 1 })
    );
    assert_eq!(
        ima_qt_encode_block_reference(&[0; 63], 1, &mut states),
        Err(Error::SampleCount {
            component: Component::ImaQtEncoder,
            got: 63,
            per_channel: 64,
            channels: 1
        })
    );
    assert_eq!(states[0], seed);
}

#[test]
fn the_quantizer_option_picks_the_ladder() {
    let pcm = wobble(3 * 505, 9);
    let mut enc = make_encoder(&params(CODEC_ID_IMA_WAV, 1, "reference")).unwrap();
    enc.send_frame(&bytes_of(&pcm[..700])).unwrap();
    enc.send_frame(&bytes_of(&pcm[700..])).unwrap();
    enc.flush().unwrap();
    let mut states = [ImaCodecState::default()];
    let mut want = Vec::new();
    for chunk in pcm.chunks(505) {
        want.extend(ima_encode_block_reference(chunk, 1, 256, &mut states).unwrap());
    }
    assert_eq!(all_bytes(&mut enc), want);

    let mut plain = make_encoder(&params(CODEC_ID_IMA_WAV, 1, "search")).unwrap();
    plain.send_frame(&bytes_of(&pcm[..505])).unwrap();
    assert_eq!(all_bytes(&mut plain), ima_encode_block(&pcm[..505], 1, 256).unwrap());

    let mut qt = make_encoder(&params(CODEC_ID_IMA_QT, 2, "reference")).unwrap();
    qt.send_frame(&bytes_of(&pcm[..256])).unwrap();
    let mut states = [ImaCodecState::default(); 2];
    let mut want = Vec::new();
    for chunk in pcm[..256].chunks(128) {
        want.extend(ima_qt_encode_block_reference(chunk, 2, &mut states).unwrap());
    }
    assert_eq!(all_bytes(&mut qt), want);
}

#[test]
fn encoders_check_the_quantizer_option() {
    assert_eq!(
        make_encoder(&params(CODEC_ID_MS, 1, "search")).err(),
        Some(Error::OptionNotApplicable { option: OptionKey::Quantizer, variant: Variant::Ms })
    );
    assert_eq!(
        make_encoder(&params(CODEC_ID_IMA_QT, 1, "best")).err(),
        Some(Error::OptionValue { option: OptionKey::Quantizer, variant: Variant::ImaQt })
    );
}

#[test]
fn the_search_comes_at_least_as_close_as_the_ladder() {
    for seed in 0..40u64 {
        let pcm = wobble(9, seed);
        let from = pcm[0] as i32;
        for index in [0, 20, 45, 88] {
            let target = pcm[8] as i32;
            let mut best = i32::MAX;
            for code in 0..16u8 {
                let (mut p, mut i) = (from, index);
                ima_wav::ima_expand_nibble(&mut p, &mut i, code);
                best = best.min((p - target).abs());
            }
            let (mut p, mut i) = (from, index);
            ima_quantize_nibble(&mut p, &mut i, pcm[8]);
            assert!(best <= (p - target).abs());
        }
    }
}
