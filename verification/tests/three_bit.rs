use oxideav_adpcm::decoder::make_decoder;
use oxideav_adpcm::encoder::{
    ima_encode_block_3bit, ima_encode_block_3bit_reference, make_encoder, FrameEncoder,
    ImaWavEncoder, Quantizer,
};
use oxideav_adpcm::error::{Component, Error, OptionKey};
use oxideav_adpcm::ima_wav::{self, ima_expand_code3, ima_quantize_code3, ImaCodecState};
use oxideav_adpcm::params::CodecParams;
use oxideav_adpcm::{
    Variant, CODEC_ID_DIALOGIC, CODEC_ID_IMA_QT, CODEC_ID_IMA_WAV, CODEC_ID_MS, CODEC_ID_YAMAHA,
};

fn wobble(n: usize, seed: u64) -> Vec<i16> {
    let mut x = seed;
    let mut level: i32 = 0;
    let mut v = Vec::with_capacity(n);
    for _ in 0..n {
        x = x.wrapping_mul(6364136223846793005).wrapping_add(1442695040888963407);
        level = (level + ((x >> 52) as i32 - 2048)).clamp(-30000, 30000);
        v.push(level as i16);
    }
    v
}

fn params(id: &str, channels: u16, options: &[(&str, &str)]) -> CodecParams {
    let mut p = CodecParams::audio(id);
    p.channels = Some(channels);
    for (k, v) in options {
        p.options.push((k.to_string(), v.to_string()));
    }
    p
}

fn bytes_of(pcm: &[i16]) -> Vec<u8> {
    pcm.iter().flat_map(|s| s.to_le_bytes()).collect()
}

fn codes_of(group: &[u8]) -> Vec<u8> {
    let mut v: u128 = 0;
    for (r, &b) in group.iter().enumerate() {
        v += (b as u128) << (8 * r);
    }
    (0..32).map(|k| ((v >> (3 * k)) % 8) as u8).collect()
}

fn refusal(id: &str, options: &[(&str, &str)]) -> Error {
    match make_encoder(&params(id, 1, options)) {
        Ok(_) => panic!("{id} with {options:?} was accepted"),
        Err(e) => e,
    }
}

#[test]
fn silence_in_three_bits_swings_by_one() {
    let block = ima_encode_block_3bit(&[0; 33], 1, 16).unwrap();
    let mut want = vec![0u8; 4];
    for _ in 0..4 {
        want.extend([0x20, 0x08, 0x82]);
    }
    assert_eq!(block, want);
    let decoded = ima_wav::decode_block_3bit(&block, 1).unwrap();
    assert_eq!(&decoded[..6], &[0, 1, 0, 1, 0, 1]);
}

#[test]
fn three_bit_blocks_decode_to_what_the_search_settled_for() {
    for channels in 1..=8usize {
        for groups in 0..4usize {
            let unit = (1 + 32 * groups) * channels;
            let size = 4 * channels + 12 * channels * groups;
            let pcm = wobble(unit, 40 + channels as u64);
            let block = ima_encode_block_3bit(&pcm, channels, size).unwrap();
            assert_eq!(block.len(), size);
            let decoded = ima_wav::decode_block_3bit(&block, channels).unwrap();
            assert_eq!(decoded.len(), unit);
            assert_eq!(&decoded[..channels], &pcm[..channels]);
            for ch in 0..channels {
                let mut st = (pcm[ch] as i32, block[4 * ch + 2] as i32);
                for g in 0..groups {
                    let start = 4 * channels + 12 * (channels * g + ch);
                    for (i, &code) in codes_of(&block[start..start + 12]).iter().enumerate() {
                        let k = 1 + 32 * g + i;
                        let target = pcm[k * channels + ch] as i32;
                        let got = decoded[k * channels + ch] as i32;
                        let mut costs = Vec::new();
                        for other in 0..8u8 {
                            let mut t = st;
                            ima_expand_code3(&mut t.0, &mut t.1, other);
                            costs.push((t.0 - target).abs());
                        }
                        assert_eq!((got - target).abs(), costs[code as usize]);
                        let mut t = st;
                        let step = ima_quantize_code3(&mut t.0, &mut t.1, target as i16);
                        assert!(costs[code as usize] <= costs[step as usize]);
                        for other in 0..8 {
                            assert!(costs[code as usize] <= costs[other]);
                            assert!(other >= code as usize || costs[code as usize] < costs[other]);
                        }
                        ima_expand_code3(&mut st.0, &mut st.1, code);
                        assert_eq!(st.0, got);
                    }
                }
            }
        }
    }
}

#[test]
fn three_bit_ladder_blocks_carry_the_step_index() {
    for channels in 1..=8usize {
        let unit = 65 * channels;
        let size = 4 * channels + 24 * channels;
        let pcm = wobble(3 * unit, channels as u64);
        let mut states = vec![ImaCodecState::default(); channels];
        for chunk in pcm.chunks(unit) {
            let before = states.clone();
            let block =
                ima_encode_block_3bit_reference(chunk, channels, size, &mut states).unwrap();
            let decoded = ima_wav::decode_block_3bit(&block, channels).unwrap();
            for ch in 0..channels {
                assert_eq!(block[4 * ch + 2] as i32, before[ch].step_index);
                let mut st = (chunk[ch] as i32, before[ch].step_index);
                let mut codes = Vec::new();
                for k in 1..65 {
                    codes.push(ima_quantize_code3(&mut st.0, &mut st.1, chunk[k * channels + ch]));
                    assert_eq!(decoded[k * channels + ch] as i32, st.0);
                }
                let first = 4 * channels + 12 * ch;
                let second = first + 12 * channels;
                let mut got = codes_of(&block[first..first + 12]);
                got.extend(codes_of(&block[second..second + 12]));
                assert_eq!(got, codes);
                assert_eq!(states[ch], ImaCodecState { predictor: st.0, step_index: st.1 });
            }
        }
    }
}

#[test]
fn hostile_step_indices_are_clamped_in_three_bits() {
    let mut states = [ImaCodecState { predictor: 9, step_index: i32::MAX }];
    let block = ima_encode_block_3bit_reference(&[5; 33], 1, 16, &mut states).unwrap();
    assert_eq!(block[2], 88);
    let mut states = [ImaCodecState { predictor: 9, step_index: i32::MIN }];
    let block = ima_encode_block_3bit_reference(&[5; 33], 1, 16, &mut states).unwrap();
    assert_eq!(block[2], 0);
}

#[test]
fn three_bit_blocks_count_their_bytes_and_samples() {
    let component = Component::ImaWav3BitEncoder;
    assert_eq!(
        ima_encode_block_3bit(&[0; 9], 9, 100),
        Err(Error::ChannelCount { component, channels: 9 })
    );
    assert_eq!(
        ima_encode_block_3bit(&[], 0, 100),
        Err(Error::ChannelCount { component, channels: 0 })
    );
    assert_eq!(
        ima_encode_block_3bit(&[0; 2], 2, 7),
        Err(Error::BlockSize { component, block_size: 7, header: 8 })
    );
    assert_eq!(
        ima_encode_block_3bit(&[0; 2], 2, 20),
        Err(Error::BodyLength { component, len: 12, group: 24, channels: 2 })
    );
    let mut states = [ImaCodecState { predictor: 1, step_index: 2 }];
    assert_eq!(
        ima_encode_block_3bit_reference(&[0; 32], 1, 16, &mut states),
        Err(Error::SampleCount { component, got: 32, per_channel: 33, channels: 1 })
    );
    assert_eq!(states[0], ImaCodecState { predictor: 1, step_index: 2 });
}

#[test]
fn encoders_take_the_bits_of_a_code() {
    for (channels, size, unit) in [(1u16, 256usize, 673usize), (2, 248, 321), (8, 224, 65)] {
        for quantizer in ["search", "reference"] {
            let options = [("bits_per_sample", "3"), ("quantizer", quantizer)];
            let mut enc = make_encoder(&params(CODEC_ID_IMA_WAV, channels, &options)).unwrap();
            let ext = enc.wave_format_extra().unwrap();
            assert_eq!(ext, (unit as u16).to_le_bytes().to_vec());
            let c = channels as usize;
            let pcm = wobble(2 * unit * c + c, 11);
            enc.send_frame(&bytes_of(&pcm)).unwrap();
            enc.flush().unwrap();
            let mut dec = make_decoder(&params(
                CODEC_ID_IMA_WAV,
                channels,
                &[("bits_per_sample", "3")],
            ))
            .unwrap();
            let mut states = vec![ImaCodecState::default(); c];
            for k in 0..3 {
                let packet = enc.receive_packet().unwrap();
                assert_eq!((packet.pts, packet.data.len()), ((k * unit) as i64, size));
                let mut chunk = pcm[k * unit * c..((k + 1) * unit * c).min(pcm.len())].to_vec();
                while chunk.len() < unit * c {
                    chunk.push(chunk[chunk.len() - c]);
                }
                let block = if quantizer == "search" {
                    ima_encode_block_3bit(&chunk, c, size).unwrap()
                } else {
                    ima_encode_block_3bit_reference(&chunk, c, size, &mut states).unwrap()
                };
                assert_eq!(packet.data, block);
                dec.send_packet(&packet.data, None).unwrap();
                let frame = dec.receive_frame().unwrap();
                assert_eq!(frame.data.len(), 2 * unit * c);
            }
            assert_eq!(enc.receive_packet().unwrap_err(), Error::NeedMore);
        }
    }
    let mut four = make_encoder(&params(CODEC_ID_IMA_WAV, 1, &[("bits_per_sample", "4")])).unwrap();
    four.send_frame(&[0; 2 * 505]).unwrap();
    assert_eq!(four.receive_packet().unwrap().data.len(), 256);
}

#[test]
fn encoders_refuse_other_widths() {
    assert_eq!(
        refusal(CODEC_ID_IMA_WAV, &[("bits_per_sample", "5")]),
        Error::CodeWidth { variant: Variant::ImaWav, bits: 5 }
    );
    assert_eq!(
        refusal(CODEC_ID_IMA_WAV, &[("bits_per_sample", "three")]),
        Error::OptionNotANumber { option: OptionKey::BitsPerSample }
    );
}

#[test]
fn encoders_of_one_width_do_not_look_at_it() {
    for id in [CODEC_ID_MS, CODEC_ID_IMA_QT, CODEC_ID_YAMAHA, CODEC_ID_DIALOGIC] {
        let pcm = bytes_of(&wobble(500, 3));
        let mut plain = make_encoder(&params(id, 1, &[])).unwrap();
        plain.send_frame(&pcm).unwrap();
        let want = plain.receive_packet().unwrap().data;
        for bits in ["3", "4", "99", "many"] {
            let mut enc = make_encoder(&params(id, 1, &[("bits_per_sample", bits)])).unwrap();
            enc.send_frame(&pcm).unwrap();
            assert_eq!(enc.receive_packet().unwrap().data, want, "{id} {bits}");
        }
    }
}

#[test]
fn the_width_can_be_set_before_the_first_frame() {
    let mut enc = ImaWavEncoder::new(1, 16, 8000, Quantizer::Search);
    assert_eq!(enc.wave_format_extra(), Some(vec![25, 0]));
    enc.set_bits_per_sample(3);
    assert_eq!(enc.wave_format_extra(), Some(vec![33, 0]));
    enc.send_frame(&[0; 66]).unwrap();
    assert_eq!(enc.receive_packet().unwrap().data, ima_encode_block_3bit(&[0; 33], 1, 16).unwrap());
    enc.set_block_size(20);
    assert_eq!(enc.wave_format_extra(), None);
    enc.set_bits_per_sample(4);
    assert_eq!(enc.wave_format_extra(), Some(vec![33, 0]));
    let FrameEncoder::ImaWav(mut wide) = make_encoder(&params(CODEC_ID_IMA_WAV, 2, &[])).unwrap()
    else {
        panic!("another encoder");
    };
    wide.set_bits_per_sample(3);
    assert_eq!(
        wide.send_frame(&[0; 4 * 400]).unwrap_err(),
        Error::BodyLength {
            component: Component::ImaWav3BitEncoder,
            len: 248,
            group: 24,
            channels: 2
        }
    );
}
