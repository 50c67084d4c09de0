use oxideav_adpcm::encoder::{
    encode_block, ima_encode_block, ima_qt_encode_block, make_encoder, FrameEncoder,
};
use oxideav_adpcm::error::{Component, Error};
use oxideav_adpcm::g726::{self, BitOrder, BitPacker, BitUnpacker, Law, Rate, State};
use oxideav_adpcm::ms::{build_extradata, parse_extradata_coeffs, STANDARD_COEFFS};
use oxideav_adpcm::params::CodecParams;
use oxideav_adpcm::{
    dialogic, ima_qt, ima_wav, ms, yamaha, yamaha_a, Variant, CODEC_ID_DIALOGIC, CODEC_ID_IMA_QT,
    CODEC_ID_IMA_WAV, CODEC_ID_MS, CODEC_ID_YAMAHA, CODEC_ID_YAMAHA_A,
};

fn noise(n: usize, seed: u64) -> Vec<i16> {
    let mut x = seed;
    let mut v = Vec::with_capacity(n);
    for _ in 0..n {
        x = x.wrapping_mul(6364136223846793005).wrapping_add(1442695040888963407);
        v.push((x >> 48) as u16 as i16);
    }
    v
}

fn params(id: &str, channels: u16) -> CodecParams {
    let mut p = CodecParams::audio(id);
    p.channels = Some(channels);
    p
}

#[test]
fn stages_in_tandem_put_out_the_same_words() {
    for law in [Law::ALaw, Law::ULaw] {
        for seed in 1..40u64 {
            let rates = Rate::all();
            let mut first = (State::new(Rate::R32), State::new(Rate::R32));
            let mut second = first;
            for (k, &s) in noise(400, seed).iter().enumerate() {
                let rate = rates[(k / 7 + seed as usize) % rates.len()];
                first.0.set_rate(rate);
                first.1.set_rate(rate);
                second.0.set_rate(rate);
                second.1.set_rate(rate);
                let word = s as u8;
                let code = first.0.encode_law(word, law);
                let out = first.1.decode_law(code, law);
                let again = second.0.encode_law(out, law);
                assert_eq!(again, code, "{law:?} seed {seed} word {k}");
                assert_eq!(second.1.decode_law(again, law), out);
            }
        }
    }
}

#[test]
fn a_code_that_no_word_has_may_change_in_tandem() {
    let mut decoder = State::new(Rate::R32);
    let mut encoder = State::new(Rate::R32);
    let word = decoder.decode_law(2, Law::ALaw);
    assert_eq!(word, 213);
    assert_eq!(encoder.encode_law(word, Law::ALaw), 1);
}

#[test]
fn quicktime_input_must_hold_a_block_per_channel() {
    assert_eq!(
        ima_qt::decode_block(&[0u8; 67], 2),
        Err(Error::ShortInput { need: 68, channels: 2, len: 67 })
    );
}

#[test]
fn step_indices_end_at_88() {
    let block = [0u8, 0, 89, 0, 0, 0, 0, 0];
    assert_eq!(
        ima_wav::decode_block(&block, 1),
        Err(Error::StepIndex { component: Component::ImaWav, index: 89, channel: 0 })
    );
}

#[test]
fn coefficient_tables_hold_the_presets() {
    let block = [0u8; 7];
    assert_eq!(
        ms::decode_block_with_coeffs(&block, 1, &STANDARD_COEFFS[..6]),
        Err(Error::CoeffTableTooSmall { sets: 6 })
    );
    assert_eq!(
        build_extradata(500, &STANDARD_COEFFS[..6]),
        Err(Error::BuildTooFewSets { sets: 6 })
    );
    let mut changed = STANDARD_COEFFS.to_vec();
    changed[3] = (200, 7);
    assert_eq!(
        build_extradata(500, &changed),
        Err(Error::BuildPreset { set: 3, coef1: 200, coef2: 7 })
    );
    let mut ext = build_extradata(500, &STANDARD_COEFFS).unwrap();
    assert_eq!(
        parse_extradata_coeffs(&ext[..31]),
        Err(Error::TrailerTooShort { sets: 7, need: 32, len: 31 })
    );
    ext[4] = 1;
    assert_eq!(
        parse_extradata_coeffs(&ext),
        Err(Error::TrailerPreset { set: 0, coef1: 257, coef2: 0 })
    );
}

#[test]
fn block_encoders_count_their_samples() {
    assert_eq!(
        encode_block(&[0; 5], 2, 32),
        Err(Error::UnevenSamples { samples: 5, channels: 2 })
    );
    assert_eq!(encode_block(&[0; 2], 2, 32), Err(Error::TooFewSamples));
    assert_eq!(
        encode_block(&[0; 499], 1, 256),
        Err(Error::NotEnoughSamples { have: 499, need: 500, block_size: 256 })
    );
    assert_eq!(
        ima_encode_block(&[0; 504], 1, 256),
        Err(Error::SampleCount {
            component: Component::ImaWavEncoder,
            got: 504,
            per_channel: 505,
            channels: 1
        })
    );
    assert_eq!(
        ima_qt_encode_block(&[0; 127], 2),
        Err(Error::SampleCount {
            component: Component::ImaQtEncoder,
            got: 127,
            per_channel: 64,
            channels: 2
        })
    );
}

#[test]
fn encoders_tell_the_header_extension_of_their_blocks() {
    let mono = make_encoder(&params(CODEC_ID_MS, 1)).unwrap();
    let ext = mono.wave_format_extra().unwrap();
    assert_eq!(&ext[..4], &[0xf4, 0x01, 7, 0]);
    assert_eq!(Some(ext.clone()), Variant::Ms.build_wave_format_extra(1, 256));
    assert_eq!(parse_extradata_coeffs(&ext), Ok(Some(STANDARD_COEFFS.to_vec())));
    let surround = make_encoder(&params(CODEC_ID_IMA_WAV, 6)).unwrap();
    assert_eq!(surround.wave_format_extra(), Variant::ImaWav.build_wave_format_extra(6, 240));
    assert_eq!(surround.wave_format_extra(), Some(vec![73, 0]));
    for id in [CODEC_ID_IMA_QT, CODEC_ID_YAMAHA, CODEC_ID_YAMAHA_A, CODEC_ID_DIALOGIC] {
        assert_eq!(make_encoder(&params(id, 1)).unwrap().wave_format_extra(), None);
    }
    let FrameEncoder::Ms(mut sized) = make_encoder(&params(CODEC_ID_MS, 2)).unwrap() else {
        panic!("another encoder");
    };
    sized.set_block_size(512);
    assert_eq!(sized.wave_format_extra(), Variant::Ms.build_wave_format_extra(2, 512));
}

#[test]
fn wav_g726_blocks_have_the_tabulated_sizes() {
    assert_eq!(g726::wav_block_align(Rate::R24, 1, 0), 48);
    assert_eq!(g726::wav_block_align(Rate::R24, 2, 0), 96);
    assert_eq!(g726::wav_block_align(Rate::R40, 1, 0), 80);
    assert_eq!(g726::wav_block_align(Rate::R40, 2, 0), 160);
    assert_eq!(g726::wav_block_align(Rate::R32, 2, 10), 138);
    for (channels, size) in [(1, 48), (1, 64), (1, 80), (2, 96), (2, 128), (2, 160)] {
        assert_eq!(Variant::G726.build_wave_format_extra(channels, size), Some(vec![0, 0]));
    }
    assert_eq!(Variant::G726.build_wave_format_extra(1, 32), None);
    assert_eq!(Variant::G726.build_wave_format_extra(3, 48), None);
}

#[test]
fn auxiliary_sizes_are_read_back() {
    for aux in [0u16, 1, 255, 256, 0xabcd, 0xffff] {
        let ext = g726::wav_format_extra(aux);
        assert_eq!(g726::wav_parse_format_extra(&ext), Some(aux));
    }
    assert_eq!(g726::wav_format_extra(0xabcd), [0xcd, 0xab]);
    assert_eq!(g726::wav_parse_format_extra(&[1]), None);
}

#[test]
fn block_decoders_follow_their_encoders() {
    let pcm = noise(2 * 505, 7);
    let wav = ima_encode_block(&pcm[..505], 1, 256).unwrap();
    let back = ima_wav::decode_block(&wav, 1).unwrap();
    assert_eq!(back.len(), 505);
    assert_eq!(back[0], pcm[0]);
    let qt = ima_qt_encode_block(&pcm[..128], 2).unwrap();
    let back = ima_qt::decode_block(&qt, 2).unwrap();
    assert_eq!(back.len(), 128);
    let block = encode_block(&pcm[..500], 1, 256).unwrap();
    let back = ms::decode_block(&block, 1).unwrap();
    assert_eq!(back.len(), 500);
    assert_eq!(&back[..2], &pcm[..2]);
}

#[test]
fn sign_bits_mirror_the_step() {
    for mag in 0..8u8 {
        let mut up = dialogic::Channel { predictor: 0, step_index: 20 };
        let mut down = up;
        let a = dialogic::decode_nibble(&mut up, mag, dialogic::Output::Native12);
        let b = dialogic::decode_nibble(&mut down, mag + 8, dialogic::Output::Native12);
        assert_eq!(a, -b);
        assert_eq!(up.step_index, down.step_index);
    }
    let mut up = yamaha_a::Channel::default();
    let mut down = yamaha_a::Channel::default();
    assert_eq!(
        yamaha_a::decode_nibble(&mut up, 3, yamaha_a::Output::Native12),
        -yamaha_a::decode_nibble(&mut down, 11, yamaha_a::Output::Native12)
    );
    let mut up = yamaha::Channel::default();
    let mut down = yamaha::Channel::default();
    assert_eq!(
        yamaha::decode_nibble(&mut up, 7) as i32,
        -(yamaha::decode_nibble(&mut down, 15) as i32)
    );
}

#[test]
fn g726_streams_can_be_cut_anywhere() {
    let pcm = noise(120, 3);
    for &rate in Rate::all() {
        for order in [BitOrder::MsbFirst, BitOrder::LsbFirst] {
            let mut whole = (State::new(rate), BitPacker::new(order));
            let mut bytes = g726::encode_packet(&pcm, &mut whole.0, &mut whole.1);
            let mut parts = (State::new(rate), BitPacker::new(order));
            let mut cut = g726::encode_packet(&pcm[..37], &mut parts.0, &mut parts.1);
            cut.extend(g726::encode_packet(&pcm[37..], &mut parts.0, &mut parts.1));
            assert_eq!(bytes, cut);
            bytes.truncate(bytes.len() / 2);
            let mut one = (State::new(rate), BitUnpacker::new(order), Vec::new());
            g726::decode_packet(&bytes, &mut one.0, &mut one.1, &mut one.2);
            let mut two = (State::new(rate), BitUnpacker::new(order), Vec::new());
            g726::decode_packet(&bytes[..5], &mut two.0, &mut two.1, &mut two.2);
            g726::decode_packet(&bytes[5..], &mut two.0, &mut two.1, &mut two.2);
            assert_eq!(one.2, two.2);
            assert_eq!(one.2.len(), 8 * bytes.len() / rate.bits() as usize);
        }
    }
}

#[test]
fn block_sizes_and_sample_counts_invert_each_other() {
    assert_eq!(Variant::Ms.block_size_bytes(2, 3), None);
    assert_eq!(Variant::Ms.block_size_bytes(2, 4), Some(16));
    assert_eq!(Variant::Ms.block_size_bytes(1, 3), None);
    for variant in [Variant::Ms, Variant::ImaWav, Variant::ImaQt] {
        for channels in 1..=8u16 {
            for n in 0..120usize {
                if let Some(size) = variant.block_size_bytes(channels, n) {
                    assert_eq!(variant.samples_per_block(channels, size), Some(n));
                }
                if let Some(count) = variant.samples_per_block(channels, n) {
                    assert_eq!(variant.block_size_bytes(channels, count), Some(n));
                }
            }
        }
    }
}

#[test]
fn yamaha_channels_are_decoded_on_their_own() {
    let codes: Vec<u8> = noise(480, 9).iter().map(|s| (*s as u8) % 16).collect();
    for channels in 1..=5usize {
        let whole = codes.len() / channels / 2 * 2 * channels;
        let packet: Vec<u8> = codes[..whole].chunks(2).map(|p| p[0] + 16 * p[1]).collect();
        let mut states = vec![yamaha::Channel::default(); channels];
        let all = yamaha::decode_packet(&packet, &mut states);
        for ch in 0..channels {
            let own: Vec<u8> = codes[..whole].iter().copied().skip(ch).step_by(channels).collect();
            let lane: Vec<u8> = own.chunks(2).map(|p| p[0] + 16 * p[1]).collect();
            let mut state = [yamaha::Channel::default()];
            let alone = yamaha::decode_packet(&lane, &mut state);
            let got: Vec<i16> = all.iter().copied().skip(ch).step_by(channels).collect();
            assert_eq!(got, alone);
            assert_eq!(states[ch], state[0]);
        }
    }
}

#[test]
fn vox_channels_are_decoded_on_their_own() {
    let codes: Vec<u8> = noise(480, 21).iter().map(|s| (*s as u8) % 16).collect();
    let output = dialogic::Output::Native12;
    for order in [dialogic::NibbleOrder::HiFirst, dialogic::NibbleOrder::LoFirst] {
        let pack = |c: &[u8]| -> Vec<u8> {
            c.chunks(2)
                .map(|p| match order {
                    dialogic::NibbleOrder::HiFirst => 16 * p[0] + p[1],
                    dialogic::NibbleOrder::LoFirst => p[0] + 16 * p[1],
                })
                .collect()
        };
        let mut states = vec![dialogic::Channel::default(); 2];
        let all = dialogic::decode_packet(&pack(&codes), &mut states, order, output);
        for ch in 0..2usize {
            let own: Vec<u8> = codes.iter().copied().skip(ch).step_by(2).collect();
            let mut state = [dialogic::Channel::default()];
            let alone = dialogic::decode_packet(&pack(&own), &mut state, order, output);
            let got: Vec<i16> = all.iter().copied().skip(ch).step_by(2).collect();
            assert_eq!(got, alone);
            assert_eq!(states[ch], state[0]);
        }
    }
}

#[test]
fn a_quicktime_block_opens_on_the_step_of_its_first_differences() {
    let mut pcm = [0i16; 64];
    for (k, s) in pcm.iter_mut().enumerate() {
        *s = if k <= 16 { (k as i16) * 3 } else { 32000 };
    }
    let block = ima_qt_encode_block(&pcm, 1).unwrap();
    assert_eq!(block[1] & 0x7f, 1);
}

#[test]
fn no_other_code_in_a_microsoft_block_decodes_closer() {
    for channels in 1..=2usize {
        let size = 7 * channels + 12;
        let unit = (2 + 24 / channels) * channels;
        let pcm = noise(unit, 31);
        let block = encode_block(&pcm, channels, size).unwrap();
        let back = ms::decode_block(&block, channels).unwrap();
        assert_eq!(back.len(), unit);
        for m in 0..24usize {
            let j = 2 * channels + m;
            let at = 7 * channels + m / 2;
            for n in 0..16u8 {
                let mut other = block.clone();
                other[at] = if m % 2 == 0 {
                    16 * n + other[at] % 16
                } else {
                    n + 16 * (other[at] / 16)
                };
                let got = ms::decode_block(&other, channels).unwrap();
                let target = pcm[j] as i32;
                assert!((back[j] as i32 - target).abs() <= (got[j] as i32 - target).abs());
            }
        }
    }
}

#[test]
fn no_other_code_in_an_ima_block_decodes_closer() {
    let pcm = noise(3 * 17, 77);
    let block = ima_encode_block(&pcm, 3, 36).unwrap();
    let back = ima_wav::decode_block(&block, 3).unwrap();
    for ch in 0..3usize {
        for k in 0..16usize {
            let at = 12 + 12 * (k / 8) + 4 * ch + (k % 8) / 2;
            let j = (1 + k) * 3 + ch;
            for n in 0..16u8 {
                let mut other = block.clone();
                other[at] = if k % 2 == 0 {
                    n + 16 * (other[at] / 16)
                } else {
                    16 * n + other[at] % 16
                };
                let got = ima_wav::decode_block(&other, 3).unwrap();
                let target = pcm[j] as i32;
                assert!((back[j] as i32 - target).abs() <= (got[j] as i32 - target).abs());
            }
        }
    }
    let pcm = noise(128, 78);
    let data = ima_qt_encode_block(&pcm, 2).unwrap();
    let back = ima_qt::decode_block(&data, 2).unwrap();
    for ch in 0..2usize {
        for k in 0..64usize {
            let at = 34 * ch + 2 + k / 2;
            let j = 2 * k + ch;
            for n in 0..16u8 {
                let mut other = data.clone();
                other[at] = if k % 2 == 0 {
                    n + 16 * (other[at] / 16)
                } else {
                    16 * n + other[at] % 16
                };
                let got = ima_qt::decode_block(&other, 2).unwrap();
                let target = pcm[j] as i32;
                assert!((back[j] as i32 - target).abs() <= (got[j] as i32 - target).abs());
            }
        }
    }
}

#[test]
fn bits_above_a_g726_code_do_not_count() {
    for &rate in Rate::all() {
        let mut enc = State::new(rate);
        let mut plain = State::new(rate);
        let mut stray = State::new(rate);
        for (k, &s) in noise(300, 13).iter().enumerate() {
            let code = enc.encode_step(s / 4);
            let high = ((k * 37) as u8) << rate.bits();
            let out = plain.decode_step(code);
            assert_eq!(stray.decode_step(code | high), out);
            assert_eq!(format!("{stray:?}"), format!("{enc:?}"));
            assert!((-8192..=8191).contains(&out));
        }
    }
}

#[test]
fn stereo_vox_is_two_streams_in_turns() {
    for order in [dialogic::NibbleOrder::HiFirst, dialogic::NibbleOrder::LoFirst] {
        let pcm = noise(200, 44);
        let mut pair = [dialogic::Channel::default(); 2];
        let packet = dialogic::encode_packet_multi_wide16(&pcm, &mut pair, order);
        assert_eq!(packet.len(), 100);
        let mut back = [dialogic::Channel::default(); 2];
        let out =
            dialogic::decode_packet(&packet, &mut back, order, dialogic::Output::Wide16);
        assert_eq!(back, pair);
        for ch in 0..2usize {
            let own: Vec<i16> = pcm.iter().copied().skip(ch).step_by(2).collect();
            let mut state = dialogic::Channel::default();
            let alone = dialogic::encode_packet_wide16(&own, &mut state, order);
            assert_eq!(state, pair[ch]);
            let mut again = [dialogic::Channel::default()];
            let samples =
                dialogic::decode_packet(&alone, &mut again, order, dialogic::Output::Wide16);
            let got: Vec<i16> = out.iter().copied().skip(ch).step_by(2).collect();
            assert_eq!(got, samples);
        }
        let mut enc_params = params(CODEC_ID_DIALOGIC, 2);
        if order == dialogic::NibbleOrder::LoFirst {
            enc_params.options.push(("nibble_order".to_string(), "lo".to_string()));
        }
        let mut enc = make_encoder(&enc_params).unwrap();
        let bytes: Vec<u8> = pcm.iter().flat_map(|s| s.to_le_bytes()).collect();
        enc.send_frame(&bytes).unwrap();
        enc.send_frame(&bytes[..8]).unwrap();
        let first = enc.receive_packet().unwrap();
        assert_eq!((first.pts, first.data), (0, packet));
        assert_eq!(enc.receive_packet().unwrap().pts, 100);
        assert_eq!(
            enc.send_frame(&bytes[..2]),
            Err(Error::PcmSampleCount { samples: 1, channels: 2 })
        );
    }
    let mut none: [dialogic::Channel; 0] = [];
    assert!(dialogic::encode_packet_multi(&[1, 2], &mut none, dialogic::NibbleOrder::HiFirst)
        .is_empty());
    let mut one = [dialogic::Channel::default()];
    let mut mono = dialogic::Channel::default();
    let samples: Vec<i16> = noise(31, 9).iter().map(|s| s / 16).collect();
    assert_eq!(
        dialogic::encode_packet_multi(&samples, &mut one, dialogic::NibbleOrder::LoFirst),
        dialogic::encode_packet(&samples, &mut mono, dialogic::NibbleOrder::LoFirst)
    );
    assert_eq!(one[0], mono);
}
