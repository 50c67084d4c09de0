use oxideav_adpcm::encoder::{
    make_encoder, EncodedPacket, FrameEncoder, ImaQtEncoder, ImaWavEncoder, MsEncoder, Quantizer,
    DEFAULT_BLOCK_SIZE, QT_BLOCK_BYTES_PER_CHANNEL, QT_SAMPLES_PER_BLOCK,
};
use oxideav_adpcm::error::{Component, Error, ErrorKind, OptionKey};
use oxideav_adpcm::params::CodecParams;
use oxideav_adpcm::{
    dialogic, ima_qt, ima_wav, ms, yamaha, yamaha_a, Variant, CODEC_ID_DIALOGIC, CODEC_ID_G726,
    CODEC_ID_IMA_QT, CODEC_ID_IMA_WAV, CODEC_ID_MS, CODEC_ID_YAMAHA, CODEC_ID_YAMAHA_A,
};

fn sine_pcm(n: usize, hz: f64, sample_rate: f64, amp: f64) -> Vec<i16> {
    let mut v = Vec::with_capacity(n);
    for i in 0..n {
        let t = i as f64 / sample_rate;
        let s = (2.0 * std::f64::consts::PI * hz * t).sin() * amp;
        v.push(s.round().clamp(i16::MIN as f64, i16::MAX as f64) as i16);
    }
    v
}

fn bytes_of(pcm: &[i16]) -> Vec<u8> {
    pcm.iter().flat_map(|s| s.to_le_bytes()).collect()
}

fn params(id: &str, rate: Option<u32>, channels: u16) -> CodecParams {
    let mut p = CodecParams::audio(id);
    p.sample_rate = rate;
    p.channels = Some(channels);
    p
}

fn drain(enc: &mut FrameEncoder) -> Vec<EncodedPacket> {
    let mut out = Vec::new();
    while let Ok(p) = enc.receive_packet() {
        out.push(p);
    }
    out
}

#[test]
fn encoder_trait_end_to_end_emits_packets() {
    let p = params(CODEC_ID_IMA_WAV, Some(22050), 1);
    let mut enc = make_encoder(&p).unwrap();
    let samples_per_block = 1 + 63 * 8;
    let pcm = sine_pcm(samples_per_block, 440.0, 22050.0, 16000.0);
    enc.send_frame(&bytes_of(&pcm)).unwrap();
    let pkt = enc.receive_packet().unwrap();
    assert_eq!(pkt.data.len(), 256);
    let next = enc.receive_packet();
    assert!(matches!(next, Err(Error::NeedMore)));
}

#[test]
fn make_encoder_rejects_unknown_codec_id() {
    let p = CodecParams::audio("adpcm_not_a_real_id");
    let r = make_encoder(&p);
    assert!(r.is_err());
}

#[test]
fn yamaha_a_factory_builds_via_make_encoder_for_mono_only() {
    let p = params(CODEC_ID_YAMAHA_A, Some(22_050), 1);
    let _enc = match make_encoder(&p) {
        Ok(e) => e,
        Err(e) => panic!("ADPCM-A mono encoder factory: {e:?}"),
    };
    let p2 = params(CODEC_ID_YAMAHA_A, Some(22_050), 2);
    assert!(
        make_encoder(&p2).is_err(),
        "stereo ADPCM-A encoder should be rejected"
    );
}

#[test]
fn yamaha_a_encoder_emits_one_packet_per_send_frame() {
    let p = params(CODEC_ID_YAMAHA_A, Some(8_000), 1);
    let mut enc = make_encoder(&p).unwrap();
    let pcm = sine_pcm(200, 220.0, 8_000.0, 6_000.0);
    enc.send_frame(&bytes_of(&pcm)).unwrap();
    let pkt = enc.receive_packet().unwrap();
    assert_eq!(pkt.data.len(), 100);
    assert!(matches!(enc.receive_packet(), Err(Error::NeedMore)));
}

#[test]
fn ima_qt_factory_builds_via_make_encoder() {
    let p = params(CODEC_ID_IMA_QT, Some(22050), 1);
    assert!(make_encoder(&p).is_ok(), "IMA-QT encoder factory");
}

#[test]
fn ima_qt_encoder_emits_one_packet_per_block() {
    let p = params(CODEC_ID_IMA_QT, Some(22050), 1);
    let mut enc = make_encoder(&p).unwrap();
    let pcm = sine_pcm(QT_SAMPLES_PER_BLOCK * 2, 440.0, 22050.0, 16000.0);
    enc.send_frame(&bytes_of(&pcm)).unwrap();
    let p0 = enc.receive_packet().unwrap();
    let p1 = enc.receive_packet().unwrap();
    assert_eq!(p0.data.len(), QT_BLOCK_BYTES_PER_CHANNEL);
    assert_eq!(p1.data.len(), QT_BLOCK_BYTES_PER_CHANNEL);
    assert!(matches!(enc.receive_packet(), Err(Error::NeedMore)));
}

#[test]
fn block_time_stamps_count_samples_and_ticks_follow_the_rate() {
    let mut enc = make_encoder(&params(CODEC_ID_IMA_QT, Some(22050), 2)).unwrap();
    enc.send_frame(&vec![0u8; 64 * 2 * 2 * 3]).unwrap();
    let got: Vec<(i64, u32)> = drain(&mut enc).iter().map(|p| (p.pts, p.ticks)).collect();
    assert_eq!(got, vec![(0, 22050), (64, 22050), (128, 22050)]);
    let mut silent = make_encoder(&params(CODEC_ID_MS, None, 1)).unwrap();
    silent.send_frame(&vec![0u8; 2 * 500]).unwrap();
    assert_eq!(silent.receive_packet().unwrap().ticks, 1);
    let mut vox = make_encoder(&params(CODEC_ID_DIALOGIC, None, 1)).unwrap();
    vox.send_frame(&[0, 0]).unwrap();
    assert_eq!(vox.receive_packet().unwrap().ticks, 8000);
}

#[test]
fn blocks_of_the_frame_encoders_are_those_of_the_block_encoders() {
    let pcm = sine_pcm(1010, 300.0, 8000.0, 9000.0);
    let mut enc = make_encoder(&params(CODEC_ID_IMA_WAV, Some(8000), 1)).unwrap();
    enc.send_frame(&bytes_of(&pcm)).unwrap();
    let got = drain(&mut enc);
    assert_eq!(got.len(), 2);
    for (k, p) in got.iter().enumerate() {
        let part = &pcm[505 * k..505 * (k + 1)];
        assert_eq!(
            p.data,
            oxideav_adpcm::encoder::ima_encode_block(part, 1, 256).unwrap()
        );
        assert_eq!(ima_wav::decode_block(&p.data, 1).unwrap().len(), 505);
    }
}

#[test]
fn flush_fills_the_last_block_with_the_last_sample() {
    let mut enc = make_encoder(&params(CODEC_ID_IMA_QT, Some(8000), 2)).unwrap();
    let pcm: Vec<i16> = vec![100, -100, 200, -200, 300, -300];
    enc.send_frame(&bytes_of(&pcm)).unwrap();
    assert!(matches!(enc.receive_packet(), Err(Error::NeedMore)));
    enc.flush().unwrap();
    let got = drain(&mut enc);
    assert_eq!(got.len(), 1);
    let mut full = pcm.clone();
    while full.len() < 128 {
        full.push(300);
        full.push(-300);
    }
    assert_eq!(
        got[0].data,
        oxideav_adpcm::encoder::ima_qt_encode_block(&full, 2).unwrap()
    );
    enc.flush().unwrap();
    assert!(matches!(enc.receive_packet(), Err(Error::NeedMore)));
    assert_eq!(ima_qt::decode_block(&got[0].data, 2).unwrap().len(), 128);
}

#[test]
fn how_samples_are_cut_into_frames_makes_no_difference() {
    let pcm = sine_pcm(1300, 440.0, 22050.0, 12000.0);
    for id in [CODEC_ID_MS, CODEC_ID_IMA_WAV, CODEC_ID_IMA_QT] {
        let p = params(id, Some(22050), 1);
        let mut whole = make_encoder(&p).unwrap();
        whole.send_frame(&bytes_of(&pcm)).unwrap();
        whole.flush().unwrap();
        let want: Vec<(i64, Vec<u8>)> =
            drain(&mut whole).into_iter().map(|p| (p.pts, p.data)).collect();
        for step in [1usize, 7, 64, 500, 1299] {
            let mut cut = make_encoder(&p).unwrap();
            for part in pcm.chunks(step) {
                cut.send_frame(&bytes_of(part)).unwrap();
            }
            cut.flush().unwrap();
            let got: Vec<(i64, Vec<u8>)> =
                drain(&mut cut).into_iter().map(|p| (p.pts, p.data)).collect();
            assert_eq!(got, want, "{id} in frames of {step}");
        }
    }
}

#[test]
fn stream_frames_join_to_the_bytes_of_one() {
    let pcm = sine_pcm(240, 350.0, 8000.0, 9000.0);
    for (id, channels) in [
        (CODEC_ID_DIALOGIC, 1u16),
        (CODEC_ID_DIALOGIC, 2),
        (CODEC_ID_YAMAHA_A, 1),
        (CODEC_ID_YAMAHA, 2),
        (CODEC_ID_YAMAHA, 3),
    ] {
        let p = params(id, Some(8000), channels);
        let mut one = make_encoder(&p).unwrap();
        one.send_frame(&bytes_of(&pcm)).unwrap();
        let want = drain(&mut one);
        assert_eq!(want.len(), 1);
        let mut two = make_encoder(&p).unwrap();
        two.send_frame(&bytes_of(&pcm[..96])).unwrap();
        two.send_frame(&bytes_of(&pcm[96..])).unwrap();
        let got = drain(&mut two);
        assert_eq!(got.len(), 2);
        assert_eq!(got[1].pts, 96 / channels as i64);
        let joined: Vec<u8> = got.iter().flat_map(|p| p.data.clone()).collect();
        assert_eq!(joined, want[0].data, "{id} with {channels} channels");
    }
}

#[test]
fn stream_encoders_match_their_packet_functions() {
    let pcm = sine_pcm(100, 300.0, 8000.0, 12000.0);
    let mut enc = make_encoder(&params(CODEC_ID_DIALOGIC, Some(8000), 1)).unwrap();
    enc.send_frame(&bytes_of(&pcm)).unwrap();
    let mut st = dialogic::Channel::default();
    let want = dialogic::encode_packet_wide16(&pcm, &mut st, dialogic::NibbleOrder::HiFirst);
    assert_eq!(enc.receive_packet().unwrap().data, want);

    let mut enc = make_encoder(&params(CODEC_ID_YAMAHA, Some(8000), 2)).unwrap();
    enc.send_frame(&bytes_of(&pcm)).unwrap();
    let mut st = [yamaha::Channel::default(), yamaha::Channel::default()];
    assert_eq!(
        enc.receive_packet().unwrap().data,
        yamaha::encode_packet(&pcm, &mut st)
    );

    let mut enc = make_encoder(&params(CODEC_ID_YAMAHA_A, Some(8000), 1)).unwrap();
    enc.send_frame(&bytes_of(&pcm)).unwrap();
    let mut st = [yamaha_a::Channel::default()];
    assert_eq!(
        enc.receive_packet().unwrap().data,
        yamaha_a::encode_packet(&pcm, &mut st, yamaha_a::Output::Wide16)
    );
}

#[test]
fn empty_frames_make_no_packet() {
    for v in Variant::all() {
        let mut enc = make_encoder(&params(v.codec_id(), Some(8000), 1)).unwrap();
        enc.send_frame(&[]).unwrap();
        enc.flush().unwrap();
        assert!(matches!(enc.receive_packet(), Err(Error::NeedMore)), "{v:?}");
    }
}

#[test]
fn frames_that_are_no_whole_samples_are_refused() {
    let mut enc = make_encoder(&params(CODEC_ID_MS, Some(8000), 2)).unwrap();
    assert_eq!(
        enc.send_frame(&[1, 2, 3]),
        Err(Error::PcmByteCount { len: 3 })
    );
    assert_eq!(
        enc.send_frame(&[1, 2, 3, 4, 5, 6]),
        Err(Error::PcmSampleCount { samples: 3, channels: 2 })
    );
    let mut mono = make_encoder(&params(CODEC_ID_YAMAHA_A, Some(8000), 1)).unwrap();
    assert_eq!(
        mono.send_frame(&[1]),
        Err(Error::PcmByteCount { len: 1 })
    );
}

#[test]
fn block_size_can_be_set() {
    let mut enc = MsEncoder::new(1, DEFAULT_BLOCK_SIZE, 1);
    enc.set_block_size(32);
    enc.send_frame(&vec![0u8; 2 * 52]).unwrap();
    let p = enc.receive_packet().unwrap();
    assert_eq!(p.data.len(), 32);
    assert_eq!(ms::decode_block(&p.data, 1).unwrap().len(), 52);
    assert_eq!(enc.receive_packet().unwrap_err(), Error::NeedMore);

    let mut wav = ImaWavEncoder::new(2, DEFAULT_BLOCK_SIZE, 1, Quantizer::Search);
    wav.set_block_size(16);
    wav.send_frame(&vec![0u8; 2 * 2 * 9]).unwrap();
    assert_eq!(wav.receive_packet().unwrap().data.len(), 16);
    wav.flush().unwrap();
    assert_eq!(wav.receive_packet().unwrap_err(), Error::NeedMore);

    let mut qt = ImaQtEncoder::new(1, 1, Quantizer::Search);
    qt.send_frame(&vec![0u8; 128]).unwrap();
    assert_eq!(qt.receive_packet().unwrap().data.len(), 34);
}

#[test]
fn a_block_size_without_room_for_the_header_fails_when_a_block_is_due() {
    let mut enc = MsEncoder::new(1, 3, 1);
    assert_eq!(
        enc.send_frame(&[0, 0, 0, 0, 9, 9]),
        Err(Error::BlockSize { component: Component::MsEncoder, block_size: 3, header: 7 })
    );
    let mut wav = ImaWavEncoder::new(1, 9, 1, Quantizer::Search);
    assert_eq!(
        wav.send_frame(&vec![0u8; 2 * 9]),
        Err(Error::BodyLength {
            component: Component::ImaWavEncoder,
            len: 5,
            group: 4,
            channels: 1
        })
    );
}

#[test]
fn default_wav_blocks_fit_every_number_of_channels() {
    for channels in 1..=8u16 {
        let mut enc = make_encoder(&params(CODEC_ID_IMA_WAV, Some(8000), channels)).unwrap();
        let pcm = vec![5i16; channels as usize * 40];
        enc.send_frame(&bytes_of(&pcm)).unwrap();
        enc.flush().unwrap();
        let got = drain(&mut enc);
        assert!(!got.is_empty(), "{channels} channels");
        for p in got {
            assert_eq!(p.data.len() % (4 * channels as usize), 0);
            assert!(ima_wav::decode_block(&p.data, channels as usize).is_ok());
        }
    }
}

#[test]
fn encoders_refuse_what_they_cannot_do() {
    let refused = |id: &str, channels: u16| make_encoder(&params(id, None, channels)).err();
    assert_eq!(
        refused(CODEC_ID_MS, 0),
        Some(Error::ZeroChannels { component: Component::Encoder })
    );
    assert_eq!(
        refused(CODEC_ID_G726, 1),
        Some(Error::UnknownCodec { component: Component::Encoder })
    );
    for (id, component, channels) in [
        (CODEC_ID_MS, Component::MsEncoder, 3u16),
        (CODEC_ID_IMA_WAV, Component::ImaWavEncoder, 9),
        (CODEC_ID_IMA_QT, Component::ImaQtEncoder, 3),
        (CODEC_ID_YAMAHA, Component::YamahaEncoder, 9),
        (CODEC_ID_YAMAHA_A, Component::YamahaAEncoder, 2),
        (CODEC_ID_DIALOGIC, Component::DialogicEncoder, 3),
    ] {
        let e = refused(id, channels).unwrap();
        assert_eq!(
            e,
            Error::ChannelCount { component, channels: channels as usize },
            "{id}"
        );
        assert_eq!(e.kind(), ErrorKind::Unsupported);
    }
}

#[test]
fn encoders_follow_the_chip_and_the_nibble_order() {
    let pcm = sine_pcm(64, 700.0, 8000.0, 20000.0);
    let mut p = params(CODEC_ID_YAMAHA, Some(8000), 1);
    p.options.push(("chip".to_string(), "opna".to_string()));
    let mut enc = make_encoder(&p).unwrap();
    enc.send_frame(&bytes_of(&pcm)).unwrap();
    let mut st = [yamaha::Channel::for_chip(yamaha::Chip::Opna)];
    assert_eq!(
        enc.receive_packet().unwrap().data,
        yamaha::encode_packet(&pcm, &mut st)
    );

    let mut p = params(CODEC_ID_DIALOGIC, Some(8000), 1);
    p.options.push(("nibble_order".to_string(), "lo".to_string()));
    let mut enc = make_encoder(&p).unwrap();
    enc.send_frame(&bytes_of(&pcm)).unwrap();
    let mut st = dialogic::Channel::default();
    assert_eq!(
        enc.receive_packet().unwrap().data,
        dialogic::encode_packet_wide16(&pcm, &mut st, dialogic::NibbleOrder::LoFirst)
    );

    let mut p = params(CODEC_ID_MS, Some(8000), 1);
    p.options.push(("chip".to_string(), "aica".to_string()));
    assert_eq!(
        make_encoder(&p).err(),
        Some(Error::OptionNotApplicable { option: OptionKey::Chip, variant: Variant::Ms })
    );
    let mut p = params(CODEC_ID_DIALOGIC, Some(8000), 1);
    p.options.push(("nibble_order".to_string(), "mid".to_string()));
    assert_eq!(
        make_encoder(&p).err(),
        Some(Error::OptionValue { option: OptionKey::NibbleOrder, variant: Variant::Dialogic })
    );
}
