use oxideav_adpcm::decoder::{make_decoder, AdpcmDecoder};
use oxideav_adpcm::error::{Component, Error, ErrorKind, OptionKey};
use oxideav_adpcm::g726::{self, BitOrder, BitPacker, Law, Rate, State};
use oxideav_adpcm::params::CodecParams;
use oxideav_adpcm::{
    dialogic, encoder, ima_qt, ima_wav, ms, yamaha, yamaha_a, Variant, CODEC_ID_DIALOGIC,
    CODEC_ID_G726, CODEC_ID_IMA_QT, CODEC_ID_IMA_WAV, CODEC_ID_MS, CODEC_ID_YAMAHA,
    CODEC_ID_YAMAHA_A,
};

fn params(id: &str, channels: u16, options: &[(&str, &str)]) -> CodecParams {
    let mut p = CodecParams::audio(id);
    p.channels = Some(channels);
    for (k, v) in options {
        p.options.push((k.to_string(), v.to_string()));
    }
    p
}

fn decoder(id: &str, channels: u16, options: &[(&str, &str)]) -> AdpcmDecoder {
    match make_decoder(&params(id, channels, options)) {
        Ok(d) => d,
        Err(e) => panic!("{id} with {channels} channels and {options:?}: {e:?}"),
    }
}

fn refusal(id: &str, channels: u16, options: &[(&str, &str)]) -> Error {
    match make_decoder(&params(id, channels, options)) {
        Ok(_) => panic!("{id} with {channels} channels and {options:?} was accepted"),
        Err(e) => e,
    }
}

fn run(d: &mut AdpcmDecoder, packet: &[u8]) -> Vec<i16> {
    d.send_packet(packet, None).unwrap();
    let f = d.receive_frame().unwrap();
    f.data
        .chunks(2)
        .map(|c| i16::from_le_bytes([c[0], c[1]]))
        .collect()
}

fn noise(n: usize, mut seed: u32) -> Vec<u8> {
    (0..n)
        .map(|_| {
            seed ^= seed << 13;
            seed ^= seed >> 17;
            seed ^= seed << 5;
            (seed >> 8) as u8
        })
        .collect()
}

#[test]
fn a_frame_must_be_taken_before_the_next_packet() {
    let mut d = decoder(CODEC_ID_YAMAHA, 1, &[]);
    assert_eq!(d.codec_id(), CODEC_ID_YAMAHA);
    assert_eq!(d.receive_frame().unwrap_err(), Error::NeedMore);
    d.send_packet(&[0x12, 0x34], Some(7)).unwrap();
    let e = d.send_packet(&[0x56], None).unwrap_err();
    assert_eq!(e, Error::FramePending);
    assert_eq!(e.kind(), ErrorKind::Misuse);
    let f = d.receive_frame().unwrap();
    assert_eq!((f.pts, f.samples, f.data.len()), (Some(7), 4, 8));
    assert_eq!(d.receive_frame().unwrap_err(), Error::NeedMore);
    d.flush();
    let e = d.receive_frame().unwrap_err();
    assert_eq!(e, Error::EndOfStream);
    assert_eq!(e.kind(), ErrorKind::EndOfStream);
    d.reset();
    assert_eq!(d.receive_frame().unwrap_err().kind(), ErrorKind::NeedMore);
}

#[test]
fn a_packet_without_bytes_gives_an_empty_frame() {
    for v in Variant::all() {
        let mut d = decoder(v.codec_id(), 1, &[]);
        d.send_packet(&[], Some(-3)).unwrap();
        let f = d.receive_frame().unwrap();
        assert_eq!((f.pts, f.samples, f.data.len()), (Some(-3), 0, 0), "{v:?}");
    }
}

#[test]
fn frames_hold_what_the_block_and_packet_functions_give() {
    let bytes = noise(64, 11);
    let mut st = [yamaha::Channel::default(), yamaha::Channel::default()];
    assert_eq!(
        run(&mut decoder(CODEC_ID_YAMAHA, 2, &[]), &bytes),
        yamaha::decode_packet(&bytes, &mut st)
    );
    let mut st = [yamaha::Channel::for_chip(yamaha::Chip::Opna)];
    assert_eq!(
        run(&mut decoder(CODEC_ID_YAMAHA, 1, &[("chip", "opna")]), &bytes),
        yamaha::decode_packet(&bytes, &mut st)
    );
    let mut st = [yamaha_a::Channel::default()];
    assert_eq!(
        run(&mut decoder(CODEC_ID_YAMAHA_A, 1, &[]), &bytes),
        yamaha_a::decode_packet(&bytes, &mut st, yamaha_a::Output::Wide16)
    );
    for (value, order) in [
        ("hi", dialogic::NibbleOrder::HiFirst),
        ("lo", dialogic::NibbleOrder::LoFirst),
    ] {
        let mut st = [dialogic::Channel::default(), dialogic::Channel::default()];
        assert_eq!(
            run(&mut decoder(CODEC_ID_DIALOGIC, 2, &[("nibble_order", value)]), &bytes),
            dialogic::decode_packet(&bytes, &mut st, order, dialogic::Output::Wide16)
        );
    }
    let mut block = vec![0u8; 4];
    block.extend_from_slice(&bytes[..48]);
    assert_eq!(
        run(&mut decoder(CODEC_ID_IMA_WAV, 1, &[]), &block),
        ima_wav::decode_block(&block, 1).unwrap()
    );
    assert_eq!(
        run(&mut decoder(CODEC_ID_IMA_WAV, 1, &[("bits_per_sample", "3")]), &block),
        ima_wav::decode_block_3bit(&block, 1).unwrap()
    );
    let mut block = vec![0u8; 7];
    block.extend_from_slice(&bytes);
    assert_eq!(
        run(&mut decoder(CODEC_ID_MS, 1, &[]), &block),
        ms::decode_block(&block, 1).unwrap()
    );
}

#[test]
fn stream_state_lives_on_from_packet_to_packet_and_reset_forgets_it() {
    let bytes = noise(90, 5);
    for (id, channels) in [
        (CODEC_ID_YAMAHA, 1u16),
        (CODEC_ID_YAMAHA, 3),
        (CODEC_ID_YAMAHA_A, 1),
        (CODEC_ID_DIALOGIC, 2),
        (CODEC_ID_G726, 1),
    ] {
        let whole = run(&mut decoder(id, channels, &[]), &bytes);
        let mut d = decoder(id, channels, &[]);
        let mut parts = run(&mut d, &bytes[..30]);
        parts.extend(run(&mut d, &bytes[30..]));
        assert_eq!(parts, whole, "{id} with {channels} channels");
        d.reset();
        assert_eq!(run(&mut d, &bytes), whole, "{id} after a reset");
    }
}

#[test]
fn samples_that_do_not_go_round_the_channels_are_refused() {
    let mut d = decoder(CODEC_ID_YAMAHA, 3, &[]);
    assert_eq!(
        d.send_packet(&[0x11], None),
        Err(Error::UnevenOutput { samples: 2, channels: 3 })
    );
    assert_eq!(d.receive_frame().unwrap_err(), Error::NeedMore);
    let mut st = vec![yamaha::Channel::default(); 3];
    let _ = yamaha::decode_packet(&[0x11], &mut st);
    assert_eq!(
        run(&mut d, &[0x22, 0x33, 0x44]),
        yamaha::decode_packet(&[0x22, 0x33, 0x44], &mut st)
    );
}

#[test]
fn packets_of_several_blocks_are_cut_where_block_align_says() {
    let pcm: Vec<i16> = (0..3 * 50).map(|k| (k * 131 % 4000) as i16 - 2000).collect();
    let mut packet = Vec::new();
    let mut want = Vec::new();
    for part in pcm.chunks(50) {
        let b = encoder::encode_block(part, 1, 31).unwrap();
        want.extend(ms::decode_block(&b, 1).unwrap());
        packet.extend(b);
    }
    let mut d = decoder(CODEC_ID_MS, 1, &[("block_align", "31")]);
    assert_eq!(run(&mut d, &packet), want);
    let one = run(&mut decoder(CODEC_ID_MS, 1, &[]), &packet);
    assert_eq!(one, ms::decode_block(&packet, 1).unwrap());
    let short = &packet[..31 + 9];
    let mut tail = ms::decode_block(&packet[..31], 1).unwrap();
    tail.extend(ms::decode_block(&packet[31..40], 1).unwrap());
    assert_eq!(run(&mut d, short), tail);
    let bad = &packet[..31 + 5];
    assert_eq!(
        d.send_packet(bad, None),
        Err(Error::BlockTooShort { component: Component::Ms, len: 5, header: 7 })
    );
    assert_eq!(d.receive_frame().unwrap_err(), Error::NeedMore);
}

#[test]
fn quicktime_packets_are_whole_rounds_of_blocks() {
    let mut data = noise(34 * 2 * 3, 77);
    for k in 0..6 {
        data[34 * k + 1] &= 0x80;
    }
    let mut want = Vec::new();
    for part in data.chunks(68) {
        want.extend(ima_qt::decode_block(part, 2).unwrap());
    }
    let mut d = decoder(CODEC_ID_IMA_QT, 2, &[("block_align", "10")]);
    assert_eq!(run(&mut d, &data), want);
    assert_eq!(
        d.send_packet(&data[..34], None),
        Err(Error::PacketLength { len: 34, block: 68, channels: 2 })
    );
}

#[test]
fn declared_coefficient_sets_are_used() {
    let mut sets = ms::STANDARD_COEFFS.to_vec();
    sets.push((128, -32));
    let mut p = params(CODEC_ID_MS, 1, &[]);
    p.extradata = ms::build_extradata(52, &sets).unwrap();
    let mut d = make_decoder(&p).unwrap();
    let block = [7u8, 16, 0, 0xE8, 0x03, 0xD0, 0x07, 0x35];
    assert_eq!(
        run(&mut d, &block),
        ms::decode_block_with_coeffs(&block, 1, &sets).unwrap()
    );
    assert_eq!(
        decoder(CODEC_ID_MS, 1, &[]).send_packet(&block, None),
        Err(Error::PredictorIndex { index: 7, sets: 7 })
    );
    p.extradata[2] = 3;
    assert_eq!(
        make_decoder(&p).err(),
        Some(Error::TrailerTooFewSets { sets: 3 })
    );
}

fn g726_bytes(rate: Rate, order: BitOrder, pcm: &[i16]) -> Vec<u8> {
    let mut st = State::new(rate);
    let mut packer = BitPacker::new(order);
    let mut bytes = g726::encode_packet(pcm, &mut st, &mut packer);
    packer.flush(&mut bytes);
    bytes
}

#[test]
fn raw_g726_packets_can_be_cut_anywhere() {
    let pcm: Vec<i16> = (0..200).map(|k| ((k * 977) % 12000) as i16 - 6000).collect();
    for (bits, rate) in [("2", Rate::R16), ("3", Rate::R24), ("4", Rate::R32), ("5", Rate::R40)] {
        for (value, order) in [("msb", BitOrder::MsbFirst), ("lsb", BitOrder::LsbFirst)] {
            let bytes = g726_bytes(rate, order, &pcm);
            let options = [("bits_per_sample", bits), ("bit_order", value)];
            let whole = run(&mut decoder(CODEC_ID_G726, 1, &options), &bytes);
            assert_eq!(whole.len(), bytes.len() * 8 / rate.bits() as usize);
            let mut st = State::new(rate);
            let codes = g726::unpack_codes(&bytes, rate, order);
            let want: Vec<i16> = codes.iter().map(|&c| st.decode_i16(c)).collect();
            assert_eq!(whole, want);
            for step in [1usize, 2, 5, 17] {
                let mut d = decoder(CODEC_ID_G726, 1, &options);
                let mut got = Vec::new();
                for part in bytes.chunks(step) {
                    got.extend(run(&mut d, part));
                }
                assert_eq!(got, whole, "{rate:?} {order:?} in packets of {step}");
            }
        }
    }
}

#[test]
fn log_pcm_output_sits_on_the_law() {
    let bytes = noise(40, 3);
    for (value, law) in [("alaw", Law::ALaw), ("ulaw", Law::ULaw)] {
        let got = run(&mut decoder(CODEC_ID_G726, 1, &[("law", value)]), &bytes);
        let mut st = State::new(Rate::R32);
        let want: Vec<i16> = g726::unpack_codes(&bytes, Rate::R32, BitOrder::MsbFirst)
            .iter()
            .map(|&c| g726::expand_i16(st.decode_law(c, law), law))
            .collect();
        assert_eq!(got, want);
    }
    let linear = run(&mut decoder(CODEC_ID_G726, 1, &[("law", "linear")]), &bytes);
    assert_eq!(linear, run(&mut decoder(CODEC_ID_G726, 1, &[]), &bytes));
}

#[test]
fn stereo_wav_blocks_lose_their_auxiliary_bytes_and_can_be_cut_anywhere() {
    let payload = noise(3 * 96, 9);
    let mut stream = Vec::new();
    for block in payload.chunks(96) {
        stream.extend_from_slice(&[0xAA, 0xBB, 0xCC]);
        stream.extend_from_slice(block);
    }
    let options = [("framing", "wav"), ("bits_per_sample", "3"), ("aux_block_size", "3")];
    let got = run(&mut decoder(CODEC_ID_G726, 2, &options), &stream);
    let codes = g726::unpack_codes(&payload, Rate::R24, BitOrder::MsbFirst);
    let mut lanes = [State::new(Rate::R24), State::new(Rate::R24)];
    let want: Vec<i16> = codes
        .iter()
        .enumerate()
        .map(|(n, &c)| lanes[n % 2].decode_i16(c))
        .collect();
    assert_eq!(got, want);
    for step in [1usize, 2, 4, 50, 97] {
        let mut d = decoder(CODEC_ID_G726, 2, &options);
        let mut parts = Vec::new();
        for part in stream.chunks(step) {
            parts.extend(run(&mut d, part));
        }
        assert_eq!(parts, want, "packets of {step}");
    }
    let mut p = params(CODEC_ID_G726, 2, &options[..2]);
    p.extradata = g726::wav_format_extra(3).to_vec();
    assert_eq!(run(&mut make_decoder(&p).unwrap(), &stream), want);
    p.options.push(("aux_block_size".to_string(), "0".to_string()));
    assert_eq!(
        run(&mut make_decoder(&p).unwrap(), &payload),
        want,
        "an option goes before the header"
    );
}

#[test]
fn a_huge_auxiliary_prefix_swallows_the_stream() {
    let max = usize::MAX.to_string();
    let options = [("framing", "wav"), ("aux_block_size", max.as_str())];
    assert!(run(&mut decoder(CODEC_ID_G726, 1, &options), &noise(100, 1)).is_empty());
}

#[test]
fn decoders_refuse_what_they_cannot_do() {
    assert_eq!(
        refusal("pcm_s16le", 1, &[]),
        Error::UnknownCodec { component: Component::Decoder }
    );
    assert_eq!(
        refusal(CODEC_ID_MS, 0, &[]),
        Error::ZeroChannels { component: Component::Decoder }
    );
    for (id, component, channels) in [
        (CODEC_ID_MS, Component::Ms, 3u16),
        (CODEC_ID_IMA_WAV, Component::ImaWav, 9),
        (CODEC_ID_IMA_QT, Component::ImaQt, 9),
        (CODEC_ID_YAMAHA_A, Component::YamahaA, 2),
        (CODEC_ID_DIALOGIC, Component::Dialogic, 3),
        (CODEC_ID_G726, Component::G726, 2),
    ] {
        assert_eq!(
            refusal(id, channels, &[]),
            Error::ChannelCount { component, channels: channels as usize },
            "{id}"
        );
    }
    assert_eq!(
        refusal(CODEC_ID_G726, 3, &[("framing", "wav")]),
        Error::ChannelCount { component: Component::G726, channels: 3 }
    );
}

#[test]
fn options_are_checked() {
    for (option, key, value, id, variant) in [
        (OptionKey::Chip, "chip", "aica", CODEC_ID_MS, Variant::Ms),
        (OptionKey::Quantizer, "quantizer", "search", CODEC_ID_YAMAHA, Variant::Yamaha),
        (OptionKey::NibbleOrder, "nibble_order", "hi", CODEC_ID_IMA_QT, Variant::ImaQt),
        (OptionKey::BitOrder, "bit_order", "msb", CODEC_ID_DIALOGIC, Variant::Dialogic),
        (OptionKey::Law, "law", "alaw", CODEC_ID_YAMAHA_A, Variant::YamahaA),
        (OptionKey::Framing, "framing", "raw", CODEC_ID_IMA_WAV, Variant::ImaWav),
        (OptionKey::AuxBlockSize, "aux_block_size", "1", CODEC_ID_G726, Variant::G726),
    ] {
        assert_eq!(
            refusal(id, 1, &[(key, value)]),
            Error::OptionNotApplicable { option, variant },
            "{key}"
        );
    }
    for (option, key, id, variant) in [
        (OptionKey::Chip, "chip", CODEC_ID_YAMAHA, Variant::Yamaha),
        (OptionKey::Quantizer, "quantizer", CODEC_ID_IMA_QT, Variant::ImaQt),
        (OptionKey::NibbleOrder, "nibble_order", CODEC_ID_DIALOGIC, Variant::Dialogic),
        (OptionKey::BitOrder, "bit_order", CODEC_ID_G726, Variant::G726),
        (OptionKey::Law, "law", CODEC_ID_G726, Variant::G726),
        (OptionKey::Framing, "framing", CODEC_ID_G726, Variant::G726),
    ] {
        assert_eq!(
            refusal(id, 1, &[(key, "nonsense")]),
            Error::OptionValue { option, variant },
            "{key}"
        );
    }
    assert_eq!(
        refusal(CODEC_ID_MS, 1, &[("block_align", "0")]),
        Error::OptionZero { option: OptionKey::BlockAlign }
    );
    assert_eq!(
        refusal(CODEC_ID_G726, 1, &[("framing", "wav"), ("bits_per_sample", "2")]),
        Error::WavFramingRate
    );
    assert_eq!(
        refusal(CODEC_ID_G726, 1, &[("framing", "wav"), ("bit_order", "lsb")]),
        Error::WavFramingBitOrder
    );
    for (id, variant, bits) in [
        (CODEC_ID_IMA_WAV, Variant::ImaWav, 5u8),
        (CODEC_ID_G726, Variant::G726, 6),
        (CODEC_ID_MS, Variant::Ms, 3),
    ] {
        assert_eq!(
            refusal(id, 1, &[("bits_per_sample", bits.to_string().as_str())]),
            Error::CodeWidth { variant, bits }
        );
    }
    for value in ["search", "reference"] {
        let _ = decoder(CODEC_ID_IMA_WAV, 1, &[("quantizer", value)]);
    }
}

#[test]
fn numbers_are_read_as_decimal() {
    for (text, ok) in [
        ("4", true),
        ("+4", true),
        ("004", true),
        ("", false),
        ("+", false),
        ("-4", false),
        (" 4", false),
        ("4 ", false),
        ("0x4", false),
        ("4.0", false),
        ("256", false),
        ("99999999999999999999", false),
        ("\u{664}", false),
    ] {
        let p = params(CODEC_ID_IMA_WAV, 1, &[("bits_per_sample", text)]);
        let r = make_decoder(&p).err();
        if ok {
            assert_eq!(r, None, "{text:?}");
        } else {
            let e = Error::OptionNotANumber { option: OptionKey::BitsPerSample };
            assert_eq!(r, Some(e), "{text:?}");
            assert_eq!(e.kind(), ErrorKind::Invalid);
        }
    }
    let limit = usize::MAX.to_string();
    let _ = decoder(CODEC_ID_MS, 1, &[("block_align", limit.as_str())]);
    let beyond = (usize::MAX as u128 + 1).to_string();
    assert_eq!(
        refusal(CODEC_ID_MS, 1, &[("block_align", beyond.as_str())]),
        Error::OptionNotANumber { option: OptionKey::BlockAlign }
    );
    assert_eq!(
        refusal(CODEC_ID_G726, 1, &[("framing", "wav"), ("aux_block_size", "x")]),
        Error::OptionNotANumber { option: OptionKey::AuxBlockSize }
    );
}

#[test]
fn the_first_option_of_a_key_counts() {
    let d = make_decoder(&params(
        CODEC_ID_YAMAHA,
        1,
        &[("other", "x"), ("chip", "opna"), ("chip", "nonsense")],
    ));
    let bytes = noise(40, 21);
    let mut st = [yamaha::Channel::for_chip(yamaha::Chip::Opna)];
    assert_eq!(
        run(&mut d.unwrap(), &bytes),
        yamaha::decode_packet(&bytes, &mut st)
    );
    let mut p = CodecParams::audio(CODEC_ID_YAMAHA);
    p.options.push(("chip".to_string(), "opna".to_string()));
    assert_eq!(p.option("chip"), Some("opna"));
    assert_eq!(p.option("law"), None);
    assert_eq!(p.channel_count(), 1);
}
