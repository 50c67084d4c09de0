use oxideav_adpcm::decoder::{make_decoder, AdpcmDecoder};
use oxideav_adpcm::encoder::{make_encoder, FrameEncoder};
use oxideav_adpcm::error::{Component, Error};
use oxideav_adpcm::g726::{self, BitOrder, BitPacker, Rate, State};
use oxideav_adpcm::params::CodecParams;
use oxideav_adpcm::{ima_wav, ms, CODEC_ID_G726, CODEC_ID_IMA_WAV, CODEC_ID_MS};

fn params(id: &str, channels: u16, options: &[(&str, &str)]) -> CodecParams {
    let mut p = CodecParams::audio(id);
    p.channels = Some(channels);
    for (k, v) in options {
        p.options.push((k.to_string(), v.to_string()));
    }
    p
}

fn wobble(n: usize, seed: u64) -> Vec<i16> {
    let mut x = seed;
    let mut level: i32 = 0;
    let mut v = Vec::with_capacity(n);
    for _ in 0..n {
        x = x.wrapping_mul(6364136223846793005).wrapping_add(1442695040888963407);
        level = (level + ((x >> 52) as i32 - 2048)).clamp(-30000, 30000);
        v.push(level as i16);
    }
    v
}

fn bytes_of(pcm: &[i16]) -> Vec<u8> {
    pcm.iter().flat_map(|s| s.to_le_bytes()).collect()
}

fn run(d: &mut AdpcmDecoder, packet: &[u8]) -> Vec<i16> {
    d.send_packet(packet, None).unwrap();
    let f = d.receive_frame().unwrap();
    f.data.chunks(2).map(|c| i16::from_le_bytes([c[0], c[1]])).collect()
}

fn blocks(enc: &mut FrameEncoder, pcm: &[i16]) -> Vec<Vec<u8>> {
    enc.send_frame(&bytes_of(pcm)).unwrap();
    enc.flush().unwrap();
    let mut out = Vec::new();
    while let Ok(p) = enc.receive_packet() {
        out.push(p.data);
    }
    out
}

#[test]
fn a_tagged_header_tells_the_size_of_a_block() {
    for (id, tag, channels, options) in [
        (CODEC_ID_MS, 0x0002u16, 1u16, vec![]),
        (CODEC_ID_MS, 0x0002, 2, vec![]),
        (CODEC_ID_IMA_WAV, 0x0011, 1, vec![]),
        (CODEC_ID_IMA_WAV, 0x0011, 6, vec![("quantizer", "reference")]),
        (CODEC_ID_IMA_WAV, 0x0011, 2, vec![("bits_per_sample", "3")]),
    ] {
        let mut p = params(id, channels, &options);
        let mut enc = make_encoder(&p).unwrap();
        p.extradata = enc.wave_format_extra().unwrap();
        p.tag = Some(tag);
        let packets = blocks(&mut enc, &wobble(1500 * channels as usize, 7));
        assert!(packets.len() > 2);
        let mut one_by_one = make_decoder(&p).unwrap();
        let mut want = Vec::new();
        for packet in &packets {
            want.extend(run(&mut one_by_one, packet));
        }
        let all = run(&mut make_decoder(&p).unwrap(), &packets.concat());
        assert_eq!(all, want, "{id} with {channels} channels");
    }
}

#[test]
fn without_a_tag_of_its_own_a_packet_is_one_block() {
    let data: Vec<u8> = (0..64u8).map(|b| if b < 7 { 0 } else { b }).collect();
    let mut p = params(CODEC_ID_MS, 1, &[]);
    p.extradata = ms::build_extradata(52, &ms::STANDARD_COEFFS).unwrap();
    for tag in [None, Some(0x0011), Some(0x0001)] {
        p.tag = tag;
        assert_eq!(run(&mut make_decoder(&p).unwrap(), &data), ms::decode_block(&data, 1).unwrap());
    }
    p.tag = Some(0x0002);
    let mut want = ms::decode_block(&data[..32], 1).unwrap();
    assert_eq!(want.len(), 52);
    let second = ms::decode_block(&data[32..], 1);
    let mut d = make_decoder(&p).unwrap();
    match second {
        Ok(rest) => {
            want.extend(rest);
            assert_eq!(run(&mut d, &data), want);
        }
        Err(e) => assert_eq!(d.send_packet(&data, None), Err(e)),
    }
}

#[test]
fn the_block_align_option_wins_over_the_header() {
    let data = [0u8; 24];
    let mut p = params(CODEC_ID_IMA_WAV, 1, &[("block_align", "12")]);
    p.tag = Some(0x0011);
    p.extradata = vec![9, 0];
    assert_eq!(run(&mut make_decoder(&p).unwrap(), &data).len(), 2 * 17);
    p.options.clear();
    assert_eq!(run(&mut make_decoder(&p).unwrap(), &data).len(), 3 * 9);
    p.extradata = vec![10, 0];
    assert_eq!(
        run(&mut make_decoder(&p).unwrap(), &data),
        ima_wav::decode_block(&data, 1).unwrap()
    );
    p.extradata = vec![9];
    assert_eq!(run(&mut make_decoder(&p).unwrap(), &data).len(), 41);
}

#[test]
fn the_tag_picks_how_g726_is_framed() {
    let pcm = wobble(64, 3);
    let mut st = State::new(Rate::R24);
    let mut packer = BitPacker::new(BitOrder::MsbFirst);
    let raw = g726::encode_packet(&pcm, &mut st, &mut packer);
    let mut p = params(CODEC_ID_G726, 2, &[("bits_per_sample", "3")]);
    for tag in [0x0040u16, 0x0014] {
        p.tag = Some(tag);
        let mut by_tag = make_decoder(&p).unwrap();
        let mut q = params(CODEC_ID_G726, 2, &[("bits_per_sample", "3"), ("framing", "wav")]);
        let mut by_option = make_decoder(&q).unwrap();
        assert_eq!(run(&mut by_tag, &raw), run(&mut by_option, &raw));
        q.options[1].1 = "raw".to_string();
        q.tag = Some(tag);
        assert_eq!(
            make_decoder(&q).err(),
            Some(Error::ChannelCount { component: Component::G726, channels: 2 })
        );
    }
    for tag in [None, Some(0x0045u16), Some(0x0064), Some(0x0002)] {
        p.tag = tag;
        assert_eq!(
            make_decoder(&p).err(),
            Some(Error::ChannelCount { component: Component::G726, channels: 2 })
        );
    }
    let mut narrow = params(CODEC_ID_G726, 1, &[("bits_per_sample", "2")]);
    assert!(make_decoder(&narrow).is_ok());
    narrow.tag = Some(0x0040);
    assert_eq!(make_decoder(&narrow).err(), Some(Error::WavFramingRate));
}

#[test]
fn packets_can_be_decoded_without_a_frame() {
    let mut p = params(CODEC_ID_IMA_WAV, 1, &[("block_align", "8")]);
    p.sample_rate = Some(8000);
    let mut d = make_decoder(&p).unwrap();
    let data = [0u8, 0, 3, 0, 0x11, 0x22, 0x33, 0x44, 5, 0, 0, 0];
    let mut want = ima_wav::decode_block(&data[..8], 1).unwrap();
    want.extend(ima_wav::decode_block(&data[8..], 1).unwrap());
    assert_eq!(d.decode_packet(&data), Ok(want));
    assert_eq!(d.receive_frame().unwrap_err(), Error::NeedMore);
}
