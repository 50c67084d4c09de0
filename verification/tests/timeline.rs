use oxideav_adpcm::encoder::{make_encoder, EncodedPacket, FrameEncoder, MsEncoder};
use oxideav_adpcm::error::Error;
use oxideav_adpcm::params::CodecParams;
use oxideav_adpcm::{CODEC_ID_IMA_QT, CODEC_ID_IMA_WAV, CODEC_ID_MS};

fn noise(n: usize, seed: u64) -> Vec<u8> {
    let mut x = seed;
    let mut v = Vec::with_capacity(n);
    for _ in 0..n {
        x = x.wrapping_mul(6364136223846793005).wrapping_add(1442695040888963407);
        v.push((x >> 56) as u8);
    }
    v
}

fn encoder(id: &str, channels: u16, bits: &str) -> FrameEncoder {
    let mut p = CodecParams::audio(id);
    p.channels = Some(channels);
    p.sample_rate = Some(11025);
    p.options.push(("bits_per_sample".to_string(), bits.to_string()));
    make_encoder(&p).unwrap()
}

#[test]
fn mono_microsoft_streams_come_in_packets_of_500() {
    for n in [0usize, 1, 499, 500, 501, 1000, 1234] {
        let mut enc = MsEncoder::new(1, 256, 8000);
        enc.send_frame(&noise(2 * n, 5)).unwrap();
        enc.flush().unwrap();
        for k in 0..(n + 499) / 500 {
            let p = enc.receive_packet().unwrap();
            assert_eq!((p.pts, p.ticks, p.data.len()), (500 * k as i64, 8000, 256));
        }
        assert_eq!(enc.receive_packet().unwrap_err(), Error::NeedMore);
        enc.flush().unwrap();
        assert_eq!(enc.receive_packet().unwrap_err(), Error::NeedMore);
    }
}

#[test]
fn stamps_do_not_depend_on_when_packets_are_taken() {
    for (id, channels, bits, per_block, size) in [
        (CODEC_ID_MS, 1u16, "4", 500usize, 256usize),
        (CODEC_ID_MS, 2, "4", 244, 256),
        (CODEC_ID_IMA_WAV, 1, "4", 505, 256),
        (CODEC_ID_IMA_WAV, 6, "4", 73, 240),
        (CODEC_ID_IMA_WAV, 2, "3", 321, 248),
        (CODEC_ID_IMA_QT, 2, "4", 64, 68),
    ] {
        let mut enc = encoder(id, channels, bits);
        let turn = 2 * channels as usize;
        let mut taken: Vec<EncodedPacket> = Vec::new();
        let mut sent = 0usize;
        for step in 0..40usize {
            let frames = (step * 37) % 211;
            enc.send_frame(&noise(turn * frames, step as u64)).unwrap();
            sent += frames;
            if step % 5 == 0 {
                assert_eq!(
                    enc.send_frame(&noise(turn * 9 + 1, 3)).unwrap_err(),
                    Error::PcmByteCount { len: turn * 9 + 1 }
                );
            }
            if step % 3 == 0 {
                if let Ok(p) = enc.receive_packet() {
                    taken.push(p);
                }
            }
        }
        enc.flush().unwrap();
        enc.flush().unwrap();
        while let Ok(p) = enc.receive_packet() {
            taken.push(p);
        }
        assert_eq!(taken.len(), (sent + per_block - 1) / per_block);
        for (k, p) in taken.iter().enumerate() {
            assert_eq!(p.pts, (k * per_block) as i64);
            assert_eq!(p.ticks, 11025);
            assert_eq!(p.data.len(), size);
        }
    }
}
