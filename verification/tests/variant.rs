use oxideav_adpcm::decoder::make_decoder;
use oxideav_adpcm::params::CodecParams;
use oxideav_adpcm::{
    ima_qt, ima_wav, ms, Shape, Variant, CODEC_ID_DIALOGIC, CODEC_ID_IMA_QT, CODEC_ID_IMA_WAV,
    CODEC_ID_MS, CODEC_ID_YAMAHA, CODEC_ID_YAMAHA_A,
};

#[test]
fn builds_decoder_with_params() {
    for id in [
        CODEC_ID_MS,
        CODEC_ID_IMA_WAV,
        CODEC_ID_IMA_QT,
        CODEC_ID_YAMAHA,
        CODEC_ID_YAMAHA_A,
        CODEC_ID_DIALOGIC,
    ] {
        let mut p = CodecParams::audio(id);
        p.sample_rate = Some(22_050);
        p.channels = Some(1);
        make_decoder(&p)
            .unwrap_or_else(|e| panic!("make_decoder for {id}: {e:?}"));
    }
}

#[test]
fn variant_codec_id_round_trip() {
    for &v in Variant::all() {
        let id = v.codec_id();
        let parsed = Variant::from_codec_id(id)
            .unwrap_or_else(|| panic!("from_codec_id({:?}) returned None", id));
        assert_eq!(parsed, v, "round-trip mismatch for {:?}", v);
    }
}

#[test]
fn variant_from_codec_id_rejects_unknown_ids() {
    for id in ["pcm_s16le", "mp3", "opus", "", "adpcm_unknown"] {
        assert!(
            Variant::from_codec_id(id).is_none(),
            "unknown id {id:?} mis-parsed as a Variant"
        );
    }
}

#[test]
fn variant_all_covers_every_known_codec_id() {
    let from_all: Vec<&'static str> = Variant::all().iter().map(|v| v.codec_id()).collect();
    for id in [
        CODEC_ID_MS,
        CODEC_ID_IMA_WAV,
        CODEC_ID_IMA_QT,
        CODEC_ID_YAMAHA,
        CODEC_ID_YAMAHA_A,
        CODEC_ID_DIALOGIC,
    ] {
        assert!(
            from_all.contains(&id),
            "codec id {id} missing from Variant::all()"
        );
    }
    assert_eq!(from_all.len(), 6, "Variant::all() drifted from 6 entries");
}

#[test]
fn variant_wave_format_tag_matches_registered_tag() {
    for &v in Variant::all() {
        match v.wave_format_tag() {
            Some(0x0002) => assert_eq!(v, Variant::Ms),
            Some(0x0011) => assert_eq!(v, Variant::ImaWav),
            Some(0x0020) => assert_eq!(v, Variant::Yamaha),
            Some(0x0010) => assert_eq!(v, Variant::Dialogic),
            Some(other) => panic!("unexpected wave_format_tag {other:#06x} on {v:?}"),
            None => assert!(
                matches!(v, Variant::ImaQt | Variant::YamahaA),
                "{v:?} returned None from wave_format_tag but is not a tagless variant"
            ),
        }
    }
}

#[test]
fn variant_fourcc_only_set_for_quicktime_ima4() {
    for &v in Variant::all() {
        match v {
            Variant::ImaQt => assert_eq!(v.fourcc(), Some(*b"ima4")),
            other => assert_eq!(other.fourcc(), None, "{other:?} should have no fourcc"),
        }
    }
}

#[test]
fn variant_from_wave_format_tag_inverts_wave_format_tag() {
    for &v in Variant::all() {
        match v.wave_format_tag() {
            Some(tag) => assert_eq!(
                Variant::from_wave_format_tag(tag),
                Some(v),
                "wave tag {tag:#06x} did not invert back to {v:?}"
            ),
            None => {
                for &owner in Variant::all() {
                    if let Some(tag) = owner.wave_format_tag() {
                        assert_ne!(
                            Variant::from_wave_format_tag(tag),
                            Some(v),
                            "{v:?} is tagless but resolved from {tag:#06x}"
                        );
                    }
                }
            }
        }
    }
}

#[test]
fn variant_from_wave_format_tag_rejects_foreign_and_unknown_tags() {
    for tag in [
        0x0000u16,
        0x0001,
        0x0003,
        0x0006,
        0x0007,
        0x0028,
        0x0045,
        0xFFFF,
    ] {
        assert_eq!(
            Variant::from_wave_format_tag(tag),
            None,
            "tag {tag:#06x} must not resolve to an ADPCM variant"
        );
    }
}

#[test]
fn variant_from_fourcc_inverts_fourcc() {
    for &v in Variant::all() {
        match v.fourcc() {
            Some(fourcc) => assert_eq!(
                Variant::from_fourcc(fourcc),
                Some(v),
                "fourcc {fourcc:?} did not invert back to {v:?}"
            ),
            None => {
                assert_eq!(Variant::from_fourcc(*b"ima4"), Some(Variant::ImaQt));
            }
        }
    }
    for code in [b"sowt", b"twos", b"ms\x00\x02", b"\0\0\0\0", b"IMA4"] {
        assert_eq!(
            Variant::from_fourcc(*code),
            None,
            "fourcc {code:?} must not resolve (case-sensitive, ima4 only)"
        );
    }
}

#[test]
fn variant_shape_partitions_block_vs_stream() {
    for &v in Variant::all() {
        let shape = v.shape();
        match v {
            Variant::Ms | Variant::ImaWav | Variant::ImaQt => {
                assert_eq!(
                    shape,
                    Shape::BlockOriented,
                    "{:?} is a block-oriented WAV/AVI/QT variant",
                    v
                );
            }
            Variant::Yamaha | Variant::YamahaA | Variant::Dialogic => {
                assert_eq!(
                    shape,
                    Shape::StreamOriented,
                    "{:?} is a stream-oriented chip variant",
                    v
                );
            }
            Variant::G726 => unreachable!("{v:?} is not offered by the registry"),
        }
    }
    let block = Variant::all()
        .iter()
        .filter(|v| v.shape() == Shape::BlockOriented)
        .count();
    let stream = Variant::all()
        .iter()
        .filter(|v| v.shape() == Shape::StreamOriented)
        .count();
    assert_eq!(block, 3, "expected 3 block-oriented variants, got {block}");
    assert_eq!(
        stream, 3,
        "expected 3 stream-oriented variants, got {stream}"
    );
}

#[test]
fn variant_max_channels_matches_factory_accept_reject() {
    for &v in Variant::all() {
        let id = v.codec_id();
        match v.max_channels() {
            Some(max) => {
                let mut p = CodecParams::audio(id);
                p.sample_rate = Some(22_050);
                p.channels = Some(max);
                make_decoder(&p).unwrap_or_else(|e| {
                    panic!("{:?}: factory rejected claimed max {max}ch: {e:?}", v)
                });
                let mut p_over = CodecParams::audio(id);
                p_over.sample_rate = Some(22_050);
                p_over.channels = Some(max + 1);
                assert!(
                    make_decoder(&p_over).is_err(),
                    "{:?}: factory accepted {}ch but max_channels() says {max}",
                    v,
                    max + 1
                );
            }
            None => {
                let mut p = CodecParams::audio(id);
                p.sample_rate = Some(22_050);
                p.channels = Some(16);
                make_decoder(&p).unwrap_or_else(|e| {
                    panic!(
                        "{:?}: max_channels()=None implies unbounded but factory rejected 16ch: {e:?}",
                        v
                    )
                });
            }
        }
    }
}

#[test]
fn variant_max_channels_rejects_zero_for_every_variant() {
    for &v in Variant::all() {
        let mut p = CodecParams::audio(v.codec_id());
        p.sample_rate = Some(22_050);
        p.channels = Some(0);
        assert!(
            make_decoder(&p).is_err(),
            "{:?}: factory accepted 0 channels",
            v
        );
    }
}

#[test]
fn variant_header_bytes_block_oriented_only() {
    for &v in Variant::all() {
        let max = v.max_channels().unwrap_or(16);
        for ch in 1..=max {
            let h = v.header_bytes(ch);
            match v.shape() {
                Shape::BlockOriented => {
                    assert!(h.is_some(), "{:?} ch={ch}: header_bytes returned None", v);
                }
                Shape::StreamOriented => {
                    assert!(h.is_none(), "{:?} ch={ch}: header_bytes returned Some", v);
                }
            }
        }
        assert_eq!(v.header_bytes(0), None, "{:?}: ch=0 must be None", v);
    }
    assert_eq!(Variant::Ms.header_bytes(1), Some(7));
    assert_eq!(Variant::Ms.header_bytes(2), Some(14));
    assert_eq!(Variant::ImaWav.header_bytes(1), Some(4));
    assert_eq!(Variant::ImaWav.header_bytes(2), Some(8));
    assert_eq!(Variant::ImaQt.header_bytes(1), Some(2));
    assert_eq!(Variant::ImaQt.header_bytes(2), Some(4));
}

#[test]
fn variant_samples_per_block_matches_actual_decode() {
    for (ch, block_bytes) in &[(1u16, 7usize), (1, 9), (2, 14), (2, 18)] {
        let expected = Variant::Ms.samples_per_block(*ch, *block_bytes).unwrap();
        let ch_u = *ch as usize;
        let mut block = vec![0u8; *block_bytes];
        for c in 0..ch_u {
            let off = ch_u + c * 2;
            block[off] = 16;
            block[off + 1] = 0;
        }
        let pcm = ms::decode_block(&block, ch_u).unwrap();
        let actual = pcm.len() / ch_u;
        assert_eq!(
            actual, expected,
            "MS ch={ch} block={block_bytes}: decoder produced {actual}, accessor predicted {expected}"
        );
    }
    for (ch, block_bytes) in &[(1u16, 4usize), (1, 8), (1, 12), (2, 8), (2, 16)] {
        let expected = Variant::ImaWav
            .samples_per_block(*ch, *block_bytes)
            .unwrap();
        let block = vec![0u8; *block_bytes];
        let pcm = ima_wav::decode_block(&block, *ch as usize).unwrap();
        let actual = pcm.len() / *ch as usize;
        assert_eq!(
            actual, expected,
            "IMA-WAV ch={ch} block={block_bytes}: decoder produced {actual}, accessor predicted {expected}"
        );
    }
    for ch in &[1u16, 2u16] {
        let block_bytes = ima_qt::QT_BLOCK_SIZE * *ch as usize;
        let expected = Variant::ImaQt.samples_per_block(*ch, block_bytes).unwrap();
        assert_eq!(expected, ima_qt::QT_SAMPLES_PER_BLOCK);
        let block = vec![0u8; block_bytes];
        let pcm = ima_qt::decode_block(&block, *ch as usize).unwrap();
        assert_eq!(pcm.len() / *ch as usize, expected);
    }
}

#[test]
fn variant_samples_per_block_rejects_bad_inputs() {
    for &v in &[Variant::Yamaha, Variant::YamahaA, Variant::Dialogic] {
        assert_eq!(v.samples_per_block(1, 0), None, "{:?}: must be None", v);
        assert_eq!(v.samples_per_block(1, 256), None, "{:?}: must be None", v);
    }
    for &v in Variant::all() {
        assert_eq!(v.samples_per_block(0, 256), None, "{:?}: ch=0", v);
    }
    assert_eq!(Variant::Ms.samples_per_block(3, 21), None);
    assert_eq!(Variant::ImaWav.samples_per_block(9, 36), None);
    assert_eq!(Variant::ImaQt.samples_per_block(9, 34 * 9), None);
    assert_eq!(
        Variant::ImaQt.samples_per_block(6, 34 * 6),
        Some(ima_qt::QT_SAMPLES_PER_BLOCK)
    );
    assert_eq!(Variant::Ms.samples_per_block(1, 6), None);
    assert_eq!(Variant::ImaWav.samples_per_block(1, 3), None);
    assert_eq!(Variant::ImaQt.samples_per_block(1, 1), None);
    assert_eq!(Variant::Ms.samples_per_block(2, 15), None);
    assert_eq!(Variant::ImaWav.samples_per_block(1, 5), None);
    assert_eq!(Variant::ImaWav.samples_per_block(2, 12), None);
    assert_eq!(Variant::ImaQt.samples_per_block(1, 33), None);
    assert_eq!(Variant::ImaQt.samples_per_block(1, 35), None);
    assert_eq!(Variant::ImaQt.samples_per_block(2, 34), None);
    assert_eq!(Variant::ImaQt.samples_per_block(2, 67), None);
}

#[test]
fn variant_block_size_bytes_inverts_samples_per_block() {
    for ch in &[1u16, 2u16] {
        let ch_u = *ch as usize;
        for n in [2usize, 4, 6, 10, 32] {
            if (n - 2) * ch_u % 2 != 0 {
                continue;
            }
            let b = Variant::Ms.block_size_bytes(*ch, n).unwrap();
            assert_eq!(
                Variant::Ms.samples_per_block(*ch, b),
                Some(n),
                "MS ch={ch} n={n}: block_size_bytes/samples_per_block not inverse"
            );
            let mut block = vec![0u8; b];
            for c in 0..ch_u {
                let off = ch_u + c * 2;
                block[off] = 16;
            }
            let pcm = ms::decode_block(&block, ch_u).unwrap();
            assert_eq!(pcm.len() / ch_u, n, "MS ch={ch} n={n}: decode mismatch");
        }
    }
    for ch in &[1u16, 2u16] {
        let ch_u = *ch as usize;
        for groups in 0..=3usize {
            let n = 1 + groups * 8;
            let b = Variant::ImaWav.block_size_bytes(*ch, n).unwrap();
            assert_eq!(
                Variant::ImaWav.samples_per_block(*ch, b),
                Some(n),
                "IMA-WAV ch={ch} n={n}: not inverse"
            );
            let block = vec![0u8; b];
            let pcm = ima_wav::decode_block(&block, ch_u).unwrap();
            assert_eq!(
                pcm.len() / ch_u,
                n,
                "IMA-WAV ch={ch} n={n}: decode mismatch"
            );
        }
    }
    for ch in &[1u16, 2u16] {
        let b = Variant::ImaQt
            .block_size_bytes(*ch, ima_qt::QT_SAMPLES_PER_BLOCK)
            .unwrap();
        assert_eq!(b, ima_qt::QT_BLOCK_SIZE * *ch as usize);
        assert_eq!(
            Variant::ImaQt.samples_per_block(*ch, b),
            Some(ima_qt::QT_SAMPLES_PER_BLOCK)
        );
        let block = vec![0u8; b];
        let pcm = ima_qt::decode_block(&block, *ch as usize).unwrap();
        assert_eq!(pcm.len() / *ch as usize, ima_qt::QT_SAMPLES_PER_BLOCK);
    }
}

#[test]
fn variant_block_size_bytes_rejects_bad_inputs() {
    for &v in &[Variant::Yamaha, Variant::YamahaA, Variant::Dialogic] {
        assert_eq!(v.block_size_bytes(1, 64), None, "{:?}: must be None", v);
        assert_eq!(v.block_size_bytes(1, 0), None, "{:?}: must be None", v);
    }
    for &v in Variant::all() {
        assert_eq!(v.block_size_bytes(0, 64), None, "{:?}: ch=0", v);
    }
    assert_eq!(Variant::Ms.block_size_bytes(3, 2), None);
    assert_eq!(Variant::ImaWav.block_size_bytes(9, 1), None);
    assert_eq!(Variant::ImaQt.block_size_bytes(9, 64), None);
    assert_eq!(
        Variant::ImaQt.block_size_bytes(6, ima_qt::QT_SAMPLES_PER_BLOCK),
        Some(34 * 6)
    );
    assert_eq!(Variant::Ms.block_size_bytes(1, 1), None);
    assert_eq!(Variant::ImaWav.block_size_bytes(1, 0), None);
    assert_eq!(Variant::Ms.block_size_bytes(1, 3), None);
    assert_eq!(Variant::ImaWav.block_size_bytes(1, 4), None);
    assert_eq!(Variant::ImaWav.block_size_bytes(2, 10), None);
    assert_eq!(Variant::ImaQt.block_size_bytes(1, 63), None);
    assert_eq!(Variant::ImaQt.block_size_bytes(1, 65), None);
    assert_eq!(Variant::ImaQt.block_size_bytes(2, 32), None);
}

#[test]
fn build_wave_format_extra_ms_round_trips_through_decoder_extradata() {
    for (ch, block_align) in [(1u16, 256usize), (2, 256), (1, 1024), (2, 512)] {
        let ext = Variant::Ms
            .build_wave_format_extra(ch, block_align)
            .unwrap_or_else(|| panic!("MS extra None for ch={ch} ba={block_align}"));
        assert_eq!(ext.len(), 32, "MS trailer length");
        let spb = u16::from_le_bytes([ext[0], ext[1]]) as usize;
        assert_eq!(
            Some(spb),
            Variant::Ms.samples_per_block(ch, block_align),
            "MS wSamplesPerBlock disagrees with samples_per_block"
        );
        let parsed = ms::parse_extradata_coeffs(&ext).unwrap().unwrap();
        assert_eq!(&parsed[..], &ms::STANDARD_COEFFS[..]);
    }
}

#[test]
fn build_wave_format_extra_ima_wav_is_samples_per_block_only() {
    for (ch, block_align) in [(1u16, 256usize), (2, 256), (1, 1024)] {
        let ext = Variant::ImaWav
            .build_wave_format_extra(ch, block_align)
            .unwrap_or_else(|| panic!("IMA-WAV extra None for ch={ch} ba={block_align}"));
        assert_eq!(ext.len(), 2, "IMA-WAV trailer length");
        let spb = u16::from_le_bytes([ext[0], ext[1]]) as usize;
        assert_eq!(
            Some(spb),
            Variant::ImaWav.samples_per_block(ch, block_align)
        );
    }
}

#[test]
fn build_wave_format_extra_none_for_qt_stream_and_bad_geometry() {
    for &v in &[
        Variant::ImaQt,
        Variant::Yamaha,
        Variant::YamahaA,
        Variant::Dialogic,
    ] {
        assert_eq!(
            v.build_wave_format_extra(1, 256),
            None,
            "{v:?} must have no WAV fmt extension"
        );
    }
    assert_eq!(Variant::Ms.build_wave_format_extra(2, 15), None);
    assert_eq!(Variant::Ms.build_wave_format_extra(3, 256), None);
    assert_eq!(Variant::ImaWav.build_wave_format_extra(1, 3), None);
}
