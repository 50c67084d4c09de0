use oxideav_adpcm::g726::{
    antilog, compress, decode_packet, encode_packet, expand, floatb, fmult, law_neighbor, lima,
    limb, log, pack_codes, quan, reconst, tone, unpack_codes, BitOrder, BitPacker, BitUnpacker,
    Law, Rate, State,
};

#[test]
fn rate_accessors_round_trip() {
    for &r in Rate::all() {
        assert_eq!(Rate::from_bits(r.bits()), Some(r));
        assert_eq!(r.bitrate(), 8000 * r.bits() as u32);
    }
    for bad in [0u8, 1, 6, 8, 255] {
        assert_eq!(Rate::from_bits(bad), None);
    }
}

#[test]
fn reconst_levels_quantize_back_to_their_own_code() {
    for &rate in Rate::all() {
        let n = 1u32 << rate.bits();
        for i in 0..n {
            let (dqln, dqs) = reconst(rate, i);
            if dqln == 2048 {
                continue;
            }
            let requant = quan(rate, dqs, dqln);
            assert_eq!(
                requant, i,
                "{rate:?}: level DQLN={dqln} of code {i} re-quantized to {requant}"
            );
        }
    }
}

#[test]
fn quan_covers_full_dln_domain_without_panicking() {
    for &rate in Rate::all() {
        for ds in 0..2u32 {
            for dln in 0..4096u32 {
                let i = quan(rate, ds, dln);
                assert!(i <= rate.code_mask(), "{rate:?}: code {i} out of range");
            }
        }
    }
}

#[test]
fn log_antilog_are_approximate_inverses() {
    for d in [1u32, 2, 3, 7, 15, 100, 999, 4095, 8191, 16383, 32767] {
        let (dl, ds) = log(d);
        assert_eq!(ds, 0);
        let dq = antilog(dl, 0);
        let mag = dq & 32767;
        let err = (mag as i64 - d as i64).abs();
        let tol = (d as i64 >> 6).max(1);
        assert!(
            err <= tol,
            "d={d}: antilog(log(d))={mag}, err {err} > {tol}"
        );
    }
}

#[test]
fn antilog_of_log_zero_is_zero() {
    assert_eq!(antilog(2048, 0), 0);
    assert_eq!(antilog(4095, 0), 0);
    assert_eq!(antilog(2048, 1), 1 << 15);
}

#[test]
fn limb_clamps_fast_scale_factor_to_spec_range() {
    assert_eq!(limb(0), 544);
    assert_eq!(limb(543), 544);
    assert_eq!(limb(544), 544);
    assert_eq!(limb(545), 545);
    assert_eq!(limb(5119), 5119);
    assert_eq!(limb(5120), 5120);
    assert_eq!(limb(5121), 5120);
    assert_eq!(limb(8191), 5120);
}

#[test]
fn lima_limits_speed_control() {
    assert_eq!(lima(0), 0);
    assert_eq!(lima(255), 63);
    assert_eq!(lima(256), 64);
    assert_eq!(lima(1023), 64);
}

#[test]
fn tone_detects_only_strong_negative_a2() {
    assert_eq!(tone(0), 0);
    assert_eq!(tone(12288), 0);
    assert_eq!(tone(32767), 0);
    assert_eq!(tone(32768), 1);
    assert_eq!(tone(53759), 1);
    assert_eq!(tone(53760), 0);
    assert_eq!(tone(65535), 0);
}

#[test]
fn fmult_zero_coefficient_product_is_mantissa_floor_bounded() {
    for srn in [0u32, 32, 100, 500, 1023] {
        let w = fmult(0, srn);
        assert!(
            w & 32767 <= 8,
            "fmult(0, {srn}) magnitude {} above the mantissa-floor bound",
            w & 32767
        );
    }
    assert_eq!(fmult(0, 1023) & 32767, 8, "max-exponent floor product");
    assert_eq!(fmult(0, 32) & 32767, 0, "zero-value float word");
}

#[test]
fn fmult_unit_coefficient_doubles_float_magnitude() {
    for v in [1u32, 5, 63, 64, 100, 1000, 4095, 8191] {
        let f = floatb(v);
        let w = fmult(16384, f);
        assert_eq!(w >> 15, 0, "sign flipped for v={v}");
        let err = (w as i64 - 2 * v as i64).abs();
        let tol = ((2 * v as i64) >> 4).max(8);
        assert!(err <= tol, "v={v}: fmult(1.0, float(v))={w}, err {err}");
    }
    assert_eq!(fmult(16384, floatb(16383)), 256, "WAnEXP > 26 wrap");
}

#[test]
fn compress_matches_table15_examples() {
    assert_eq!(compress(3, Law::ULaw), 0b1111_1101);
    assert_eq!(compress(2, Law::ULaw), 0b1111_1110);
    assert_eq!(compress(1, Law::ULaw), 0b1111_1110);
    assert_eq!(compress(0, Law::ULaw), 0b1111_1111);
    assert_eq!(compress(65536 - 1, Law::ULaw), 0b0111_1110);
    assert_eq!(compress(65536 - 2, Law::ULaw), 0b0111_1110);
    assert_eq!(compress(65536 - 3, Law::ULaw), 0b0111_1101);
    assert_eq!(compress(2 * 3, Law::ALaw), 0b1101_0100);
    assert_eq!(compress(2 * 2, Law::ALaw), 0b1101_0100);
    assert_eq!(compress(2 * 1, Law::ALaw), 0b1101_0101);
    assert_eq!(compress(0, Law::ALaw), 0b1101_0101);
    assert_eq!(compress(65536 - (2 * 1 - 1), Law::ALaw), 0b0101_0101);
    assert_eq!(compress(65536 - (2 * 2 - 1), Law::ALaw), 0b0101_0101);
    assert_eq!(compress(65536 - (2 * 3 - 1), Law::ALaw), 0b0101_0100);
}

#[test]
fn sync_neighbors_match_table20_examples() {
    let up = |sp: u8, law: Law| law_neighbor(sp, law, true);
    let dn = |sp: u8, law: Law| law_neighbor(sp, law, false);
    assert_eq!(dn(0b1101_0101, Law::ALaw), 0b0101_0101);
    assert_eq!(up(0b1101_0101, Law::ALaw), 0b1101_0100);
    assert_eq!(dn(0b0101_0101, Law::ALaw), 0b0101_0100);
    assert_eq!(up(0b0101_0101, Law::ALaw), 0b1101_0101);
    assert_eq!(dn(0b0101_0100, Law::ALaw), 0b0101_0111);
    assert_eq!(up(0b0101_0100, Law::ALaw), 0b0101_0101);
    assert_eq!(dn(0b1111_1110, Law::ULaw), 0b1111_1111);
    assert_eq!(up(0b1111_1110, Law::ULaw), 0b1111_1101);
    assert_eq!(dn(0b1111_1111, Law::ULaw), 0b0111_1110);
    assert_eq!(up(0b1111_1111, Law::ULaw), 0b1111_1110);
    assert_eq!(dn(0b0111_1110, Law::ULaw), 0b0111_1101);
    assert_eq!(up(0b0111_1110, Law::ULaw), 0b0111_1111);
    assert_eq!(up(0xFF ^ 0x55, Law::ALaw), 0xFF ^ 0x55);
    assert_eq!(dn(0x7F ^ 0x55, Law::ALaw), 0x7F ^ 0x55);
    assert_eq!(up(0x80, Law::ULaw), 0x80);
    assert_eq!(dn(0x00, Law::ULaw), 0x00);
}

#[test]
fn expand_compress_round_trip_every_code_word() {
    for law in [Law::ALaw, Law::ULaw] {
        for s in 0..=255u8 {
            let sl = expand(s, law);
            let sr = if sl >> 13 == 0 { sl } else { 49152 + sl };
            let back = compress(sr, law);
            if law == Law::ULaw && s == 0x7F {
                assert_eq!(back, 0xFF, "µ-law -0 canonicalizes to +0");
            } else {
                assert_eq!(back, s, "{law:?} code {s:#04x} round trip");
            }
        }
    }
}

#[test]
fn state_reset_matches_table6_reset_column() {
    for &rate in Rate::all() {
        let s = State::new(rate);
        assert_eq!(s.yl, 34816);
        assert_eq!(s.yu, 544);
        assert_eq!(s.dms, 0);
        assert_eq!(s.dml, 0);
        assert_eq!(s.ap, 0);
        assert_eq!(s.a1, 0);
        assert_eq!(s.a2, 0);
        assert_eq!(s.b, [0; 6]);
        assert_eq!(s.dq, [32; 6]);
        assert_eq!(s.sr, [32; 2]);
        assert_eq!(s.pk1, 0);
        assert_eq!(s.pk2, 0);
        assert_eq!(s.td, 0);
        assert_eq!(s.scale_factor(), 544);
    }
}

#[test]
fn silence_encodes_to_near_zero_reconstruction() {
    for &rate in Rate::all() {
        let mut enc = State::new(rate);
        let mut dec = State::new(rate);
        for k in 0..256 {
            let code = enc.encode_step(0);
            let out = dec.decode_step(code);
            assert!(
                out.abs() <= 12,
                "{rate:?} sample {k}: silence reconstructed as {out}"
            );
        }
    }
}

#[test]
fn decoder_tracks_encoder_reconstruction_exactly() {
    for &rate in Rate::all() {
        let mut enc = State::new(rate);
        let mut dec = State::new(rate);
        let mut phase = 0f64;
        for k in 0..2000 {
            let a = 6000.0 * (1.0 + (k as f64 / 300.0).sin()) / 2.0;
            phase += 0.35 + 0.1 * (k as f64 / 100.0).cos();
            let s = (a * phase.sin()) as i16;
            let code = enc.encode_i16(s);
            let _ = dec.decode_i16(code);
            assert_eq!(enc.yl, dec.yl, "{rate:?} k={k}: yl diverged");
            assert_eq!(enc.yu, dec.yu, "{rate:?} k={k}: yu diverged");
            assert_eq!(enc.a1, dec.a1, "{rate:?} k={k}: a1 diverged");
            assert_eq!(enc.a2, dec.a2, "{rate:?} k={k}: a2 diverged");
            assert_eq!(enc.b, dec.b, "{rate:?} k={k}: b diverged");
            assert_eq!(enc.dq, dec.dq, "{rate:?} k={k}: dq diverged");
            assert_eq!(enc.sr, dec.sr, "{rate:?} k={k}: sr diverged");
            assert_eq!(enc.ap, dec.ap, "{rate:?} k={k}: ap diverged");
        }
    }
}

#[test]
fn state_invariants_hold_under_random_codes() {
    let mut seed = 0x1234_5678u32;
    let mut rng = move || {
        seed ^= seed << 13;
        seed ^= seed >> 17;
        seed ^= seed << 5;
        seed
    };
    for &rate in Rate::all() {
        let mut st = State::new(rate);
        for k in 0..20_000 {
            let code = (rng() & rate.code_mask()) as u8;
            let _ = st.decode_step(code);
            assert!(st.yl < 524288, "{rate:?} k={k}: yl={} overflow", st.yl);
            assert!(
                (544..=5120).contains(&st.yu),
                "{rate:?} k={k}: yu={} outside LIMB range",
                st.yu
            );
            assert!(st.dms < 4096, "{rate:?} k={k}: dms overflow");
            assert!(st.dml < 16384, "{rate:?} k={k}: dml overflow");
            assert!(st.ap < 1024, "{rate:?} k={k}: ap overflow");
            for (n, &dq) in st.dq.iter().enumerate() {
                assert!(dq < 2048, "{rate:?} k={k}: dq[{n}] overflow");
            }
            for &sr in &st.sr {
                assert!(sr < 2048, "{rate:?} k={k}: sr float overflow");
            }
        }
    }
}

fn snr_db(reference: &[i16], decoded: &[i16]) -> f64 {
    let mut sig = 0f64;
    let mut err = 0f64;
    for (r, d) in reference.iter().zip(decoded) {
        sig += (*r as f64) * (*r as f64);
        let e = *r as f64 - *d as f64;
        err += e * e;
    }
    10.0 * (sig / err.max(1e-9)).log10()
}

#[test]
fn sine_round_trip_snr_ordered_by_rate() {
    let pcm: Vec<i16> = (0..4000)
        .map(|k| {
            (8000.0 * (2.0 * std::f64::consts::PI * 800.0 * k as f64 / 8000.0).sin()) as i16
        })
        .collect();
    let mut snrs = Vec::new();
    for &rate in Rate::all() {
        let mut enc = State::new(rate);
        let mut dec = State::new(rate);
        let decoded: Vec<i16> = pcm
            .iter()
            .map(|&s| {
                let c = enc.encode_i16(s);
                dec.decode_i16(c)
            })
            .collect();
        let snr = snr_db(&pcm[500..], &decoded[500..]);
        snrs.push((rate, snr));
    }
    for w in snrs.windows(2) {
        assert!(
            w[1].1 > w[0].1,
            "SNR not monotonic in rate: {:?} {:.1} dB vs {:?} {:.1} dB",
            w[0].0,
            w[0].1,
            w[1].0,
            w[1].1
        );
    }
    let floor = [
        (Rate::R16, 5.0),
        (Rate::R24, 12.0),
        (Rate::R32, 18.0),
        (Rate::R40, 24.0),
    ];
    for ((rate, snr), (frate, fl)) in snrs.iter().zip(floor) {
        assert_eq!(*rate, frate);
        assert!(snr > &fl, "{rate:?}: SNR {snr:.1} dB below {fl} dB floor");
    }
}

#[test]
fn set_rate_lockstep_encoder_decoder_stay_exact_across_switches() {
    let schedule = [
        (Rate::R32, 400usize),
        (Rate::R16, 400),
        (Rate::R32, 400),
        (Rate::R24, 400),
        (Rate::R40, 400),
        (Rate::R16, 400),
    ];
    let mut enc = State::new(Rate::R32);
    let mut dec = State::new(Rate::R32);
    let mut k = 0usize;
    for &(rate, n) in &schedule {
        enc.set_rate(rate);
        dec.set_rate(rate);
        for _ in 0..n {
            let t = k as f64 / 8000.0;
            let s = (7000.0
                * (0.4 + 0.6 * (std::f64::consts::PI * t * 3.0).sin().abs())
                * (2.0 * std::f64::consts::PI * 520.0 * t).sin())
                as i16;
            let code = enc.encode_i16(s);
            let _ = dec.decode_i16(code);
            assert_eq!(enc.yl, dec.yl, "{rate:?} k={k}: yl diverged");
            assert_eq!(enc.yu, dec.yu, "{rate:?} k={k}: yu diverged");
            assert_eq!(enc.a1, dec.a1, "{rate:?} k={k}: a1 diverged");
            assert_eq!(enc.a2, dec.a2, "{rate:?} k={k}: a2 diverged");
            assert_eq!(enc.b, dec.b, "{rate:?} k={k}: b diverged");
            assert_eq!(enc.dq, dec.dq, "{rate:?} k={k}: dq diverged");
            assert_eq!(enc.sr, dec.sr, "{rate:?} k={k}: sr diverged");
            k += 1;
        }
    }
}

#[test]
fn set_rate_alternation_beats_the_lower_pure_rate() {
    let pcm: Vec<i16> = (0..4000)
        .map(|k| {
            (8000.0 * (2.0 * std::f64::consts::PI * 700.0 * k as f64 / 8000.0).sin()) as i16
        })
        .collect();
    let run = |rates: &dyn Fn(usize) -> Rate| -> f64 {
        let mut enc = State::new(rates(0));
        let mut dec = State::new(rates(0));
        let decoded: Vec<i16> = pcm
            .iter()
            .enumerate()
            .map(|(k, &s)| {
                enc.set_rate(rates(k));
                dec.set_rate(rates(k));
                let c = enc.encode_i16(s);
                dec.decode_i16(c)
            })
            .collect();
        snr_db(&pcm[500..], &decoded[500..])
    };
    let pure24 = run(&|_| Rate::R24);
    let pure32 = run(&|_| Rate::R32);
    let alt = run(&|k| if k % 2 == 0 { Rate::R32 } else { Rate::R24 });
    assert!(
        alt > pure24,
        "32/24 alternation ({alt:.1} dB) below pure 24k ({pure24:.1} dB)"
    );
    assert!(
        alt < pure32 + 1.0,
        "32/24 alternation ({alt:.1} dB) implausibly above pure 32k ({pure32:.1} dB)"
    );
}

#[test]
fn reset_restores_table6_state_and_keeps_rate() {
    let mut st = State::new(Rate::R40);
    for k in 0..500 {
        let _ = st.encode_i16(((k * 37) % 12000) as i16 - 6000);
    }
    assert_ne!(st.yu, 544, "state should have adapted before reset");
    st.reset();
    let fresh = State::new(Rate::R40);
    assert_eq!(st.rate(), Rate::R40);
    assert_eq!(st.yl, fresh.yl);
    assert_eq!(st.yu, fresh.yu);
    assert_eq!(st.dms, fresh.dms);
    assert_eq!(st.dml, fresh.dml);
    assert_eq!(st.ap, fresh.ap);
    assert_eq!(st.a1, fresh.a1);
    assert_eq!(st.a2, fresh.a2);
    assert_eq!(st.b, fresh.b);
    assert_eq!(st.dq, fresh.dq);
    assert_eq!(st.sr, fresh.sr);
    let mut reference = State::new(Rate::R40);
    for s in [100i16, -350, 4000, -8000, 12345] {
        assert_eq!(st.encode_i16(s), reference.encode_i16(s));
    }
}

#[test]
fn pack_unpack_round_trip_both_orders_all_rates() {
    let mut seed = 0xDEAD_BEEFu32;
    let mut rng = move || {
        seed ^= seed << 13;
        seed ^= seed >> 17;
        seed ^= seed << 5;
        seed
    };
    for &rate in Rate::all() {
        for &order in &[BitOrder::MsbFirst, BitOrder::LsbFirst] {
            for n in [0usize, 1, 7, 8, 39, 40, 41, 800] {
                let codes: Vec<u8> = (0..n).map(|_| (rng() & rate.code_mask()) as u8).collect();
                let bytes = pack_codes(&codes, rate, order);
                assert_eq!(
                    bytes.len(),
                    (n * rate.bits() as usize).div_ceil(8),
                    "{rate:?} {order:?} n={n}: packed length"
                );
                let back = unpack_codes(&bytes, rate, order);
                assert!(back.len() >= codes.len());
                assert_eq!(&back[..codes.len()], &codes[..], "{rate:?} {order:?} n={n}");
                for &extra in &back[codes.len()..] {
                    assert_eq!(extra, 0, "{rate:?} {order:?} n={n}: pad code non-zero");
                }
            }
        }
    }
}

#[test]
fn incremental_unpacker_matches_whole_buffer_across_splits() {
    let mut seed = 0x0BAD_F00Du32;
    let mut rng = move || {
        seed ^= seed << 13;
        seed ^= seed >> 17;
        seed ^= seed << 5;
        seed
    };
    for &rate in Rate::all() {
        for &order in &[BitOrder::MsbFirst, BitOrder::LsbFirst] {
            let bytes: Vec<u8> = (0..97).map(|_| (rng() & 0xFF) as u8).collect();
            let whole = unpack_codes(&bytes, rate, order);
            for split in [1usize, 2, 3, 5, 7, 48, 96] {
                let mut un = BitUnpacker::new(order);
                let mut got = Vec::new();
                for chunk in bytes.chunks(split) {
                    un.feed(chunk, rate.bits(), &mut got);
                }
                assert_eq!(got, whole, "{rate:?} {order:?} split={split}");
            }
        }
    }
}

#[test]
fn streaming_packet_helpers_are_inverse_across_packet_splits() {
    let pcm: Vec<i16> = (0..1603)
        .map(|k| {
            (7000.0 * (2.0 * std::f64::consts::PI * 433.0 * k as f64 / 8000.0).sin()) as i16
        })
        .collect();
    for &rate in Rate::all() {
        for &order in &[BitOrder::MsbFirst, BitOrder::LsbFirst] {
            let mut enc = State::new(rate);
            let mut packer = BitPacker::new(order);
            let mut bytes = encode_packet(&pcm, &mut enc, &mut packer);
            packer.flush(&mut bytes);
            let mut dec = State::new(rate);
            let mut un = BitUnpacker::new(order);
            let mut reference = Vec::new();
            decode_packet(&bytes, &mut dec, &mut un, &mut reference);
            assert!(reference.len() >= pcm.len());
            let mut enc2 = State::new(rate);
            let mut packer2 = BitPacker::new(order);
            let mut bytes2 = Vec::new();
            for chunk in pcm.chunks(97) {
                bytes2.extend_from_slice(&encode_packet(chunk, &mut enc2, &mut packer2));
            }
            packer2.flush(&mut bytes2);
            assert_eq!(bytes2, bytes, "{rate:?} {order:?}: split encode differs");
            let mut dec2 = State::new(rate);
            let mut un2 = BitUnpacker::new(order);
            let mut got = Vec::new();
            for chunk in bytes.chunks(13) {
                decode_packet(chunk, &mut dec2, &mut un2, &mut got);
            }
            assert_eq!(got, reference, "{rate:?} {order:?}: split decode differs");
        }
    }
}
