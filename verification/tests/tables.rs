use oxideav_adpcm::tables::{
    G726_DQLN_16, G726_DQLN_24, G726_DQLN_32, G726_DQLN_40, G726_FI_16, G726_FI_24, G726_FI_32,
    G726_FI_40, G726_WI_16, G726_WI_24, G726_WI_32, G726_WI_40, IMA3_INDEX_ADJUST,
    IMA_INDEX_ADJUST, IMA_STEP_SIZE, MS_ADAPTATION, MS_ADAPT_COEFF1, MS_ADAPT_COEFF2,
    OKI_INDEX_ADJUST, OKI_STEP_SIZE, YAMAHA_A_INDEX_ADJUST, YAMAHA_A_PREDICTOR_MAX,
    YAMAHA_A_PREDICTOR_MIN, YAMAHA_A_STEP_SIZE, YAMAHA_DIFF_LOOKUP, YAMAHA_INDEX_SCALE,
    YAMAHA_INDEX_SCALE_OPNA,
};

#[test]
fn ms_tables_have_expected_shape() {
    assert_eq!(MS_ADAPTATION.len(), 16);
    assert_eq!(MS_ADAPT_COEFF1.len(), 7);
    assert_eq!(MS_ADAPT_COEFF2.len(), 7);
    assert_eq!(MS_ADAPTATION[0], MS_ADAPTATION[15]);
    assert_eq!(MS_ADAPTATION[7], 614);
    assert_eq!(MS_ADAPTATION[8], 768);
}

#[test]
fn ima_tables_have_expected_shape() {
    assert_eq!(IMA_STEP_SIZE.len(), 89);
    assert_eq!(IMA_INDEX_ADJUST.len(), 16);
    assert_eq!(IMA_STEP_SIZE[0], 7);
    assert_eq!(IMA_STEP_SIZE[88], 32767);
    assert_eq!(IMA_INDEX_ADJUST[0], -1);
    assert_eq!(IMA_INDEX_ADJUST[7], 8);
}

#[test]
fn ima3_index_adjust_has_expected_shape() {
    assert_eq!(IMA3_INDEX_ADJUST.len(), 8);
    for m in 0..4 {
        assert_eq!(IMA3_INDEX_ADJUST[m], IMA3_INDEX_ADJUST[m + 4]);
    }
    assert_eq!(IMA3_INDEX_ADJUST[0], -1);
    assert_eq!(IMA3_INDEX_ADJUST[1], -1);
    assert_eq!(IMA3_INDEX_ADJUST[2], 1);
    assert_eq!(IMA3_INDEX_ADJUST[3], 2);
}

#[test]
fn yamaha_tables_have_expected_shape() {
    assert_eq!(YAMAHA_DIFF_LOOKUP.len(), 8);
    assert_eq!(YAMAHA_INDEX_SCALE.len(), 8);
    assert_eq!(YAMAHA_DIFF_LOOKUP[0], 1);
    assert_eq!(YAMAHA_DIFF_LOOKUP[7], 15);
}

#[test]
fn yamaha_opna_index_scale_matches_table_5_1() {
    assert_eq!(YAMAHA_INDEX_SCALE_OPNA.len(), 8);
    assert_eq!(YAMAHA_INDEX_SCALE_OPNA, [57, 57, 57, 57, 77, 102, 128, 153]);
    for m in 0..4 {
        assert_eq!(YAMAHA_INDEX_SCALE_OPNA[m], 57);
    }
    assert_eq!(YAMAHA_INDEX_SCALE_OPNA[6], 128);
    assert_ne!(
        YAMAHA_INDEX_SCALE_OPNA[0] * 4,
        YAMAHA_INDEX_SCALE[0],
        "57*4=228 != 230: OPNA and AICA small-mag rounding must differ"
    );
    assert_eq!(
        YAMAHA_INDEX_SCALE_OPNA[6] * 4,
        YAMAHA_INDEX_SCALE[6],
        "128/64 and 512/256 both equal 2.0"
    );
}

#[test]
fn oki_tables_have_expected_shape() {
    assert_eq!(OKI_STEP_SIZE.len(), 49);
    assert_eq!(OKI_INDEX_ADJUST.len(), 8);
    assert_eq!(OKI_STEP_SIZE[0], 16);
    assert_eq!(OKI_STEP_SIZE[47], 1411);
    assert_eq!(OKI_STEP_SIZE[48], 1552);
    assert_eq!(OKI_INDEX_ADJUST[0], -1);
    assert_eq!(OKI_INDEX_ADJUST[3], -1);
    assert_eq!(OKI_INDEX_ADJUST[4], 2);
    assert_eq!(OKI_INDEX_ADJUST[7], 8);
}

#[test]
fn yamaha_a_tables_have_expected_shape() {
    assert_eq!(YAMAHA_A_STEP_SIZE.len(), 49);
    assert_eq!(YAMAHA_A_INDEX_ADJUST.len(), 16);
    assert_eq!(YAMAHA_A_STEP_SIZE[0], 16);
    assert_eq!(YAMAHA_A_STEP_SIZE[48], 1552);
    for m in 0..8 {
        assert_eq!(YAMAHA_A_INDEX_ADJUST[m], YAMAHA_A_INDEX_ADJUST[m + 8]);
    }
    assert_eq!(YAMAHA_A_INDEX_ADJUST[0], -1);
    assert_eq!(YAMAHA_A_INDEX_ADJUST[3], -1);
    assert_eq!(YAMAHA_A_INDEX_ADJUST[4], 2);
    assert_eq!(YAMAHA_A_INDEX_ADJUST[5], 5);
    assert_eq!(YAMAHA_A_INDEX_ADJUST[6], 7);
    assert_eq!(YAMAHA_A_INDEX_ADJUST[7], 9);
    assert_eq!(YAMAHA_A_PREDICTOR_MIN, -2048);
    assert_eq!(YAMAHA_A_PREDICTOR_MAX, 2047);
}

#[test]
fn yamaha_a_step_table_matches_oki_step_table_numerically() {
    for i in 0..49 {
        assert_eq!(
            YAMAHA_A_STEP_SIZE[i], OKI_STEP_SIZE[i],
            "Yamaha ADPCM-A vs OKI step table mismatch at index {i}"
        );
    }
}

#[test]
fn yamaha_a_adjust_differs_from_oki_adjust_at_large_magnitudes() {
    assert_eq!(OKI_INDEX_ADJUST[4], 2);
    assert_eq!(YAMAHA_A_INDEX_ADJUST[4], 2);
    assert_eq!(OKI_INDEX_ADJUST[5], 4);
    assert_eq!(YAMAHA_A_INDEX_ADJUST[5], 5);
    assert_eq!(OKI_INDEX_ADJUST[6], 6);
    assert_eq!(YAMAHA_A_INDEX_ADJUST[6], 7);
    assert_eq!(OKI_INDEX_ADJUST[7], 8);
    assert_eq!(YAMAHA_A_INDEX_ADJUST[7], 9);
}

#[test]
fn g726_reconst_tables_are_odd_symmetric_in_code_magnitude() {
    for i in 0..32 {
        assert_eq!(G726_DQLN_40[i], G726_DQLN_40[31 - i], "40k I={i}");
    }
    for i in 0..16 {
        assert_eq!(G726_DQLN_32[i], G726_DQLN_32[15 - i], "32k I={i}");
    }
    for i in 0..8 {
        assert_eq!(G726_DQLN_24[i], G726_DQLN_24[7 - i], "24k I={i}");
    }
    for i in 0..4 {
        assert_eq!(G726_DQLN_16[i], G726_DQLN_16[3 - i], "16k I={i}");
    }
}

#[test]
fn g726_tables_have_expected_shape() {
    assert_eq!(G726_DQLN_40.len(), 32);
    assert_eq!(G726_DQLN_32.len(), 16);
    assert_eq!(G726_DQLN_24.len(), 8);
    assert_eq!(G726_DQLN_16.len(), 4);
    assert_eq!(G726_WI_40.len(), 16);
    assert_eq!(G726_WI_32.len(), 8);
    assert_eq!(G726_WI_24.len(), 4);
    assert_eq!(G726_WI_16.len(), 2);
    assert_eq!(G726_FI_40.len(), 16);
    assert_eq!(G726_FI_32.len(), 8);
    assert_eq!(G726_FI_24.len(), 4);
    assert_eq!(G726_FI_16.len(), 2);
    assert_eq!(G726_DQLN_32[0], 2048);
    assert_eq!(G726_DQLN_32[1], 4);
    assert_eq!(G726_DQLN_32[2], 135);
    assert_eq!(G726_DQLN_40[1], 4030);
    assert_eq!(G726_WI_32[0], 4084);
    assert_eq!(G726_WI_40[15], 696);
    assert_eq!(G726_FI_16[1], 7);
    for &v in G726_DQLN_40
        .iter()
        .chain(&G726_DQLN_32)
        .chain(&G726_DQLN_24)
        .chain(&G726_DQLN_16)
    {
        assert!(v < 4096, "DQLN {v} exceeds the 12-bit word");
    }
    for &v in G726_FI_40
        .iter()
        .chain(&G726_FI_32)
        .chain(&G726_FI_24)
        .chain(&G726_FI_16)
    {
        assert!(v <= 7, "F(I) {v} exceeds 3 bits");
    }
}

#[test]
fn oki_step_size_is_ima_step_size_8_to_57() {
    for i in 0..49 {
        assert_eq!(
            OKI_STEP_SIZE[i] as i32,
            IMA_STEP_SIZE[i + 8] as i32,
            "OKI[{i}] vs IMA[{}]",
            i + 8
        );
    }
}
