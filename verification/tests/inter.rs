use threers::vp9::inter::{
    avg_bytes, choose_log2_tile_cols, clamp_mv_ref, inter_mode_token, nmv_update_count,
    pack_tile_data, pick_inter_mode, qindex_for_segment, ref_sign_bias, scale_mv_for_ref,
    segment_id_for_mi_col, tile_mi_col_range, QINDEX, QINDEX_USIZE, SEG1_ALT_Q_DELTA,
};
use threers::vp9::mv::Mv;
use threers::vp9::tables::{
    ALTREF_FRAME, GOLDEN_FRAME, INTER_MODE_TREE, INTER_OFFSET_NEARESTMV, INTER_OFFSET_NEARMV,
    INTER_OFFSET_NEWMV, INTER_OFFSET_ZEROMV, LAST_FRAME, NEARESTMV, NEARMV, NEWMV, ZEROMV,
};
use threers::vp9::tree::tree_path;

#[test]
fn tile_col_range_splits_512_evenly() {
    assert_eq!(choose_log2_tile_cols(512), 1);
    assert_eq!(tile_mi_col_range(64, 1, 0), (0, 32));
    assert_eq!(tile_mi_col_range(64, 1, 1), (32, 64));
    assert_eq!(choose_log2_tile_cols(64), 0);
    assert_eq!(choose_log2_tile_cols(80), 0);
}

#[test]
fn pack_tile_data_prefixes_non_last() {
    let packed = pack_tile_data(&[vec![1, 2, 3], vec![4, 5]]);
    assert_eq!(&packed[..4], &3u32.to_be_bytes());
    assert_eq!(&packed[4..], &[1, 2, 3, 4, 5]);
    assert_eq!(pack_tile_data(&[vec![9, 9]]), vec![9, 9]);
}

#[test]
fn segmentation_alt_q_raises_right_half_qindex() {
    assert_eq!(segment_id_for_mi_col(0, 8), 0);
    assert_eq!(segment_id_for_mi_col(3, 8), 0);
    assert_eq!(segment_id_for_mi_col(4, 8), 1);
    assert_eq!(qindex_for_segment(0), QINDEX_USIZE);
    assert_eq!(
        qindex_for_segment(1),
        (QINDEX as i32 + SEG1_ALT_Q_DELTA) as usize
    );
}

#[test]
fn nmv_update_count_no_hp() {
    assert_eq!(nmv_update_count(false), 65);
    assert_eq!(nmv_update_count(true), 69);
}

#[test]
fn inter_mode_tree_paths() {
    assert_eq!(
        tree_path(&INTER_MODE_TREE, 0, INTER_OFFSET_ZEROMV).unwrap(),
        vec![(0, false)]
    );
    assert_eq!(
        tree_path(&INTER_MODE_TREE, 0, INTER_OFFSET_NEARESTMV).unwrap(),
        vec![(0, true), (2, false)]
    );
    assert_eq!(
        tree_path(&INTER_MODE_TREE, 0, INTER_OFFSET_NEARMV).unwrap(),
        vec![(0, true), (2, true), (4, false)]
    );
    assert_eq!(
        tree_path(&INTER_MODE_TREE, 0, INTER_OFFSET_NEWMV).unwrap(),
        vec![(0, true), (2, true), (4, true)]
    );
}

#[test]
fn pick_mode_prefers_predicted() {
    let nearest = Mv { row: 0, col: 16 };
    let near = Mv { row: 8, col: 0 };
    assert_eq!(pick_inter_mode(Mv::default(), nearest, near).1, ZEROMV);
    assert_eq!(pick_inter_mode(nearest, nearest, near).1, NEARESTMV);
    assert_eq!(pick_inter_mode(near, nearest, near).1, NEARMV);
    assert_eq!(
        pick_inter_mode(Mv { row: 0, col: 24 }, nearest, near).1,
        NEWMV
    );
}

#[test]
fn three_tiles_pack_two_prefixes() {
    let packed = pack_tile_data(&[vec![7], vec![], vec![8, 8]]);
    assert_eq!(packed, vec![0, 0, 0, 1, 7, 0, 0, 0, 0, 8, 8]);
}

#[test]
fn sign_bias_flips_mvs_only_across_altref() {
    let mv = Mv { row: 3, col: -5 };
    assert!(ref_sign_bias(ALTREF_FRAME));
    assert!(!ref_sign_bias(GOLDEN_FRAME));
    assert_eq!(scale_mv_for_ref(mv, LAST_FRAME, GOLDEN_FRAME), mv);
    assert_eq!(scale_mv_for_ref(mv, LAST_FRAME, ALTREF_FRAME), Mv { row: -3, col: 5 });
    assert_eq!(scale_mv_for_ref(mv, ALTREF_FRAME, ALTREF_FRAME), mv);
}

#[test]
fn avg_bytes_rounds_up() {
    let mut out = [0u8; 3];
    avg_bytes(&[0, 255, 10], &[1, 255, 13], &mut out);
    assert_eq!(out, [1, 255, 12]);
}

#[test]
fn inter_mode_tokens_are_offsets_from_nearest() {
    assert_eq!(inter_mode_token(NEARESTMV), INTER_OFFSET_NEARESTMV);
    assert_eq!(inter_mode_token(NEARMV), INTER_OFFSET_NEARMV);
    assert_eq!(inter_mode_token(ZEROMV), INTER_OFFSET_ZEROMV);
    assert_eq!(inter_mode_token(NEWMV), INTER_OFFSET_NEWMV);
}

#[test]
fn clamp_mv_ref_limits_to_the_border() {
    // Block at the top-left corner: at most 128 (16 px) up or left.
    let mv = clamp_mv_ref(Mv { row: -1000, col: -1000 }, 0, 0, 8, 8, 1, 1);
    assert_eq!(mv, Mv { row: -128, col: -128 });
    // Rightward room: (8 - 1 - 0) * 64 + 128 = 576.
    let mv = clamp_mv_ref(Mv { row: 1000, col: 1000 }, 0, 0, 8, 8, 1, 1);
    assert_eq!(mv, Mv { row: 576, col: 576 });
    let mv = clamp_mv_ref(Mv { row: 5, col: -7 }, 2, 2, 8, 8, 1, 1);
    assert_eq!(mv, Mv { row: 5, col: -7 });
}
