use threers::vp9::finalize_frame;
use threers::vp9::keyframe::encode_intra_gray;
use threers::vp9::tables::{DC_PRED, INTRA_MODE_TREE, PARTITION_NONE, PARTITION_TREE, TM_PRED, V_PRED};
use threers::vp9::tree::tree_path;

#[test]
fn tree_paths_are_correct() {
    assert_eq!(
        tree_path(&INTRA_MODE_TREE, 0, DC_PRED).unwrap(),
        vec![(0, false)]
    );
    assert_eq!(
        tree_path(&INTRA_MODE_TREE, 0, TM_PRED).unwrap(),
        vec![(0, true), (2, false)]
    );
    assert_eq!(
        tree_path(&INTRA_MODE_TREE, 0, V_PRED).unwrap(),
        vec![(0, true), (2, true), (4, false)]
    );
    assert_eq!(
        tree_path(&PARTITION_TREE, 0, PARTITION_NONE).unwrap(),
        vec![(0, false)]
    );
}

#[test]
fn frame_has_plausible_shape() {
    let frame = encode_intra_gray(64, 64);
    assert_eq!(frame[0] >> 6, 0b10);
    assert!(frame.len() > 12, "frame unexpectedly tiny: {}", frame.len());
}

#[test]
fn tree_path_of_absent_token_is_none() {
    assert!(tree_path(&PARTITION_TREE, 0, 7).is_none());
    assert!(tree_path(&INTRA_MODE_TREE, 0, -1).is_none());
}

#[test]
fn finalize_frame_pads_superframe_marker_only() {
    assert_eq!(finalize_frame(vec![1, 0xc5]), vec![1, 0xc5, 0]);
    assert_eq!(finalize_frame(vec![1, 0xa5]), vec![1, 0xa5]);
    assert_eq!(finalize_frame(vec![]), Vec::<u8>::new());
}
