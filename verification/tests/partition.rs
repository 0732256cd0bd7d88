use threers::vp9::bool_coder::BoolEncoder;
use threers::vp9::mc::InterpFilter;
use threers::vp9::mi_context::{MiGrid, ResidualMi};
use threers::vp9::mv::Mv;
use threers::vp9::partition::PartitionContext;
use threers::vp9::tables::{
    DEFAULT_PARTITION_PROBS, DEFAULT_TX_PROBS_16, DEFAULT_TX_PROBS_32, INTRA_FRAME, LAST_FRAME,
    PARTITION_NONE, PARTITION_SPLIT, ZEROMV,
};

#[test]
fn partition_context_reads_the_size_bits() {
    let mut p = PartitionContext::new(4);
    assert_eq!(p.partition_context(0, 0, 64), 12);
    assert_eq!(p.partition_context(3, 2, 8), 0);
    p.update_partition_context(0, 0, 32, 32, 64, 64);
    assert_eq!(p.above, vec![8, 8, 8, 8]);
    assert_eq!(p.left, [8; 8]);
    assert_eq!(p.partition_context(0, 0, 64), 15);
    assert_eq!(p.partition_context(0, 0, 32), 8);
}

#[test]
fn update_wraps_left_rows_within_the_superblock() {
    let mut p = PartitionContext::new(2);
    p.update_partition_context(6, 1, 8, 8, 16, 32);
    assert_eq!(p.above, vec![0, 14]);
    assert_eq!(p.left, [14, 14, 0, 0, 0, 0, 14, 14]);
}

#[test]
fn write_partition_matches_the_bools_it_stands_for() {
    let p = PartitionContext::new(8);
    let probs = DEFAULT_PARTITION_PROBS[12];
    let mut a = BoolEncoder::new();
    p.write_partition(&mut a, 0, 0, 64, true, true, PARTITION_NONE);
    let mut b = BoolEncoder::new();
    b.put_bool(probs[0], false);
    assert_eq!(a.finish(), b.finish());

    let mut a = BoolEncoder::new();
    p.write_partition(&mut a, 0, 0, 64, false, true, PARTITION_SPLIT);
    let mut b = BoolEncoder::new();
    b.put_bool(probs[1], true);
    assert_eq!(a.finish(), b.finish());

    let mut a = BoolEncoder::new();
    p.write_partition(&mut a, 0, 0, 64, false, false, PARTITION_SPLIT);
    assert_eq!(a.finish(), BoolEncoder::new().finish());
}

fn unit(skip: bool, tx_size: u8) -> ResidualMi {
    ResidualMi {
        skip,
        is_inter: true,
        ref_frame: LAST_FRAME,
        second_ref: INTRA_FRAME,
        mode: ZEROMV,
        mv: Mv::default(),
        mv1: Mv::default(),
        bw_px: 8,
        bh_px: 8,
        block_origin: true,
        tx_size,
        interp_filter: InterpFilter::EightTap,
    }
}

#[test]
fn selected_tx_size_codes_one_bool_per_step() {
    let g = MiGrid { mi: vec![unit(false, 0); 4], mi_cols: 2, mi_rows: 2, tile_col_start: 0, tile_col_end: 2 };
    // Both neighbours coded 4×4: context 0 for a 32×32 maximum.
    let mut a = BoolEncoder::new();
    g.write_selected_tx_size(&mut a, 1, 1, 32, 32, 2);
    let p = DEFAULT_TX_PROBS_32[0];
    let mut b = BoolEncoder::new();
    b.put_bool(p[0], true);
    b.put_bool(p[1], true);
    b.put_bool(p[2], false);
    assert_eq!(a.finish(), b.finish());

    let mut a = BoolEncoder::new();
    g.write_selected_tx_size(&mut a, 1, 1, 16, 16, 0);
    let mut b = BoolEncoder::new();
    b.put_bool(DEFAULT_TX_PROBS_16[0][0], false);
    assert_eq!(a.finish(), b.finish());
}
