use threers::vp9::encoder::{apply_loop_filter, Reconstruction};
use threers::vp9::loopfilter::LfMi;
use threers::vp9::mc::InterpFilter;
use threers::vp9::mi_context::{lf_mi_from_residual, ResidualMi};
use threers::vp9::mv::Mv;
use threers::vp9::tables::{INTRA_FRAME, LAST_FRAME, DC_PRED, ZEROMV};

fn units(n: usize, level: u8) -> Vec<LfMi> {
    (0..n)
        .map(|_| LfMi {
            skip: false,
            is_inter: false,
            tx_size_y: 0,
            bw_mi: 1,
            bh_mi: 1,
            bsize_idx: 3,
            block_origin: true,
            level,
        })
        .collect()
}

#[test]
fn flat_reconstruction_survives_deblocking() {
    let mut r = Reconstruction { width: 16, height: 16, y: vec![77; 256], u: vec![128; 64], v: vec![30; 64] };
    apply_loop_filter(&mut r, &units(4, 10), 2, 2);
    assert_eq!(r.y, vec![77; 256]);
    assert_eq!(r.u, vec![128; 64]);
    assert_eq!(r.v, vec![30; 64]);
    assert_eq!((r.width, r.height), (16, 16));
}

#[test]
fn deblocking_smooths_a_block_edge() {
    let y: Vec<u8> = (0..256).map(|k| if k % 16 < 8 { 100 } else { 104 }).collect();
    let mut r = Reconstruction { width: 16, height: 16, y: y.clone(), u: vec![128; 64], v: vec![128; 64] };
    apply_loop_filter(&mut r, &units(4, 10), 2, 2);
    assert_ne!(r.y, y);
    // Only the samples next to the vertical edge at column 8 move.
    assert_eq!(r.y[0], 100);
    assert_eq!(r.y[15], 104);
    assert!(r.y[7] > 100 && r.y[8] < 104);
}

#[test]
fn empty_grid_leaves_the_frame_alone() {
    let y: Vec<u8> = (0..64).map(|k| (k * 37 % 256) as u8).collect();
    let mut r = Reconstruction { width: 8, height: 8, y: y.clone(), u: vec![1; 16], v: vec![2; 16] };
    apply_loop_filter(&mut r, &[], 0, 0);
    assert_eq!(r.y, y);
}

#[test]
fn lf_records_carry_size_and_level() {
    let mi = ResidualMi {
        skip: true,
        is_inter: true,
        ref_frame: LAST_FRAME,
        second_ref: INTRA_FRAME,
        mode: ZEROMV,
        mv: Mv::default(),
        mv1: Mv::default(),
        bw_px: 16,
        bh_px: 8,
        block_origin: true,
        tx_size: 1,
        interp_filter: InterpFilter::EightTap,
    };
    let intra = ResidualMi { is_inter: false, ref_frame: INTRA_FRAME, mode: DC_PRED, ..mi };
    let out = lf_mi_from_residual(&[mi, intra]);
    assert_eq!(out.len(), 2);
    assert_eq!((out[0].bw_mi, out[0].bh_mi, out[0].bsize_idx), (2, 1, 5));
    assert_eq!(out[0].level, 10);
    assert_eq!(out[1].level, 11);
    assert!(out[0].skip && out[0].block_origin);
    assert_eq!(out[0].tx_size_y, 1);
}
