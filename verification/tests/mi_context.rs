use threers::vp9::mc::InterpFilter;
use threers::vp9::mi_context::{mv_ref_neighbors, MiGrid, ResidualMi};
use threers::vp9::mv::Mv;
use threers::vp9::tables::{
    DC_PRED, GOLDEN_FRAME, INTRA_FRAME, LAST_FRAME, NEARESTMV, ZEROMV,
};

fn unit(is_inter: bool, ref_frame: i8, mode: i8, mv: Mv, skip: bool, f: InterpFilter) -> ResidualMi {
    ResidualMi {
        skip,
        is_inter,
        ref_frame,
        second_ref: INTRA_FRAME,
        mode,
        mv,
        mv1: Mv::default(),
        bw_px: 8,
        bh_px: 8,
        block_origin: true,
        tx_size: 1,
        interp_filter: f,
    }
}

fn grid() -> MiGrid {
    let a = Mv { row: 8, col: -16 };
    let b = Mv { row: 24, col: 40 };
    MiGrid {
        mi: vec![
            unit(false, INTRA_FRAME, DC_PRED, Mv::default(), false, InterpFilter::EightTap),
            unit(true, LAST_FRAME, ZEROMV, a, true, InterpFilter::EightTap),
            unit(true, GOLDEN_FRAME, NEARESTMV, b, false, InterpFilter::EightTapSmooth),
            unit(true, LAST_FRAME, ZEROMV, Mv::default(), false, InterpFilter::EightTap),
        ],
        mi_cols: 2,
        mi_rows: 2,
        tile_col_start: 0,
        tile_col_end: 2,
    }
}

#[test]
fn neighbour_contexts_follow_the_above_and_left_units() {
    let g = grid();
    assert_eq!(g.skip_context(1, 1), 1);
    assert_eq!(g.intra_inter_context(1, 1), 0);
    assert_eq!(g.intra_inter_context(1, 0), 2);
    assert_eq!(g.single_ref_p1_context(1, 1), 2);
    assert_eq!(g.single_ref_p2_context(1, 1), 4);
    assert_eq!(g.comp_inter_context(1, 1), 0);
    assert_eq!(g.comp_ref_context(1, 1), 1);
    assert_eq!(g.switchable_interp_context(1, 1), 3);
    assert_eq!(g.tx_size_context(1, 1, 2), 1);
    assert_eq!(g.inter_mode_context(1, 1, 8, 8), 1);
}

#[test]
fn corner_unit_has_no_neighbours() {
    let g = grid();
    assert_eq!(g.skip_context(0, 0), 0);
    assert_eq!(g.intra_inter_context(0, 0), 0);
    assert_eq!(g.single_ref_p1_context(0, 0), 2);
    assert_eq!(g.single_ref_p2_context(0, 0), 2);
    assert_eq!(g.comp_inter_context(0, 0), 1);
    assert_eq!(g.comp_ref_context(0, 0), 2);
    assert_eq!(g.switchable_interp_context(0, 0), 3);
    assert_eq!(g.tx_size_context(0, 0, 3), 1);
}

#[test]
fn ref_mvs_take_same_reference_first_then_others() {
    let g = grid();
    let (nearest, near) = g.ref_mvs(1, 1, 8, 8, LAST_FRAME);
    assert_eq!(nearest, Mv { row: 8, col: -16 });
    assert_eq!(near, Mv { row: 24, col: 40 });
    // For GOLDEN the left unit's vector comes first.
    let (nearest, near) = g.ref_mvs(1, 1, 8, 8, GOLDEN_FRAME);
    assert_eq!(nearest, Mv { row: 24, col: 40 });
    assert_eq!(near, Mv { row: 8, col: -16 });
}

#[test]
fn ref_mvs_are_clamped_near_the_frame_edge() {
    let mut g = grid();
    g.mi[1].mv = Mv { row: 900, col: -900 };
    let (nearest, _) = g.ref_mvs(1, 1, 8, 8, LAST_FRAME);
    assert_eq!(nearest, Mv { row: 128, col: -192 });
}

#[test]
fn neighbour_tables_by_block_size() {
    assert_eq!(mv_ref_neighbors(8, 8)[0], (-1, 0));
    assert_eq!(mv_ref_neighbors(64, 64)[0], (-1, 3));
    assert_eq!(mv_ref_neighbors(16, 8)[2], (-1, 1));
}

#[test]
fn store_mi_fills_the_block_inside_the_frame() {
    let mut g = grid();
    let info = unit(true, LAST_FRAME, NEARESTMV, Mv { row: 4, col: 4 }, true, InterpFilter::EightTapSharp);
    g.store_mi(1, 1, 2, 2, info);
    // Only (1, 1) is inside the frame; it is the block's origin.
    assert_eq!(g.mi[3].mv, Mv { row: 4, col: 4 });
    assert!(g.mi[3].block_origin);
    assert_eq!(g.mi[0].mode, DC_PRED);
    g.store_mi(0, 0, 2, 1, ResidualMi { block_origin: true, ..info });
    assert!(g.mi[0].block_origin && !g.mi[1].block_origin);
    assert_eq!(g.mi[1].interp_filter, InterpFilter::EightTapSharp);
    assert_eq!(g.mi[2].ref_frame, GOLDEN_FRAME);
}
