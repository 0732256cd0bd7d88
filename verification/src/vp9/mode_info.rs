//! Coding of an inter block's mode info: segment id, skip, transform size,
//! reference frame(s), inter mode, interpolation filter and motion vectors.
use vstd::prelude::*;
use crate::vp9::bool_coder::{BoolEncoder, EncState, spec_put_bools, lemma_put_bools_append, lemma_put_bools_push};
use crate::vp9::inter::{RefMode, inter_mode_token, is_inter_mode, spec_segment_id_ops, write_segment_id};
use crate::vp9::mc::InterpFilter;
use crate::vp9::mi_context::{
    MiGrid, MiGridView, MvSearch, filter_index, mode_counter, mvs_negatable, spec_comp_inter_context, spec_comp_ref_context,
    spec_intra_inter_context, spec_mv_ref_neighbors, spec_ref_mvs, spec_single_ref_p1, spec_single_ref_p2,
    spec_skip_context, spec_switchable_interp_context, spec_tx_size_context, spec_tx_size_ops,
};
use crate::vp9::mv::{Mv, spec_mv_ops, write_mv};
use crate::vp9::tables::{
    DEFAULT_COMP_INTER_PROBS, DEFAULT_COMP_REF_PROBS, DEFAULT_INTER_MODE_PROBS, DEFAULT_INTRA_INTER_PROBS,
    DEFAULT_SINGLE_REF_PROBS, DEFAULT_SKIP_PROBS, DEFAULT_SWITCHABLE_INTERP_PROBS, GOLDEN_FRAME, INTER_MODE_TREE,
    INTRA_FRAME, LAST_FRAME, NEARESTMV, NEWMV, SWITCHABLE_INTERP_TREE, spec_counter_to_inter_mode_ctx,
    spec_max_tx_size_wh,
};
use crate::vp9::tree::{spec_tree_path, tree_has, tree_ops, tree_wf, write_tree};

verus! {

/// The reference-frame decisions: for a compound block whether its
/// variable reference is GOLDEN; for a single one LAST against the others,
/// then GOLDEN against ALTREF.
pub open spec fn ref_frame_ops(
    a: Option<crate::vp9::mi_context::ResidualMi>,
    l: Option<crate::vp9::mi_context::ResidualMi>,
    ref_frame: i8,
    compound: bool,
) -> Seq<(u8, bool)> {
    if compound {
        seq![(DEFAULT_COMP_REF_PROBS[spec_comp_ref_context(a, l)], ref_frame == GOLDEN_FRAME)]
    } else if ref_frame == LAST_FRAME {
        seq![(DEFAULT_SINGLE_REF_PROBS[spec_single_ref_p1(a, l)][0], false)]
    } else {
        seq![
            (DEFAULT_SINGLE_REF_PROBS[spec_single_ref_p1(a, l)][0], true),
            (DEFAULT_SINGLE_REF_PROBS[spec_single_ref_p2(a, l)][1], ref_frame != GOLDEN_FRAME),
        ]
    }
}

/// The decisions before the reference frames: segment id, skip, inter,
/// the transform size unless skipped, and under reference select whether
/// the block is compound.
pub open spec fn head_ops(
    g: MiGridView,
    ref_mode: RefMode,
    mi_row: int,
    mi_col: int,
    bw_px: u32,
    bh_px: u32,
    skip: bool,
    tx_size: u8,
    compound: bool,
    segment_id: u8,
) -> Seq<(u8, bool)> {
    let a = g.above(mi_row, mi_col);
    let l = g.left(mi_row, mi_col);
    let max_tx = spec_max_tx_size_wh(bw_px, bh_px);
    spec_segment_id_ops(segment_id) + seq![
        (DEFAULT_SKIP_PROBS[spec_skip_context(a, l)], skip),
        (DEFAULT_INTRA_INTER_PROBS[spec_intra_inter_context(a, l)], true),
    ] + (if !skip {
        spec_tx_size_ops(max_tx, spec_tx_size_context(a, l, max_tx), tx_size)
    } else {
        seq![]
    }) + (if ref_mode == RefMode::Select {
        seq![(DEFAULT_COMP_INTER_PROBS[spec_comp_inter_context(a, l)], compound)]
    } else {
        seq![]
    })
}

/// The reference vectors looked up for a `bw_px × bh_px` block.
pub open spec fn block_query(mi_row: int, mi_col: int, bw_px: u32, bh_px: u32) -> MvSearch {
    MvSearch { row: mi_row, col: mi_col, bw_mi: (bw_px / 8) as int, bh_mi: (bh_px / 8) as int }
}

/// The decisions after the reference frames: the inter mode, the filter,
/// and for NEWMV each vector against the nearest reference vector of its
/// frame.
pub open spec fn tail_ops(
    g: MiGridView,
    mi_row: int,
    mi_col: int,
    bw_px: u32,
    bh_px: u32,
    mode: i8,
    ref_frame: i8,
    second_ref: i8,
    mv: Mv,
    mv1: Mv,
    interp_filter: InterpFilter,
) -> Seq<(u8, bool)> {
    let a = g.above(mi_row, mi_col);
    let l = g.left(mi_row, mi_col);
    let nbrs = spec_mv_ref_neighbors(bw_px, bh_px);
    let q = block_query(mi_row, mi_col, bw_px, bh_px);
    let mode_ctx = spec_counter_to_inter_mode_ctx(mode_counter(g, mi_row, mi_col, nbrs) as i32);
    tree_ops(INTER_MODE_TREE@, DEFAULT_INTER_MODE_PROBS[mode_ctx as int]@, (mode - NEARESTMV) as i8) + tree_ops(
        SWITCHABLE_INTERP_TREE@,
        DEFAULT_SWITCHABLE_INTERP_PROBS[spec_switchable_interp_context(a, l)]@,
        filter_index(interp_filter) as i8,
    ) + if mode == NEWMV {
        spec_mv_ops(mv, spec_ref_mvs(g, q, nbrs, ref_frame).0, false) + if second_ref > INTRA_FRAME {
            spec_mv_ops(mv1, spec_ref_mvs(g, q, nbrs, second_ref).0, false)
        } else {
            seq![]
        }
    } else {
        seq![]
    }
}

/// The decisions coding an inter block's mode info at `(mi_row, mi_col)`.
pub open spec fn spec_inter_mode_bits_ops(
    g: MiGridView,
    ref_mode: RefMode,
    mi_row: int,
    mi_col: int,
    bw_px: u32,
    bh_px: u32,
    skip: bool,
    tx_size: u8,
    mode: i8,
    ref_frame: i8,
    second_ref: i8,
    mv: Mv,
    mv1: Mv,
    interp_filter: InterpFilter,
    segment_id: u8,
) -> Seq<(u8, bool)> {
    let compound = second_ref > INTRA_FRAME;
    head_ops(g, ref_mode, mi_row, mi_col, bw_px, bh_px, skip, tx_size, compound, segment_id) + ref_frame_ops(
        g.above(mi_row, mi_col),
        g.left(mi_row, mi_col),
        ref_frame,
        compound,
    ) + tail_ops(g, mi_row, mi_col, bw_px, bh_px, mode, ref_frame, second_ref, mv, mv1, interp_filter)
}

proof fn lemma_mode_trees()
    ensures
        tree_wf(INTER_MODE_TREE@),
        forall|t: i8| 0 <= t <= 3 ==> tree_has(INTER_MODE_TREE@, t),
        tree_wf(SWITCHABLE_INTERP_TREE@),
        forall|t: i8| 0 <= t <= 2 ==> tree_has(SWITCHABLE_INTERP_TREE@, t),
{
    assert(INTER_MODE_TREE@ =~= seq![-2i8, 2i8, 0i8, 4i8, -1i8, -3i8]);
    assert(SWITCHABLE_INTERP_TREE@ =~= seq![0i8, 2i8, -1i8, -2i8]);
    reveal_with_fuel(spec_tree_path, 4);
    assert(tree_has(INTER_MODE_TREE@, 0));
    assert(tree_has(INTER_MODE_TREE@, 1));
    assert(tree_has(INTER_MODE_TREE@, 2));
    assert(tree_has(INTER_MODE_TREE@, 3));
    assert(tree_has(SWITCHABLE_INTERP_TREE@, 0));
    assert(tree_has(SWITCHABLE_INTERP_TREE@, 1));
    assert(tree_has(SWITCHABLE_INTERP_TREE@, 2));
}

/// Append one decision, keeping track of all decisions since `base`.
fn put(e: &mut BoolEncoder, op: (u8, bool), Ghost(base): Ghost<EncState>, Ghost(done): Ghost<Seq<(u8, bool)>>)
    requires
        old(e).wf(),
        old(e)@ == spec_put_bools(base, done),
    ensures
        final(e).wf(),
        final(e)@ == spec_put_bools(base, done.push(op)),
{
    e.put_bool(op.0, op.1);
    proof {
        lemma_put_bools_push(base, done, op);
    }
}

/// `interp_filter` as its tree token.
fn filter_token(f: InterpFilter) -> (t: i8)
    ensures
        t == filter_index(f),
{
    match f {
        InterpFilter::EightTap => 0,
        InterpFilter::EightTapSmooth => 1,
        InterpFilter::EightTapSharp => 2,
        InterpFilter::Bilinear => 3,
    }
}

/// Segment id, skip, inter, transform size and compound flag.
fn write_head(
    grid: &MiGrid,
    e: &mut BoolEncoder,
    ref_mode: RefMode,
    mi_row: usize,
    mi_col: usize,
    bw_px: u32,
    bh_px: u32,
    skip: bool,
    tx_size: u8,
    compound: bool,
    segment_id: u8,
)
    requires
        old(e).wf(),
        grid.wf(),
        grid.pos_ok(mi_row as int, mi_col as int),
    ensures
        final(e).wf(),
        final(e)@ == spec_put_bools(
            old(e)@,
            head_ops(grid@, ref_mode, mi_row as int, mi_col as int, bw_px, bh_px, skip, tx_size, compound, segment_id),
        ),
{
    let ghost base = e@;
    let ghost a = grid.above(mi_row as int, mi_col as int);
    let ghost l = grid.left(mi_row as int, mi_col as int);
    write_segment_id(e, segment_id);
    let ghost d0 = spec_segment_id_ops(segment_id);
    let skip_ctx = grid.skip_context(mi_row, mi_col);
    put(e, (DEFAULT_SKIP_PROBS[skip_ctx], skip), Ghost(base), Ghost(d0));
    let ghost d1 = d0.push((DEFAULT_SKIP_PROBS[skip_ctx as int], skip));
    let ii_ctx = grid.intra_inter_context(mi_row, mi_col);
    put(e, (DEFAULT_INTRA_INTER_PROBS[ii_ctx], true), Ghost(base), Ghost(d1));
    let ghost d2 = d1.push((DEFAULT_INTRA_INTER_PROBS[ii_ctx as int], true));
    assert(d2 =~= d0 + seq![
        (DEFAULT_SKIP_PROBS[spec_skip_context(a, l)], skip),
        (DEFAULT_INTRA_INTER_PROBS[spec_intra_inter_context(a, l)], true),
    ]);
    let ghost max_tx = spec_max_tx_size_wh(bw_px, bh_px);
    let ghost tops = if !skip {
        spec_tx_size_ops(max_tx, spec_tx_size_context(a, l, max_tx), tx_size)
    } else {
        seq![]
    };
    if !skip {
        grid.write_selected_tx_size(e, mi_row, mi_col, bw_px, bh_px, tx_size);
        proof {
            lemma_put_bools_append(base, d2, tops);
        }
    } else {
        assert(d2 + tops =~= d2);
    }
    let ghost d3 = d2 + tops;
    if ref_mode == RefMode::Select {
        let ctx = grid.comp_inter_context(mi_row, mi_col);
        put(e, (DEFAULT_COMP_INTER_PROBS[ctx], compound), Ghost(base), Ghost(d3));
        assert(d3.push((DEFAULT_COMP_INTER_PROBS[ctx as int], compound)) =~= d3 + seq![
            (DEFAULT_COMP_INTER_PROBS[spec_comp_inter_context(a, l)], compound),
        ]);
    } else {
        assert(d3 + seq![] =~= d3);
    }
}

/// The reference-frame decisions.
fn write_ref_frames(grid: &MiGrid, e: &mut BoolEncoder, mi_row: usize, mi_col: usize, ref_frame: i8, compound: bool)
    requires
        old(e).wf(),
        grid.wf(),
        grid.pos_ok(mi_row as int, mi_col as int),
    ensures
        final(e).wf(),
        final(e)@ == spec_put_bools(
            old(e)@,
            ref_frame_ops(grid.above(mi_row as int, mi_col as int), grid.left(mi_row as int, mi_col as int), ref_frame, compound),
        ),
{
    let ghost base = e@;
    let ghost empty = Seq::<(u8, bool)>::empty();
    assert(spec_put_bools(base, empty) == base);
    let ghost rops = ref_frame_ops(grid.above(mi_row as int, mi_col as int), grid.left(mi_row as int, mi_col as int), ref_frame, compound);
    if compound {
        let ctx = grid.comp_ref_context(mi_row, mi_col);
        put(e, (DEFAULT_COMP_REF_PROBS[ctx], ref_frame == GOLDEN_FRAME), Ghost(base), Ghost(empty));
        assert(empty.push(rops[0]) =~= rops);
    } else {
        let ref_ctx = grid.single_ref_p1_context(mi_row, mi_col);
        if ref_frame == LAST_FRAME {
            put(e, (DEFAULT_SINGLE_REF_PROBS[ref_ctx][0], false), Ghost(base), Ghost(empty));
            assert(empty.push(rops[0]) =~= rops);
        } else {
            put(e, (DEFAULT_SINGLE_REF_PROBS[ref_ctx][0], true), Ghost(base), Ghost(empty));
            let ctx2 = grid.single_ref_p2_context(mi_row, mi_col);
            put(e, (DEFAULT_SINGLE_REF_PROBS[ctx2][1], ref_frame != GOLDEN_FRAME), Ghost(base), Ghost(empty.push(rops[0])));
            assert(empty.push(rops[0]).push(rops[1]) =~= rops);
        }
    }
}

/// The reference vectors of `rf` fit a coded difference from `mv`.
pub open spec fn mv_codable(g: MiGridView, q: MvSearch, nbrs: Seq<(i32, i32)>, rf: i8, mv: Mv) -> bool {
    let r = spec_ref_mvs(g, q, nbrs, rf).0;
    i16::MIN <= mv.row - r.row <= i16::MAX && i16::MIN <= mv.col - r.col <= i16::MAX
}

/// Inter mode, filter and the NEWMV vectors.
fn write_tail(
    grid: &MiGrid,
    e: &mut BoolEncoder,
    mi_row: usize,
    mi_col: usize,
    bw_px: u32,
    bh_px: u32,
    mode: i8,
    ref_frame: i8,
    second_ref: i8,
    mv: Mv,
    mv1: Mv,
    interp_filter: InterpFilter,
)
    requires
        old(e).wf(),
        grid.wf(),
        mvs_negatable(grid@),
        grid.pos_ok(mi_row as int, mi_col as int),
        bw_px / 8 <= grid.mi_cols + 4,
        bh_px / 8 <= grid.mi_rows + 4,
        is_inter_mode(mode),
        interp_filter != InterpFilter::Bilinear,
        mode == NEWMV ==> mv_codable(
            grid@,
            block_query(mi_row as int, mi_col as int, bw_px, bh_px),
            spec_mv_ref_neighbors(bw_px, bh_px),
            ref_frame,
            mv,
        ),
        mode == NEWMV && second_ref > INTRA_FRAME ==> mv_codable(
            grid@,
            block_query(mi_row as int, mi_col as int, bw_px, bh_px),
            spec_mv_ref_neighbors(bw_px, bh_px),
            second_ref,
            mv1,
        ),
    ensures
        final(e).wf(),
        final(e)@ == spec_put_bools(
            old(e)@,
            tail_ops(grid@, mi_row as int, mi_col as int, bw_px, bh_px, mode, ref_frame, second_ref, mv, mv1, interp_filter),
        ),
{
    proof {
        lemma_mode_trees();
    }
    let ghost base = e@;
    let mode_ctx = grid.inter_mode_context(mi_row, mi_col, bw_px, bh_px);
    let token = inter_mode_token(mode);
    write_tree(e, &INTER_MODE_TREE, &DEFAULT_INTER_MODE_PROBS[mode_ctx], token);
    let ghost mops = tree_ops(INTER_MODE_TREE@, DEFAULT_INTER_MODE_PROBS[mode_ctx as int]@, token);
    let filt_ctx = grid.switchable_interp_context(mi_row, mi_col);
    let ftok = filter_token(interp_filter);
    write_tree(e, &SWITCHABLE_INTERP_TREE, &DEFAULT_SWITCHABLE_INTERP_PROBS[filt_ctx], ftok);
    let ghost fops = tree_ops(SWITCHABLE_INTERP_TREE@, DEFAULT_SWITCHABLE_INTERP_PROBS[filt_ctx as int]@, ftok);
    proof {
        lemma_put_bools_append(base, mops, fops);
    }
    let ghost d = mops + fops;
    if mode == NEWMV {
        let (nearest0, _) = grid.ref_mvs(mi_row, mi_col, bw_px, bh_px, ref_frame);
        write_mv(e, mv, nearest0, false);
        let ghost o0 = spec_mv_ops(mv, nearest0, false);
        proof {
            lemma_put_bools_append(base, d, o0);
        }
        if second_ref > INTRA_FRAME {
            let (nearest1, _) = grid.ref_mvs(mi_row, mi_col, bw_px, bh_px, second_ref);
            write_mv(e, mv1, nearest1, false);
            let ghost o1 = spec_mv_ops(mv1, nearest1, false);
            proof {
                lemma_put_bools_append(base, d + o0, o1);
                assert(d + o0 + o1 =~= d + (o0 + o1));
            }
        } else {
            assert(d + o0 =~= d + (o0 + seq![]));
        }
    } else {
        assert(d =~= d + seq![]);
    }
}

/// Code an inter block's mode info (`write_inter_mode_bits`). The block's
/// reference mode must match the frame's (compound blocks only under
/// compound or select, single ones only under single or select), the
/// filter is one of the three switchable 8-tap filters, and coded vectors
/// differ from their references by an `i16`.
pub fn write_inter_mode_bits(
    grid: &MiGrid,
    e: &mut BoolEncoder,
    ref_mode: RefMode,
    mi_row: usize,
    mi_col: usize,
    bw_px: u32,
    bh_px: u32,
    skip: bool,
    tx_size: u8,
    mode: i8,
    ref_frame: i8,
    second_ref: i8,
    mv: Mv,
    mv1: Mv,
    interp_filter: InterpFilter,
    segment_id: u8,
)
    requires
        old(e).wf(),
        grid.wf(),
        mvs_negatable(grid@),
        grid.pos_ok(mi_row as int, mi_col as int),
        bw_px / 8 <= grid.mi_cols + 4,
        bh_px / 8 <= grid.mi_rows + 4,
        is_inter_mode(mode),
        interp_filter != InterpFilter::Bilinear,
        ref_mode == RefMode::Compound ==> second_ref > INTRA_FRAME,
        ref_mode == RefMode::Single ==> second_ref <= INTRA_FRAME,
        mode == NEWMV ==> mv_codable(
            grid@,
            block_query(mi_row as int, mi_col as int, bw_px, bh_px),
            spec_mv_ref_neighbors(bw_px, bh_px),
            ref_frame,
            mv,
        ),
        mode == NEWMV && second_ref > INTRA_FRAME ==> mv_codable(
            grid@,
            block_query(mi_row as int, mi_col as int, bw_px, bh_px),
            spec_mv_ref_neighbors(bw_px, bh_px),
            second_ref,
            mv1,
        ),
    ensures
        final(e).wf(),
        final(e)@ == spec_put_bools(
            old(e)@,
            spec_inter_mode_bits_ops(
                grid@,
                ref_mode,
                mi_row as int,
                mi_col as int,
                bw_px,
                bh_px,
                skip,
                tx_size,
                mode,
                ref_frame,
                second_ref,
                mv,
                mv1,
                interp_filter,
                segment_id,
            ),
        ),
{
    let ghost base = e@;
    let compound = second_ref > INTRA_FRAME;
    write_head(grid, e, ref_mode, mi_row, mi_col, bw_px, bh_px, skip, tx_size, compound, segment_id);
    let ghost h = head_ops(grid@, ref_mode, mi_row as int, mi_col as int, bw_px, bh_px, skip, tx_size, compound, segment_id);
    write_ref_frames(grid, e, mi_row, mi_col, ref_frame, compound);
    let ghost r = ref_frame_ops(grid.above(mi_row as int, mi_col as int), grid.left(mi_row as int, mi_col as int), ref_frame, compound);
    proof {
        lemma_put_bools_append(base, h, r);
    }
    write_tail(grid, e, mi_row, mi_col, bw_px, bh_px, mode, ref_frame, second_ref, mv, mv1, interp_filter);
    proof {
        lemma_put_bools_append(
            base,
            h + r,
            tail_ops(grid@, mi_row as int, mi_col as int, bw_px, bh_px, mode, ref_frame, second_ref, mv, mv1, interp_filter),
        );
    }
}

} // verus!
