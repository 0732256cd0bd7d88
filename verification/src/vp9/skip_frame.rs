//! Skip P-frames: every 8×8 block is a skipped LAST-frame block carrying one
//! motion vector for the whole frame. ZEROMV copies the reference; NEWMV
//! shifts it by the vector, with 8-tap interpolation at sub-pel positions.
use vstd::prelude::*;
use vstd::arithmetic::power2::pow2;
use crate::vp9::bool_coder::{
    BoolEncoder, EncState, flush_ops, spec_encode, spec_put_bool, spec_put_bools, spec_start,
    lemma_put_bools_append, lemma_put_bools_push,
};
use crate::vp9::bit_writer::{BitWriter, pack_bits};
use crate::vp9::encoder::{
    Reconstruction, apply_loop_filter, crop_plane, deblocked_chroma, deblocked_luma, pad_plane, sb_align, loop_filtered_luma,
};
use crate::vp9::inter::{
    FILTER_LEVEL, RefMode, choose_log2_tile_cols, clamp_mv_ref, compressed_header_inter, lemma_lt_pow2,
    pack_tile_data, sb_cols_of, segment_id_for_mi_col, spec_choose_log2_tile_cols, spec_clamp_mv_ref,
    spec_compressed_header_inter_ops, spec_inter_header_bits, spec_inter_header_head, spec_inter_header_mid,
    spec_max_log2_from, spec_min_log2_from, spec_ref_bits, seg_feature_bits, spec_segmentation_params_bits, spec_tile_info_bits,
    spec_pack_tiles, spec_segment_id_ops, spec_tile_mi_col_range, tile_mi_col_range, tile_views,
    write_segment_id, write_uncompressed_inter_header,
};
use crate::vp9::loopfilter::{LfMi, block_fits, lf_level_for_mi, mi_at, mi_ok, sb_count, spec_lf_level};
use crate::vp9::mc::{InterpFilter, law_fullpel_is_copy, lin, predict_inter, spec_inter_pixel, spec_sample};
use crate::vp9::{finalize_frame, spec_finalize_frame};
use crate::vp9::mi_context::b2u;
use crate::vp9::mv::{Mv, spec_mv_ops, write_mv};
use crate::vp9::partition::{PartitionContext, PartitionModel, model_partition_ops, model_update};
use crate::vp9::tables::{
    DEFAULT_INTER_MODE_PROBS, DEFAULT_INTRA_INTER_PROBS, DEFAULT_SINGLE_REF_PROBS, DEFAULT_SKIP_PROBS,
    DEFAULT_SWITCHABLE_INTERP_PROBS, INTER_MODE_TREE, partition_ctx_index_wh, INTER_OFFSET_NEWMV, INTER_OFFSET_ZEROMV, LAST_FRAME,
    NEWMV, PARTITION_NONE, PARTITION_SPLIT, PARTITION_TREE, SWITCHABLE_INTERP_TREE, ZEROMV,
    counter_to_inter_mode_ctx, is_square_bsize, mode_2_counter,
    spec_counter_to_inter_mode_ctx, spec_mode_2_counter,
};
use crate::vp9::tree::{spec_tree_path, tree_has, tree_ops, tree_wf, write_tree};

verus! {

/// A bool coder just started: the priming `0` coded and nothing else.
pub open spec fn fresh_coder() -> EncState {
    spec_put_bool(spec_start(), 128, false)
}

/// Mode info of one 8×8 block.
#[derive(Clone, Copy)]
pub struct MiInfo {
    pub mode: i8,
    pub skip: bool,
    pub is_inter: bool,
    pub ref_frame: i8,
    pub mv: Mv,
    pub interp_filter: InterpFilter,
}

/// The inter mode of every block: NEWMV when the vector is coded, else ZEROMV.
pub open spec fn skip_mode(newmv: bool) -> i8 {
    if newmv {
        NEWMV
    } else {
        ZEROMV
    }
}

/// The mode info every block of a skip frame carries.
pub open spec fn skip_mi(mv: Mv, newmv: bool) -> MiInfo {
    MiInfo {
        mode: skip_mode(newmv),
        skip: true,
        is_inter: true,
        ref_frame: LAST_FRAME,
        mv,
        interp_filter: InterpFilter::EightTap,
    }
}

/// A skip frame being coded: its size in MI units, the MI columns
/// `[start, end)` of the current tile, and the frame's motion vector.
pub struct SkipEnv {
    pub mi_rows: int,
    pub mi_cols: int,
    pub start: int,
    pub end: int,
    pub mv: Mv,
    pub newmv: bool,
}

/// The reference a NEWMV block codes its vector against: the first
/// neighbour inside the tile (above or left, as every block carries the
/// frame vector) gives that vector clamped at this block; with no such
/// neighbour it is zero.
pub open spec fn skip_ref_mv(env: SkipEnv, mi_row: int, mi_col: int) -> Mv {
    if mi_row > 0 || mi_col > env.start {
        spec_clamp_mv_ref(env.mv, mi_row, mi_col, env.mi_rows, env.mi_cols, 1, 1)
    } else {
        Mv { row: 0, col: 0 }
    }
}

/// The decisions coding block `(mi_row, mi_col)`: segment id (right half is
/// segment 1), skip, inter, LAST, the inter mode, EIGHTTAP, and for NEWMV
/// the vector. Contexts count the neighbours available above (a previous
/// row) and to the left (inside the tile), all of which are skipped
/// LAST-frame blocks with the same mode and filter.
pub open spec fn skip_block_ops(env: SkipEnv, mi_row: int, mi_col: int) -> Seq<(u8, bool)> {
    let a = mi_row > 0;
    let l = mi_col > env.start;
    let n = b2u(a) + b2u(l);
    let mode_ctx = spec_counter_to_inter_mode_ctx((n * spec_mode_2_counter(skip_mode(env.newmv))) as i32);
    let ref_ctx = if a || l {
        4int
    } else {
        2int
    };
    let filt_ctx = if a || l {
        0int
    } else {
        3int
    };
    let seg: u8 = if mi_col >= env.mi_cols / 2 {
        1
    } else {
        0
    };
    let token = if env.newmv {
        INTER_OFFSET_NEWMV
    } else {
        INTER_OFFSET_ZEROMV
    };
    spec_segment_id_ops(seg) + seq![
        (DEFAULT_SKIP_PROBS[n], true),
        (DEFAULT_INTRA_INTER_PROBS[0], true),
        (DEFAULT_SINGLE_REF_PROBS[ref_ctx][0], false),
    ] + tree_ops(INTER_MODE_TREE@, DEFAULT_INTER_MODE_PROBS[mode_ctx as int]@, token) + tree_ops(
        SWITCHABLE_INTERP_TREE@,
        DEFAULT_SWITCHABLE_INTERP_PROBS[filt_ctx]@,
        0i8,
    ) + if env.newmv {
        spec_mv_ops(env.mv, skip_ref_mv(env, mi_row, mi_col), false)
    } else {
        seq![]
    }
}

/// The decisions coding the `bsize` block at `(mi_row, mi_col)`, split
/// down to 8×8 blocks, and the partition contexts afterwards; a block
/// outside the frame codes nothing.
pub open spec fn skip_walk(
    env: SkipEnv,
    m: PartitionModel,
    mi_row: int,
    mi_col: int,
    bsize: u32,
) -> (Seq<(u8, bool)>, PartitionModel)
    decreases bsize,
{
    if mi_row >= env.mi_rows || mi_col >= env.mi_cols || !is_square_bsize(bsize) {
        (seq![], m)
    } else {
        let half = (bsize / 16) as int;
        let has_rows = mi_row + half < env.mi_rows;
        let has_cols = mi_col + half < env.mi_cols;
        if bsize == 8 {
            (
                model_partition_ops(m, mi_row, mi_col, 8, has_rows, has_cols, PARTITION_NONE)
                    + skip_block_ops(env, mi_row, mi_col),
                model_update(m, mi_row, mi_col, 8, 8, 8, 8),
            )
        } else {
            let pops = model_partition_ops(m, mi_row, mi_col, bsize, has_rows, has_cols, PARTITION_SPLIT);
            let sub = bsize / 2;
            let r1 = skip_walk(env, m, mi_row, mi_col, sub);
            let r2 = skip_walk(env, r1.1, mi_row, mi_col + half, sub);
            let r3 = skip_walk(env, r2.1, mi_row + half, mi_col, sub);
            let r4 = skip_walk(env, r3.1, mi_row + half, mi_col + half, sub);
            (pops + r1.0 + r2.0 + r3.0 + r4.0, r4.1)
        }
    }
}

/// The first `k` superblocks of the superblock row at `mi_row` of the tile,
/// starting from contexts `m`.
pub open spec fn skip_sb_row(env: SkipEnv, m: PartitionModel, mi_row: int, k: nat) -> (Seq<(u8, bool)>, PartitionModel)
    decreases k,
{
    if k == 0 {
        (seq![], m)
    } else {
        let p = skip_sb_row(env, m, mi_row, (k - 1) as nat);
        let w = skip_walk(env, p.1, mi_row, env.start + 8 * (k - 1), 64);
        (p.0 + w.0, w.1)
    }
}

/// Superblocks in one row of the tile.
pub open spec fn tile_sb_cols(env: SkipEnv) -> nat {
    ((env.end - env.start + 7) / 8) as nat
}

/// Superblock rows of the frame.
pub open spec fn frame_sb_rows(env: SkipEnv) -> nat {
    ((env.mi_rows + 7) / 8) as nat
}

/// The contexts with the left column cleared, as at the start of each
/// superblock row.
pub open spec fn clear_left(m: PartitionModel) -> PartitionModel {
    PartitionModel { above: m.above, left: Seq::new(8, |i: int| 0u8) }
}

/// The first `j` superblock rows of the tile, starting from contexts `m`.
pub open spec fn skip_tile_rows(env: SkipEnv, m: PartitionModel, j: nat) -> (Seq<(u8, bool)>, PartitionModel)
    decreases j,
{
    if j == 0 {
        (seq![], m)
    } else {
        let p = skip_tile_rows(env, m, (j - 1) as nat);
        let r = skip_sb_row(env, clear_left(p.1), 8 * (j - 1), tile_sb_cols(env));
        (p.0 + r.0, r.1)
    }
}

/// The coded bytes of one tile and the contexts after it.
pub open spec fn skip_tile(env: SkipEnv, m: PartitionModel) -> (Seq<u8>, PartitionModel) {
    let r = skip_tile_rows(env, m, frame_sb_rows(env));
    (spec_encode(r.0), r.1)
}

/// Tile column `t` of `2^l2` of a skip frame.
pub open spec fn tile_env(mi_rows: int, mi_cols: int, mv: Mv, newmv: bool, l2: nat, t: int) -> SkipEnv {
    let r = spec_tile_mi_col_range(mi_cols, l2, t);
    SkipEnv { mi_rows, mi_cols, start: r.0, end: r.1, mv, newmv }
}

/// The bytes of the first `k` tile columns, coded left to right from
/// contexts `m`, and the contexts after them.
pub open spec fn skip_tiles(
    mi_rows: int,
    mi_cols: int,
    mv: Mv,
    newmv: bool,
    l2: nat,
    m: PartitionModel,
    k: nat,
) -> (Seq<Seq<u8>>, PartitionModel)
    decreases k,
{
    if k == 0 {
        (seq![], m)
    } else {
        let p = skip_tiles(mi_rows, mi_cols, mv, newmv, l2, m, (k - 1) as nat);
        let t = skip_tile(tile_env(mi_rows, mi_cols, mv, newmv, l2, k - 1), p.1);
        (p.0.push(t.0), t.1)
    }
}

pub(crate) proof fn lemma_tile_range(mi_cols: int, l2: nat, t: int)
    requires
        0 <= mi_cols,
        0 <= t,
    ensures
        ({
            let r = spec_tile_mi_col_range(mi_cols, l2, t);
            &&& 0 <= r.0 <= r.1 <= mi_cols
            &&& r.0 % 8 == 0 || r.0 == mi_cols
            &&& r.1 % 8 == 0 || r.1 == mi_cols
        }),
{
    let sb = (mi_cols + 7) / 8;
    let p = vstd::arithmetic::power2::pow2(l2) as int;
    vstd::arithmetic::power2::lemma_pow2_pos(l2);
    assert(t * sb <= (t + 1) * sb) by (nonlinear_arith)
        requires
            0 <= t,
            0 <= sb,
    ;
    assert(0 <= t * sb) by (nonlinear_arith)
        requires
            0 <= t,
            0 <= sb,
    ;
    vstd::arithmetic::div_mod::lemma_div_is_ordered(t * sb, (t + 1) * sb, p);
    vstd::arithmetic::div_mod::lemma_div_pos_is_pos(t * sb, p);
    let s = (t * sb) / p;
    let e = ((t + 1) * sb) / p;
    assert((s * 8) % 8 == 0) by (nonlinear_arith);
    assert((e * 8) % 8 == 0) by (nonlinear_arith);
}

proof fn lemma_partition_tokens()
    ensures
        tree_has(PARTITION_TREE@, PARTITION_NONE),
        tree_has(PARTITION_TREE@, PARTITION_SPLIT),
{
    assert(PARTITION_TREE@ =~= seq![0i8, 2i8, -1i8, 4i8, -2i8, -3i8]);
    reveal_with_fuel(spec_tree_path, 4);
}

proof fn lemma_skip_trees()
    ensures
        tree_wf(INTER_MODE_TREE@),
        tree_has(INTER_MODE_TREE@, INTER_OFFSET_NEWMV),
        tree_has(INTER_MODE_TREE@, INTER_OFFSET_ZEROMV),
        tree_wf(SWITCHABLE_INTERP_TREE@),
        tree_has(SWITCHABLE_INTERP_TREE@, 0i8),
{
    assert(INTER_MODE_TREE@ =~= seq![-2i8, 2i8, 0i8, 4i8, -1i8, -3i8]);
    assert(SWITCHABLE_INTERP_TREE@ =~= seq![0i8, 2i8, -1i8, -2i8]);
    reveal_with_fuel(spec_tree_path, 4);
}

/// Neighbours searched for the NEWMV reference of an 8×8 block, nearest
/// first (`mv_ref_blocks[BLOCK_8X8]`), as `(row, col)` offsets.
const SKIP_MV_REF_NBRS: [(i32, i32); 8] = [(-1, 0), (0, -1), (-1, -1), (-2, 0), (0, -2), (-2, -1), (-1, -2), (-2, -2)];

/// Encoder state of a skip frame: the mode-info grid, partition contexts
/// and the bool coder of the current tile.
struct InterEnc {
    mv: Mv,
    newmv: bool,
    mi_cols: usize,
    mi_rows: usize,
    tile_col_start: usize,
    tile_col_end: usize,
    mi: Vec<MiInfo>,
    part: PartitionContext,
    bool: BoolEncoder,
}

impl InterEnc {
    spec fn env(&self) -> SkipEnv {
        SkipEnv {
            mi_rows: self.mi_rows as int,
            mi_cols: self.mi_cols as int,
            start: self.tile_col_start as int,
            end: self.tile_col_end as int,
            mv: self.mv,
            newmv: self.newmv,
        }
    }

    /// Every block carries the frame's mode info; the contexts cover the
    /// frame; the tile lies inside it.
    spec fn wf(&self) -> bool {
        &&& 1 <= self.mi_rows <= 0x10_0000
        &&& 1 <= self.mi_cols <= 0x10_0000
        &&& self.mi_rows * self.mi_cols <= usize::MAX
        &&& self.mi@.len() == self.mi_rows * self.mi_cols
        &&& forall|i: int| 0 <= i < self.mi@.len() ==> #[trigger] self.mi@[i] == skip_mi(self.mv, self.newmv)
        &&& self.part.wf()
        &&& self.part.mi_cols == self.mi_cols
        &&& self.bool.wf()
        &&& self.tile_col_start <= self.tile_col_end <= self.mi_cols
    }

    fn new(mi_rows: usize, mi_cols: usize, mv: Mv, newmv: bool) -> (e: Self)
        requires
            1 <= mi_rows <= 0x10_0000,
            1 <= mi_cols <= 0x10_0000,
            mi_rows * mi_cols <= usize::MAX,
        ensures
            e.wf(),
            e.mi_rows == mi_rows,
            e.mi_cols == mi_cols,
            e.mv == mv,
            e.newmv == newmv,
            e.tile_col_start == 0,
            e.tile_col_end == mi_cols,
            e.part@.above.len() == mi_cols,
            forall|c: int| 0 <= c < mi_cols ==> e.part@.above[c] == 0,
            forall|r: int| 0 <= r < 8 ==> e.part@.left[r] == 0,
            e.bool@ == fresh_coder(),
    {
        let mode = if newmv {
            NEWMV
        } else {
            ZEROMV
        };
        let n = mi_cols * mi_rows;
        let mut mi: Vec<MiInfo> = Vec::new();
        let mut i: usize = 0;
        while i < n
            invariant
                i <= n,
                mi@.len() == i,
                mode == skip_mode(newmv),
                forall|j: int| 0 <= j < i ==> #[trigger] mi@[j] == skip_mi(mv, newmv),
            decreases n - i,
        {
            mi.push(
                MiInfo {
                    mode,
                    skip: true,
                    is_inter: true,
                    ref_frame: LAST_FRAME,
                    mv,
                    interp_filter: InterpFilter::EightTap,
                },
            );
            i += 1;
        }
        proof {
            vstd::arithmetic::mul::lemma_mul_is_commutative(mi_cols as int, mi_rows as int);
        }
        InterEnc {
            mv,
            newmv,
            mi_cols,
            mi_rows,
            tile_col_start: 0,
            tile_col_end: mi_cols,
            mi,
            part: PartitionContext::new(mi_cols),
            bool: BoolEncoder::new(),
        }
    }

    fn left_available(&self, mi_col: usize) -> (b: bool)
        ensures
            b == (mi_col > self.tile_col_start),
    {
        mi_col > self.tile_col_start
    }

    fn mi_in_tile(&self, r: i32, c: i32) -> (b: bool)
        requires
            self.wf(),
        ensures
            b == (0 <= r < self.mi_rows && self.tile_col_start <= c < self.tile_col_end),
    {
        r >= 0 && (r as usize) < self.mi_rows && c >= self.tile_col_start as i32 && (c as usize)
            < self.tile_col_end
    }

    fn skip_context(&self, mi_row: usize, mi_col: usize) -> (ctx: usize)
        requires
            self.wf(),
            mi_row < self.mi_rows,
            self.tile_col_start <= mi_col < self.tile_col_end,
        ensures
            ctx == b2u(mi_row > 0) + b2u(mi_col > self.tile_col_start),
    {
        proof {
            self.lemma_index(mi_row as int, mi_col as int);
        }
        let above = if mi_row > 0 {
            proof {
                self.lemma_index(mi_row - 1, mi_col as int);
            }
            self.mi[(mi_row - 1) * self.mi_cols + mi_col].skip as usize
        } else {
            0
        };
        let left = if self.left_available(mi_col) {
            proof {
                self.lemma_index(mi_row as int, mi_col - 1);
            }
            self.mi[mi_row * self.mi_cols + (mi_col - 1)].skip as usize
        } else {
            0
        };
        above + left
    }

    fn intra_inter_context(&self, mi_row: usize, mi_col: usize) -> (ctx: usize)
        requires
            self.wf(),
            mi_row < self.mi_rows,
            self.tile_col_start <= mi_col < self.tile_col_end,
        ensures
            ctx == 0,
    {
        let above = mi_row > 0;
        let left = self.left_available(mi_col);
        if above && left {
            proof {
                self.lemma_index(mi_row - 1, mi_col as int);
                self.lemma_index(mi_row as int, mi_col - 1);
            }
            let ai = !self.mi[(mi_row - 1) * self.mi_cols + mi_col].is_inter;
            let li = !self.mi[mi_row * self.mi_cols + (mi_col - 1)].is_inter;
            if li && ai {
                3
            } else if li || ai {
                1
            } else {
                0
            }
        } else if above {
            proof {
                self.lemma_index(mi_row - 1, mi_col as int);
            }
            2 * (!self.mi[(mi_row - 1) * self.mi_cols + mi_col].is_inter as usize)
        } else if left {
            proof {
                self.lemma_index(mi_row as int, mi_col - 1);
            }
            2 * (!self.mi[mi_row * self.mi_cols + (mi_col - 1)].is_inter as usize)
        } else {
            0
        }
    }

    fn single_ref_p1_context(&self, mi_row: usize, mi_col: usize) -> (ctx: usize)
        requires
            self.wf(),
            mi_row < self.mi_rows,
            self.tile_col_start <= mi_col < self.tile_col_end,
        ensures
            ctx == if mi_row > 0 || mi_col > self.tile_col_start {
                4usize
            } else {
                2usize
            },
    {
        let above = mi_row > 0;
        let left = self.left_available(mi_col);
        if above && left {
            proof {
                self.lemma_index(mi_row - 1, mi_col as int);
                self.lemma_index(mi_row as int, mi_col - 1);
            }
            let a = self.mi[(mi_row - 1) * self.mi_cols + mi_col];
            let l = self.mi[mi_row * self.mi_cols + (mi_col - 1)];
            let ai = !a.is_inter;
            let li = !l.is_inter;
            if ai && li {
                2
            } else if ai || li {
                let edge = if ai {
                    l
                } else {
                    a
                };
                4 * ((edge.ref_frame == LAST_FRAME) as usize)
            } else {
                2 * ((a.ref_frame == LAST_FRAME) as usize) + 2 * ((l.ref_frame == LAST_FRAME) as usize)
            }
        } else if above || left {
            let e = if above {
                proof {
                    self.lemma_index(mi_row - 1, mi_col as int);
                }
                self.mi[(mi_row - 1) * self.mi_cols + mi_col]
            } else {
                proof {
                    self.lemma_index(mi_row as int, mi_col - 1);
                }
                self.mi[mi_row * self.mi_cols + (mi_col - 1)]
            };
            if !e.is_inter {
                2
            } else {
                4 * ((e.ref_frame == LAST_FRAME) as usize)
            }
        } else {
            2
        }
    }

    fn inter_mode_context(&self, mi_row: usize, mi_col: usize) -> (ctx: usize)
        requires
            self.wf(),
            mi_row < self.mi_rows,
            self.tile_col_start <= mi_col < self.tile_col_end,
        ensures
            ctx == spec_counter_to_inter_mode_ctx(
                ((b2u(mi_row > 0) + b2u(mi_col > self.tile_col_start)) * spec_mode_2_counter(
                    skip_mode(self.newmv),
                )) as i32,
            ),
            ctx < 7,
    {
        let mut counter: i32 = 0;
        if self.left_available(mi_col) {
            proof {
                self.lemma_index(mi_row as int, mi_col - 1);
            }
            counter += mode_2_counter(self.mi[mi_row * self.mi_cols + (mi_col - 1)].mode);
        }
        if mi_row > 0 {
            proof {
                self.lemma_index(mi_row - 1, mi_col as int);
            }
            counter += mode_2_counter(self.mi[(mi_row - 1) * self.mi_cols + mi_col].mode);
        }
        proof {
            let m = spec_mode_2_counter(skip_mode(self.newmv));
            let n = b2u(mi_row > 0) + b2u(mi_col > self.tile_col_start);
            if n == 0 {
                assert(n * m == 0);
            } else if n == 1 {
                assert(n * m == m);
            } else {
                assert(n * m == m + m);
            }
        }
        counter_to_inter_mode_ctx(counter)
    }

    fn switchable_interp_context(&self, mi_row: usize, mi_col: usize) -> (ctx: usize)
        requires
            self.wf(),
            mi_row < self.mi_rows,
            self.tile_col_start <= mi_col < self.tile_col_end,
        ensures
            ctx == if mi_row > 0 || mi_col > self.tile_col_start {
                0usize
            } else {
                3usize
            },
    {
        let missing: usize = 3;
        let left = if self.left_available(mi_col) {
            proof {
                self.lemma_index(mi_row as int, mi_col - 1);
            }
            filter_number(self.mi[mi_row * self.mi_cols + mi_col - 1].interp_filter)
        } else {
            missing
        };
        let above = if mi_row > 0 {
            proof {
                self.lemma_index(mi_row - 1, mi_col as int);
            }
            filter_number(self.mi[(mi_row - 1) * self.mi_cols + mi_col].interp_filter)
        } else {
            missing
        };
        if left == above {
            left
        } else if left == missing {
            above
        } else if above == missing {
            left
        } else {
            missing
        }
    }

    /// NEWMV reference: the first neighbour inside the tile that is a LAST
    /// inter block gives its vector, clamped at this block.
    fn nearest_ref_mv(&self, mi_row: usize, mi_col: usize) -> (r: Mv)
        requires
            self.wf(),
            mi_row < self.mi_rows,
            self.tile_col_start <= mi_col < self.tile_col_end,
        ensures
            r == skip_ref_mv(self.env(), mi_row as int, mi_col as int),
    {
        let mut k: usize = 0;
        while k < 8
            invariant
                self.wf(),
                mi_row < self.mi_rows,
                self.tile_col_start <= mi_col < self.tile_col_end,
                k <= 8,
                k >= 1 ==> mi_row == 0,
                k >= 2 ==> mi_col == self.tile_col_start,
            decreases 8 - k,
        {
            let (dr, dc) = SKIP_MV_REF_NBRS[k];
            let r = mi_row as i32 + dr;
            let c = mi_col as i32 + dc;
            if self.mi_in_tile(r, c) {
                proof {
                    self.lemma_index(r as int, c as int);
                }
                let n = self.mi[r as usize * self.mi_cols + c as usize];
                if n.is_inter && n.ref_frame == LAST_FRAME {
                    return clamp_mv_ref(n.mv, mi_row, mi_col, self.mi_rows, self.mi_cols, 1, 1);
                }
            }
            k += 1;
        }
        Mv { row: 0, col: 0 }
    }

    proof fn lemma_index(&self, r: int, c: int)
        requires
            self.wf(),
            0 <= r < self.mi_rows,
            0 <= c < self.mi_cols,
        ensures
            0 <= r * self.mi_cols + c < self.mi@.len(),
            self.mi@[r * self.mi_cols + c] == skip_mi(self.mv, self.newmv),
    {
        assert(r * self.mi_cols + c < self.mi_rows * self.mi_cols) by (nonlinear_arith)
            requires
                0 <= r < self.mi_rows,
                0 <= c < self.mi_cols,
        ;
        assert(0 <= r * self.mi_cols) by (nonlinear_arith)
            requires
                0 <= r,
                0 <= self.mi_cols,
        ;
    }

    /// Code the `2^log2_tile_cols` tile columns left to right and pack them.
    fn encode_tiles(&mut self, log2_tile_cols: u32) -> (bytes: Vec<u8>)
        requires
            old(self).wf(),
            old(self).bool@ == fresh_coder(),
            log2_tile_cols <= 11,
        ensures
            final(self).wf(),
            final(self).mi_rows == old(self).mi_rows,
            final(self).mi_cols == old(self).mi_cols,
            final(self).mv == old(self).mv,
            final(self).newmv == old(self).newmv,
            bytes@ == spec_pack_tiles(
                skip_tiles(
                    old(self).mi_rows as int,
                    old(self).mi_cols as int,
                    old(self).mv,
                    old(self).newmv,
                    log2_tile_cols as nat,
                    old(self).part@,
                    vstd::arithmetic::power2::pow2(log2_tile_cols as nat),
                ).0,
            ),
    {
        let ghost rows = self.mi_rows as int;
        let ghost cols = self.mi_cols as int;
        let ghost mv = self.mv;
        let ghost newmv = self.newmv;
        let ghost l2 = log2_tile_cols as nat;
        let ghost m0 = self.part@;
        proof {
            vstd::arithmetic::power2::lemma2_to64();
            if log2_tile_cols < 11 {
                vstd::arithmetic::power2::lemma_pow2_strictly_increases(l2, 11);
            }
            vstd::bits::lemma_u32_shl_is_mul(1, log2_tile_cols);
        }
        let tile_cols: u32 = 1u32 << log2_tile_cols;
        let mut tiles: Vec<Vec<u8>> = Vec::new();
        let mut tile_col: u32 = 0;
        while tile_col < tile_cols
            invariant
                self.wf(),
                self.bool@ == fresh_coder(),
                self.mi_rows == rows,
                self.mi_cols == cols,
                self.mv == mv,
                self.newmv == newmv,
                l2 == log2_tile_cols,
                log2_tile_cols <= 11,
                tile_cols <= 2048,
                tile_col <= tile_cols,
                tile_views(tiles@) == skip_tiles(rows, cols, mv, newmv, l2, m0, tile_col as nat).0,
                self.part@ == skip_tiles(rows, cols, mv, newmv, l2, m0, tile_col as nat).1,
            decreases tile_cols - tile_col,
        {
            let (start, end) = tile_mi_col_range(self.mi_cols, log2_tile_cols, tile_col);
            proof {
                lemma_tile_range(cols, l2, tile_col as int);
            }
            self.tile_col_start = start;
            self.tile_col_end = end;
            assert(self.env() == tile_env(rows, cols, mv, newmv, l2, tile_col as int));
            let t = self.encode_one_tile();
            let ghost before = tile_views(tiles@);
            tiles.push(t);
            proof {
                assert(tile_views(tiles@) =~= before.push(t@));
            }
            tile_col += 1;
        }
        pack_tile_data(tiles.as_slice())
    }

    /// Code the current tile: superblock rows top to bottom, each left to
    /// right, then flush its bool coder (a fresh one takes its place).
    fn encode_one_tile(&mut self) -> (bytes: Vec<u8>)
        requires
            old(self).wf(),
            old(self).bool@ == fresh_coder(),
            old(self).tile_col_start % 8 == 0 || old(self).tile_col_start == old(self).mi_cols,
            old(self).tile_col_end % 8 == 0 || old(self).tile_col_end == old(self).mi_cols,
        ensures
            final(self).wf(),
            final(self).env() == old(self).env(),
            final(self).bool@ == fresh_coder(),
            bytes@ == skip_tile(old(self).env(), old(self).part@).0,
            final(self).part@ == skip_tile(old(self).env(), old(self).part@).1,
    {
        let ghost env = self.env();
        let ghost m0 = self.part@;
        let mut mi_row: usize = 0;
        while mi_row < self.mi_rows
            invariant
                self.wf(),
                self.env() == env,
                mi_row % 8 == 0,
                mi_row <= self.mi_rows + 7,
                self.tile_col_start % 8 == 0 || self.tile_col_start == self.mi_cols,
                self.tile_col_end % 8 == 0 || self.tile_col_end == self.mi_cols,
                self.bool@ == spec_put_bools(fresh_coder(), skip_tile_rows(env, m0, (mi_row / 8) as nat).0),
                self.part@ == skip_tile_rows(env, m0, (mi_row / 8) as nat).1,
            decreases env.mi_rows + 8 - mi_row,
        {
            let ghost j = (mi_row / 8) as nat;
            let ghost prev = skip_tile_rows(env, m0, j);
            self.part.left = [0u8; 8];
            assert(self.part@ == clear_left(prev.1)) by {
                assert(self.part.left@ =~= Seq::new(8, |i: int| 0u8));
            }
            let mut mi_col: usize = self.tile_col_start;
            let ghost mut k: nat = 0;
            while mi_col < self.tile_col_end
                invariant
                    self.wf(),
                    self.env() == env,
                    mi_row < self.mi_rows,
                    mi_row % 8 == 0,
                    j == mi_row / 8,
                    self.tile_col_start % 8 == 0 || self.tile_col_start == self.mi_cols,
                    self.tile_col_end % 8 == 0 || self.tile_col_end == self.mi_cols,
                    mi_col == self.tile_col_start + 8 * k,
                    mi_col <= self.tile_col_end + 7,
                    self.bool@ == spec_put_bools(
                        fresh_coder(),
                        prev.0 + skip_sb_row(env, clear_left(prev.1), mi_row as int, k).0,
                    ),
                    self.part@ == skip_sb_row(env, clear_left(prev.1), mi_row as int, k).1,
                decreases env.end + 8 - mi_col,
            {
                let ghost before = skip_sb_row(env, clear_left(prev.1), mi_row as int, k);
                self.encode_partition(mi_row, mi_col, 64);
                proof {
                    lemma_put_bools_append(
                        fresh_coder(),
                        prev.0 + before.0,
                        skip_walk(env, before.1, mi_row as int, mi_col as int, 64).0,
                    );
                    assert(prev.0 + before.0 + skip_walk(env, before.1, mi_row as int, mi_col as int, 64).0
                        =~= prev.0 + skip_sb_row(env, clear_left(prev.1), mi_row as int, k + 1).0);
                    k = k + 1;
                }
                mi_col += 8;
            }
            proof {
                assert(k == tile_sb_cols(env));
                assert(prev.0 + skip_sb_row(env, clear_left(prev.1), mi_row as int, k).0
                    == skip_tile_rows(env, m0, j + 1).0);
                assert((mi_row + 8) / 8 == j + 1);
            }
            mi_row += 8;
        }
        proof {
            assert(mi_row / 8 == frame_sb_rows(env));
        }
        let mut done = BoolEncoder::new();
        std::mem::swap(&mut done, &mut self.bool);
        proof {
            lemma_put_bools_append(fresh_coder(), skip_tile_rows(env, m0, frame_sb_rows(env)).0, flush_ops());
        }
        done.finish()
    }

    /// Code the `bsize` block at `(mi_row, mi_col)`, splitting down to 8×8.
    fn encode_partition(&mut self, mi_row: usize, mi_col: usize, bsize: u32)
        requires
            old(self).wf(),
            is_square_bsize(bsize),
            mi_row <= 0x20_0000,
            old(self).tile_col_start <= mi_col <= 0x20_0000,
            mi_col + bsize / 8 <= old(self).tile_col_end || old(self).tile_col_end == old(self).mi_cols,
        ensures
            final(self).wf(),
            final(self).env() == old(self).env(),
            final(self).part@ == skip_walk(old(self).env(), old(self).part@, mi_row as int, mi_col as int, bsize).1,
            final(self).bool@ == spec_put_bools(
                old(self).bool@,
                skip_walk(old(self).env(), old(self).part@, mi_row as int, mi_col as int, bsize).0,
            ),
        decreases bsize,
    {
        if mi_row >= self.mi_rows || mi_col >= self.mi_cols {
            return;
        }
        proof {
            lemma_partition_tokens();
        }
        let ghost env = self.env();
        let ghost m0 = self.part@;
        let ghost s0 = self.bool@;
        let mi_half = (bsize as usize / 8) / 2;
        assert(mi_half == bsize / 16);
        let has_rows = mi_row + mi_half < self.mi_rows;
        let has_cols = mi_col + mi_half < self.mi_cols;
        let partition = if bsize == 8 {
            PARTITION_NONE
        } else {
            PARTITION_SPLIT
        };
        self.part.write_partition(&mut self.bool, mi_row, mi_col, bsize, has_rows, has_cols, partition);
        let ghost pops = model_partition_ops(m0, mi_row as int, mi_col as int, bsize, has_rows, has_cols, partition);
        if bsize == 8 {
            self.encode_block(mi_row, mi_col);
            proof {
                lemma_put_bools_append(s0, pops, skip_block_ops(env, mi_row as int, mi_col as int));
            }
            self.part.update_partition_context(mi_row, mi_col, 8, 8, 8, 8);
            return;
        }
        let sub = bsize / 2;
        let ghost r1 = skip_walk(env, m0, mi_row as int, mi_col as int, sub);
        self.encode_partition(mi_row, mi_col, sub);
        proof {
            lemma_put_bools_append(s0, pops, r1.0);
        }
        let ghost r2 = skip_walk(env, r1.1, mi_row as int, mi_col + mi_half, sub);
        self.encode_partition(mi_row, mi_col + mi_half, sub);
        proof {
            lemma_put_bools_append(s0, pops + r1.0, r2.0);
        }
        let ghost r3 = skip_walk(env, r2.1, mi_row + mi_half, mi_col as int, sub);
        self.encode_partition(mi_row + mi_half, mi_col, sub);
        proof {
            lemma_put_bools_append(s0, pops + r1.0 + r2.0, r3.0);
        }
        let ghost r4 = skip_walk(env, r3.1, mi_row + mi_half, mi_col + mi_half, sub);
        self.encode_partition(mi_row + mi_half, mi_col + mi_half, sub);
        proof {
            lemma_put_bools_append(s0, pops + r1.0 + r2.0 + r3.0, r4.0);
        }
    }

    /// Code one skipped 8×8 block and record its mode info.
    fn encode_block(&mut self, mi_row: usize, mi_col: usize)
        requires
            old(self).wf(),
            mi_row < old(self).mi_rows,
            old(self).tile_col_start <= mi_col < old(self).tile_col_end,
        ensures
            final(self).wf(),
            final(self).env() == old(self).env(),
            final(self).part == old(self).part,
            final(self).bool@ == spec_put_bools(old(self).bool@, skip_block_ops(old(self).env(), mi_row as int, mi_col as int)),
    {
        proof {
            lemma_skip_trees();
        }
        let ghost env = self.env();
        let ghost s0 = self.bool@;
        let ghost a = mi_row > 0;
        let ghost l = mi_col > self.tile_col_start;
        let seg = segment_id_for_mi_col(mi_col, self.mi_cols);
        write_segment_id(&mut self.bool, seg);
        let ghost o1 = spec_segment_id_ops(seg);
        let skip_ctx = self.skip_context(mi_row, mi_col);
        self.bool.put_bool(DEFAULT_SKIP_PROBS[skip_ctx], true);
        let ii_ctx = self.intra_inter_context(mi_row, mi_col);
        self.bool.put_bool(DEFAULT_INTRA_INTER_PROBS[ii_ctx], true);
        let ref_ctx = self.single_ref_p1_context(mi_row, mi_col);
        self.bool.put_bool(DEFAULT_SINGLE_REF_PROBS[ref_ctx][0], false);
        let ghost o2 = seq![
            (DEFAULT_SKIP_PROBS[skip_ctx as int], true),
            (DEFAULT_INTRA_INTER_PROBS[0], true),
            (DEFAULT_SINGLE_REF_PROBS[ref_ctx as int][0], false),
        ];
        proof {
            lemma_put_bools_push(s0, o1, o2[0]);
            lemma_put_bools_push(s0, o1.push(o2[0]), o2[1]);
            lemma_put_bools_push(s0, o1.push(o2[0]).push(o2[1]), o2[2]);
            assert(o1.push(o2[0]).push(o2[1]).push(o2[2]) =~= o1 + o2);
        }
        let mode_ctx = self.inter_mode_context(mi_row, mi_col);
        let token = if self.newmv {
            INTER_OFFSET_NEWMV
        } else {
            INTER_OFFSET_ZEROMV
        };
        write_tree(&mut self.bool, &INTER_MODE_TREE, &DEFAULT_INTER_MODE_PROBS[mode_ctx], token);
        let ghost o3 = tree_ops(INTER_MODE_TREE@, DEFAULT_INTER_MODE_PROBS[mode_ctx as int]@, token);
        proof {
            lemma_put_bools_append(s0, o1 + o2, o3);
        }
        let filt_ctx = self.switchable_interp_context(mi_row, mi_col);
        write_tree(&mut self.bool, &SWITCHABLE_INTERP_TREE, &DEFAULT_SWITCHABLE_INTERP_PROBS[filt_ctx], 0);
        let ghost o4 = tree_ops(SWITCHABLE_INTERP_TREE@, DEFAULT_SWITCHABLE_INTERP_PROBS[filt_ctx as int]@, 0i8);
        proof {
            lemma_put_bools_append(s0, o1 + o2 + o3, o4);
        }
        if self.newmv {
            let ref_mv = self.nearest_ref_mv(mi_row, mi_col);
            proof {
                lemma_clamp_mv_diff(self.mv, ref_mv, env, mi_row as int, mi_col as int);
            }
            write_mv(&mut self.bool, self.mv, ref_mv, false);
            proof {
                lemma_put_bools_append(s0, o1 + o2 + o3 + o4, spec_mv_ops(self.mv, ref_mv, false));
            }
        } else {
            assert(o1 + o2 + o3 + o4 + seq![] =~= o1 + o2 + o3 + o4);
        }
        proof {
            self.lemma_index(mi_row as int, mi_col as int);
        }
        let idx = mi_row * self.mi_cols + mi_col;
        let mode = if self.newmv {
            NEWMV
        } else {
            ZEROMV
        };
        self.mi.set(
            idx,
            MiInfo { mode, skip: true, is_inter: true, ref_frame: LAST_FRAME, mv: self.mv, interp_filter: InterpFilter::EightTap },
        );
    }
}

/// `interp_filter` as its frame-header value.
fn filter_number(f: InterpFilter) -> (v: usize)
    ensures
        f == InterpFilter::EightTap ==> v == 0,
        v <= 3,
{
    match f {
        InterpFilter::EightTap => 0,
        InterpFilter::EightTapSmooth => 1,
        InterpFilter::EightTapSharp => 2,
        InterpFilter::Bilinear => 3,
    }
}

/// The frame vector minus its clamped copy fits an `i16` per component.
proof fn lemma_clamp_mv_diff(mv: Mv, ref_mv: Mv, env: SkipEnv, mi_row: int, mi_col: int)
    requires
        ref_mv == skip_ref_mv(env, mi_row, mi_col),
        0 <= mi_row < env.mi_rows,
        0 <= mi_col < env.mi_cols,
        mv == env.mv,
    ensures
        i16::MIN <= mv.row - ref_mv.row <= i16::MAX,
        i16::MIN <= mv.col - ref_mv.col <= i16::MAX,
{
}

/// The least tile-column exponent is at most `k` when `64 · 2^k` superblocks
/// cover the frame.
proof fn lemma_min_log2_le(sb: int, k: nat, top: nat)
    requires
        k <= top,
        sb <= 64 * pow2(top),
    ensures
        k <= spec_min_log2_from(sb, k) <= top,
    decreases top - k,
{
    if 64 * pow2(k) < sb {
        lemma_lt_pow2(k);
        if k == top {
            assert(false);
        }
        lemma_min_log2_le(sb, k + 1, top);
    }
}

/// Past its starting point, the least exponent leaves fewer superblocks
/// than the frame has one step below it.
proof fn lemma_min_log2_prev(sb: int, k: nat)
    ensures
        spec_min_log2_from(sb, k) > k ==> 64 * pow2((spec_min_log2_from(sb, k) - 1) as nat) < sb,
    decreases sb - k,
{
    if 64 * pow2(k) < sb {
        lemma_lt_pow2(k);
        lemma_min_log2_prev(sb, k + 1);
    }
}

/// The greatest exponent found from `m` is at least `m - 1`.
proof fn lemma_max_log2_floor(sb: int, m: nat)
    requires
        m >= 1,
    ensures
        spec_max_log2_from(sb, m) >= m - 1,
    decreases sb - pow2(m),
{
    if sb / (pow2(m) as int) >= 4 {
        vstd::arithmetic::power2::lemma_pow2_unfold(m + 1);
        vstd::arithmetic::power2::lemma_pow2_pos(m);
        assert(sb >= 4 * pow2(m)) by (nonlinear_arith)
            requires
                sb / (pow2(m) as int) >= 4,
                pow2(m) > 0,
        ;
        lemma_max_log2_floor(sb, m + 1);
    }
}

/// The greatest exponent reaches `j` when `sb / 2^j` is still at least 4.
proof fn lemma_max_log2_ge(sb: int, m: nat, j: nat)
    requires
        1 <= m <= j,
        sb >= 0,
        sb / (pow2(j) as int) >= 4,
    ensures
        spec_max_log2_from(sb, m) >= j,
    decreases j - m,
{
    vstd::arithmetic::power2::lemma_pow2_pos(m);
    if m < j {
        vstd::arithmetic::power2::lemma_pow2_strictly_increases(m, j);
    }
    vstd::arithmetic::div_mod::lemma_div_is_ordered_by_denominator(sb, pow2(m) as int, pow2(j) as int);
    if m < j {
        lemma_max_log2_ge(sb, m + 1, j);
    } else {
        lemma_max_log2_floor(sb, m + 1);
    }
}

/// For frames up to `2^23` pixels wide the chosen tile-column exponent lies
/// within the allowed bounds and is at most 11.
pub(crate) proof fn lemma_log2_choice(width: u32)
    requires
        width <= 0x80_0000,
    ensures
        spec_min_log2_from(sb_cols_of(width), 0) <= spec_choose_log2_tile_cols(width) <= spec_max_log2_from(
            sb_cols_of(width),
            1,
        ),
        0 <= spec_choose_log2_tile_cols(width) <= 11,
{
    let sb = sb_cols_of(width);
    vstd::arithmetic::power2::lemma2_to64();
    assert(sb <= 64 * pow2(11));
    lemma_min_log2_le(sb, 0, 11);
    let lo = spec_min_log2_from(sb, 0);
    let hi = spec_max_log2_from(sb, 1);
    if lo >= 1 {
        lemma_min_log2_prev(sb, 0);
        vstd::arithmetic::power2::lemma_pow2_unfold(lo);
        vstd::arithmetic::power2::lemma_pow2_pos(lo);
        let p = pow2(lo) as int;
        assert(sb / p >= 4) by (nonlinear_arith)
            requires
                32 * p < sb,
                p > 0,
        ;
        lemma_max_log2_ge(sb, 1, lo);
    }
}

/// Each segment-feature slot takes at most ten header bits.
proof fn lemma_seg_feature_len(k: nat)
    ensures
        seg_feature_bits(k).len() <= 10 * k,
    decreases k,
{
    if k > 0 {
        lemma_seg_feature_len((k - 1) as nat);
    }
}

/// The inter-frame uncompressed header is short.
proof fn lemma_inter_header_len(width: u32, header_size: u32, l2: u32)
    requires
        spec_min_log2_from(sb_cols_of(width), 0) <= l2 <= 11,
    ensures
        spec_inter_header_bits(width, header_size, 1, l2).len() <= 1000,
{
    assert(spec_inter_header_head(1).len() == 18);
    assert(spec_ref_bits().len() == 12);
    assert(spec_inter_header_mid().len() == 30);
    lemma_seg_feature_len(32);
    assert(spec_segmentation_params_bits().len() <= 12 + 320);
    assert(spec_tile_info_bits(width, l2).len() <= 13);
}

/// Position `k` of a `w × h` plane is row `k / w`, column `k % w`.
pub(crate) proof fn lemma_plane_index(k: int, w: int, h: int)
    requires
        0 <= k < w * h,
        w > 0,
    ensures
        0 <= k / w < h,
        0 <= k % w < w,
        lin(k / w, w, k % w) == k,
{
    let q = k / w;
    let r = k % w;
    vstd::arithmetic::div_mod::lemma_fundamental_div_mod(k, w);
    vstd::arithmetic::div_mod::lemma_div_pos_is_pos(k, w);
    vstd::arithmetic::div_mod::lemma_mod_pos_bound(k, w);
    assert(q < h) by (nonlinear_arith)
        requires
            k == w * q + r,
            0 <= r,
            k < w * h,
            w > 0,
    ;
    vstd::arithmetic::mul::lemma_mul_is_commutative(w, q);
}

/// A `w × h` plane predicted from `p` displaced by `mv` with the regular
/// 8-tap filter (`chroma` for a 4:2:0 chroma plane).
pub open spec fn mc_plane(p: Seq<u8>, w: int, h: int, mv: Mv, chroma: bool) -> Seq<u8> {
    Seq::new(
        (w * h) as nat,
        |k: int| spec_inter_pixel(p, w, w, h, 0, 0, mv.row, mv.col, chroma, InterpFilter::EightTap, k / w, k % w),
    )
}

fn predict_plane(p: &Vec<u8>, w: usize, h: usize, mv: Mv, chroma: bool) -> (out: Vec<u8>)
    requires
        w <= 0x1000_0000,
        h <= 0x1000_0000,
        (h + 7) * w <= usize::MAX,
        p@.len() >= w * h,
    ensures
        out@ == mc_plane(p@, w as int, h as int, mv, chroma),
{
    assert(w * h <= (h + 7) * w) by (nonlinear_arith);
    let mut out = vec![0u8; w * h];
    if w == 0 || h == 0 {
        assert(out@ =~= mc_plane(p@, w as int, h as int, mv, chroma));
        return out;
    }
    assert((h - 1) * w + w == w * h) by (nonlinear_arith)
        requires
            h >= 1,
    ;
    predict_inter(p.as_slice(), w, w, h, 0, 0, w, h, mv.row, mv.col, chroma, InterpFilter::EightTap, out.as_mut_slice());
    assert forall|k: int| 0 <= k < w * h implies out@[k] == mc_plane(p@, w as int, h as int, mv, chroma)[k] by {
        lemma_plane_index(k, w as int, h as int);
        assert(out@[lin(k / w as int, w as int, k % w as int)] == spec_inter_pixel(
            p@,
            w as int,
            w as int,
            h as int,
            0,
            0,
            mv.row,
            mv.col,
            chroma,
            InterpFilter::EightTap,
            k / w as int,
            k % w as int,
        ));
    }
    assert(out@ =~= mc_plane(p@, w as int, h as int, mv, chroma));
    out
}

/// Whole-pel luma motion shifts the plane: each sample is the reference
/// sample displaced by the vector, clamped to the plane's edges.
pub proof fn law_fullpel_motion_is_shift(y: Seq<u8>, w: int, h: int, mv: Mv, k: int)
    requires
        w > 0,
        0 <= k < w * h,
        mv.row % 8 == 0,
        mv.col % 8 == 0,
    ensures
        mc_plane(y, w, h, mv, false)[k] == spec_sample(y, w, w, h, k % w + mv.col / 8, k / w + mv.row / 8),
{
    lemma_plane_index(k, w, h);
    law_fullpel_is_copy(y, w, w, h, 0, 0, mv.row, mv.col, InterpFilter::EightTap, k / w, k % w);
}

/// Motion-compensate every plane of `reference` by `mv` with the regular
/// 8-tap filter, samples beyond the edges clamped to them.
pub fn motion_compensate(reference: &Reconstruction, mv: Mv) -> (out: Reconstruction)
    requires
        reference.width <= 0x1000_0000,
        reference.height <= 0x1000_0000,
        (reference.height + 7) * reference.width <= usize::MAX,
        reference.y@.len() >= reference.width * reference.height,
        reference.u@.len() >= (reference.width / 2) * (reference.height / 2),
        reference.v@.len() >= (reference.width / 2) * (reference.height / 2),
    ensures
        out.width == reference.width,
        out.height == reference.height,
        out.y@ == mc_plane(reference.y@, reference.width as int, reference.height as int, mv, false),
        out.u@ == mc_plane(reference.u@, (reference.width / 2) as int, (reference.height / 2) as int, mv, true),
        out.v@ == mc_plane(reference.v@, (reference.width / 2) as int, (reference.height / 2) as int, mv, true),
{
    let w = reference.width as usize;
    let h = reference.height as usize;
    let y = predict_plane(&reference.y, w, h, mv, false);
    let cw = w / 2;
    let ch = h / 2;
    assert((ch + 7) * cw <= (h + 7) * w) by (nonlinear_arith)
        requires
            cw <= w,
            ch <= h,
    ;
    let u = predict_plane(&reference.u, cw, ch, mv, true);
    let v = predict_plane(&reference.v, cw, ch, mv, true);
    Reconstruction { width: reference.width, height: reference.height, y, u, v }
}

/// What the skip-frame encoders take: a reference of whole 8×8 blocks
/// whose planes hold at least a `w × h` luma and two `w/2 × h/2` chroma
/// planes, within the sizes the arithmetic allows.
pub open spec fn skip_reference_ok(r: &Reconstruction) -> bool {
    &&& 8 <= r.width <= 0x80_0000
    &&& 8 <= r.height <= 0x80_0000
    &&& r.width % 8 == 0
    &&& r.height % 8 == 0
    &&& (r.width + 64) * (r.height + 64) <= usize::MAX
    &&& r.y@.len() >= r.width * r.height
    &&& r.u@.len() >= (r.width / 2) * (r.height / 2)
    &&& r.v@.len() >= (r.width / 2) * (r.height / 2)
}

/// Loop-filter info of every block of a skip frame: skipped inter 8×8
/// blocks with an 8×8 transform at the frame level adjusted for LAST and
/// the block's mode.
pub open spec fn skip_lf_mi(newmv: bool) -> LfMi {
    LfMi {
        skip: true,
        is_inter: true,
        tx_size_y: 1,
        bw_mi: 1,
        bh_mi: 1,
        bsize_idx: 3,
        block_origin: true,
        level: spec_lf_level(FILTER_LEVEL, LAST_FRAME, skip_mode(newmv)),
    }
}

/// The loop-filter grid of a skip frame with `n` blocks.
pub open spec fn skip_lf_grid(newmv: bool, n: nat) -> Seq<LfMi> {
    Seq::new(n, |i: int| skip_lf_mi(newmv))
}

/// A `w × h` luma plane of a skip frame after in-loop deblocking.
pub open spec fn skip_deblock_luma(y: Seq<u8>, w: int, h: int, newmv: bool) -> Seq<u8> {
    let (sw, sh) = (sb_align(w), sb_align(h));
    let (rows, cols) = (h / 8, w / 8);
    crop_plane(deblocked_luma(pad_plane(y, w, h, sw, sh), sw, skip_lf_grid(newmv, (rows * cols) as nat), rows, cols), w, h, sw)
}

/// A chroma plane of a `w × h` skip frame after in-loop deblocking.
pub open spec fn skip_deblock_chroma(u: Seq<u8>, w: int, h: int, newmv: bool) -> Seq<u8> {
    let (sw, sh) = (sb_align(w), sb_align(h));
    let (rows, cols) = (h / 8, w / 8);
    crop_plane(
        deblocked_chroma(pad_plane(u, w / 2, h / 2, sw / 2, sh / 2), sw / 2, skip_lf_grid(newmv, (rows * cols) as nat), rows, cols),
        w / 2,
        h / 2,
        sw / 2,
    )
}

/// The coded skip frame: uncompressed header (refreshing LAST only),
/// compressed header, then the tile columns.
pub open spec fn skip_frame_bytes(width: u32, height: u32, mv: Mv, newmv: bool) -> Seq<u8> {
    let mi_rows = (height / 8) as int;
    let mi_cols = (width / 8) as int;
    let compressed = spec_encode(spec_compressed_header_inter_ops(RefMode::Single));
    let l2 = spec_choose_log2_tile_cols(width);
    let m0 = PartitionModel { above: Seq::new(mi_cols as nat, |c: int| 0u8), left: Seq::new(8, |r: int| 0u8) };
    let tiles = skip_tiles(mi_rows, mi_cols, mv, newmv, l2 as nat, m0, pow2(l2 as nat)).0;
    spec_finalize_frame(
        pack_bits(spec_inter_header_bits(width, compressed.len() as u32, 1, l2 as u32)) + compressed
            + spec_pack_tiles(tiles),
    )
}

/// The frame and reconstruction a skip encoder returns for `reference`.
pub open spec fn skip_result(reference: &Reconstruction, mv: Mv, newmv: bool, r: (Vec<u8>, Reconstruction)) -> bool {
    let w = reference.width as int;
    let h = reference.height as int;
    &&& r.0@ == skip_frame_bytes(reference.width, reference.height, mv, newmv)
    &&& r.1.width == reference.width
    &&& r.1.height == reference.height
    &&& r.1.y@ == skip_deblock_luma(mc_plane(reference.y@, w, h, mv, false), w, h, newmv)
    &&& r.1.u@ == skip_deblock_chroma(mc_plane(reference.u@, w / 2, h / 2, mv, true), w, h, newmv)
    &&& r.1.v@ == skip_deblock_chroma(mc_plane(reference.v@, w / 2, h / 2, mv, true), w, h, newmv)
}

proof fn lemma_skip_grid_ok(newmv: bool, rows: int, cols: int)
    requires
        0 <= rows,
        0 <= cols,
    ensures
        mi_ok(skip_lf_grid(newmv, (rows * cols) as nat), rows, cols),
{
    let g = skip_lf_grid(newmv, (rows * cols) as nat);
    assert(0 <= rows * cols) by (nonlinear_arith)
        requires
            0 <= rows,
            0 <= cols,
    ;
    assert forall|row: int, col: int|
        0 <= row < rows && 0 <= col < cols && (#[trigger] mi_at(g, cols, row, col)).block_origin && mi_at(
            g,
            cols,
            row,
            col,
        ).level != 0 implies ({
        let e = mi_at(g, cols, row, col);
        e.tx_size_y < 4 && e.bsize_idx < 13 && block_fits(e.bw_mi as int, e.bh_mi as int, row % 8, col % 8)
    }) by {
        assert(0 <= row * cols + col < rows * cols) by (nonlinear_arith)
            requires
                0 <= row < rows,
                0 <= col < cols,
        ;
    }
}

/// Encode a showable P-frame whose every 8×8 block is LAST / skip with the
/// motion vector `mv` (`newmv` codes it as NEWMV, else ZEROMV), and its
/// deblocked reconstruction.
fn encode_inter_skip(reference: &Reconstruction, mv: Mv, newmv: bool) -> (r: (Vec<u8>, Reconstruction))
    requires
        skip_reference_ok(reference),
    ensures
        skip_result(reference, mv, newmv, r),
{
    let w = reference.width;
    let h = reference.height;
    let mi_cols = w as usize / 8;
    let mi_rows = h as usize / 8;
    proof {
        assert(mi_rows * mi_cols <= (h + 64) * (w + 64)) by (nonlinear_arith)
            requires
                mi_rows <= h + 64,
                mi_cols <= w + 64,
        ;
    }
    let mut enc = InterEnc::new(mi_rows, mi_cols, mv, newmv);
    let ghost m0 = enc.part@;
    let compressed = compressed_header_inter(RefMode::Single);
    let log2_tile_cols = choose_log2_tile_cols(w);
    proof {
        lemma_log2_choice(w);
        assert(m0.above =~= Seq::new(mi_cols as nat, |c: int| 0u8));
        assert(m0.left =~= Seq::new(8, |r: int| 0u8));
    }
    let tile = enc.encode_tiles(log2_tile_cols);
    let mut wb = BitWriter::new();
    write_uncompressed_inter_header(&mut wb, w, h, compressed.len() as u32, 0x01, log2_tile_cols);
    proof {
        lemma_inter_header_len(w, compressed.len() as u32, log2_tile_cols);
    }
    let mut out = wb.finish();
    out.extend_from_slice(compressed.as_slice());
    out.extend_from_slice(tile.as_slice());
    proof {
        let l2 = spec_choose_log2_tile_cols(w);
        let m_start = PartitionModel {
            above: Seq::new(mi_cols as nat, |c: int| 0u8),
            left: Seq::new(8, |r: int| 0u8),
        };
        assert(m0 == m_start);
        assert(log2_tile_cols as int == l2);
        assert(tile@ == spec_pack_tiles(
            skip_tiles(mi_rows as int, mi_cols as int, mv, newmv, l2 as nat, m_start, pow2(l2 as nat)).0,
        ));
        assert(out@ == pack_bits(spec_inter_header_bits(w, compressed@.len() as u32, 1, l2 as u32)) + compressed@
            + tile@);
    }
    proof {
        assert((h + 7) * w <= (h + 64) * (w + 64)) by (nonlinear_arith);
    }
    let mut recon = motion_compensate(reference, mv);
    let n = enc.mi.len();
    let mut lf_mi: Vec<LfMi> = Vec::new();
    let mut i: usize = 0;
    while i < n
        invariant
            enc.wf(),
            enc.mv == mv,
            enc.newmv == newmv,
            n == enc.mi@.len(),
            i <= n,
            lf_mi@ =~= skip_lf_grid(newmv, i as nat),
        decreases n - i,
    {
        let m = enc.mi[i];
        let level = lf_level_for_mi(FILTER_LEVEL, m.ref_frame, m.mode);
        lf_mi.push(
            LfMi {
                skip: m.skip,
                is_inter: m.is_inter,
                tx_size_y: 1,
                bw_mi: 1,
                bh_mi: 1,
                bsize_idx: partition_ctx_index_wh(8, 8),
                block_origin: true,
                level,
            },
        );
        i += 1;
    }
    proof {
        lemma_skip_grid_ok(newmv, mi_rows as int, mi_cols as int);
        let ww = w as int;
        let hh = h as int;
        assert(sb_align(ww) <= ww + 64 && sb_align(hh) <= hh + 64);
        assert(sb_align(ww) * sb_align(hh) <= (ww + 64) * (hh + 64)) by (nonlinear_arith)
            requires
                0 <= sb_align(ww) <= ww + 64,
                0 <= sb_align(hh) <= hh + 64,
        ;
        assert(sb_count(mi_cols as int) <= (ww + 63) / 64);
        assert(sb_count(mi_rows as int) <= (hh + 63) / 64);
    }
    apply_loop_filter(&mut recon, lf_mi.as_slice(), mi_rows, mi_cols);
    (finalize_frame(out), recon)
}

/// Encode a showable P-frame that copies `reference`: every 8×8 block is
/// LAST / ZEROMV / skip. The reconstruction is the reference, deblocked.
pub fn encode_inter_zeromv_skip(reference: &Reconstruction) -> (r: (Vec<u8>, Reconstruction))
    requires
        skip_reference_ok(reference),
    ensures
        skip_result(reference, Mv { row: 0, col: 0 }, false, r),
        r.1.y@ == skip_deblock_luma(
            reference.y@.take(reference.width * reference.height),
            reference.width as int,
            reference.height as int,
            false,
        ),
        r.1.y@ == loop_filtered_luma(
            reference.y@.take(reference.width * reference.height),
            reference.width as int,
            reference.height as int,
            skip_lf_grid(false, ((reference.height / 8) * (reference.width / 8)) as nat),
            (reference.height / 8) as int,
            (reference.width / 8) as int,
        ),
{
    let r = encode_inter_skip(reference, Mv { row: 0, col: 0 }, false);
    proof {
        let w = reference.width as int;
        let h = reference.height as int;
        let zero = Mv { row: 0, col: 0 };
        assert forall|k: int| 0 <= k < w * h implies mc_plane(reference.y@, w, h, zero, false)[k]
            == reference.y@[k] by {
            lemma_plane_index(k, w, h);
            law_fullpel_is_copy(reference.y@, w, w, h, 0, 0, 0, 0, InterpFilter::EightTap, k / w, k % w);
        }
        assert(mc_plane(reference.y@, w, h, zero, false) =~= reference.y@.take(w * h));
        law_skip_deblock_is_loop_filter(reference.y@.take(w * h), w, h, false);
    }
    r
}

/// A skip frame's luma is the motion-compensated plane run through the
/// frame-level loop filter (`apply_loop_filter`) with the skip frame's
/// grid: every 8×8 block skipped, inter, 8×8 transform, at the LAST-frame
/// level of its mode.
pub proof fn law_skip_deblock_is_loop_filter(y: Seq<u8>, w: int, h: int, newmv: bool)
    ensures
        skip_deblock_luma(y, w, h, newmv) == loop_filtered_luma(
            y,
            w,
            h,
            skip_lf_grid(newmv, ((h / 8) * (w / 8)) as nat),
            h / 8,
            w / 8,
        ),
{
}

/// Encode a showable P-frame whose every 8×8 block is LAST / NEWMV / skip
/// with the vector `(mv_row_q3, mv_col_q3)` in 1/8-pel luma units (even:
/// high-precision vectors are off; non-zero: a zero vector is ZEROMV).
pub fn encode_inter_newmv_skip(reference: &Reconstruction, mv_row_q3: i16, mv_col_q3: i16) -> (r: (
    Vec<u8>,
    Reconstruction,
))
    requires
        skip_reference_ok(reference),
        mv_row_q3 % 2 == 0,
        mv_col_q3 % 2 == 0,
        mv_row_q3 != 0 || mv_col_q3 != 0,
    ensures
        skip_result(reference, Mv { row: mv_row_q3, col: mv_col_q3 }, true, r),
{
    encode_inter_skip(reference, Mv { row: mv_row_q3, col: mv_col_q3 }, true)
}

} // verus!
