//! Entropy contexts and reference-MV candidates derived from the mode info
//! of already-coded neighbours (libvpx `vp9_get_pred_context_*`,
//! `find_mv_refs_idx`), as the residual inter encoder uses them.
use vstd::prelude::*;
use crate::vp9::inter::{FILTER_LEVEL, clamp_mv_ref, spec_clamp_mv_ref, scale_mv_for_ref, spec_scale_mv_for_ref};
use crate::vp9::mc::InterpFilter;
use crate::vp9::mv::Mv;
use crate::vp9::loopfilter::{LfMi, lf_level_for_mi, spec_lf_level};
use crate::vp9::bool_coder::{BoolEncoder, spec_put_bools, lemma_put_bools_push};
use crate::vp9::tables::{
    DEFAULT_TX_PROBS_8, DEFAULT_TX_PROBS_16, DEFAULT_TX_PROBS_32, TX_4X4, TX_8X8, TX_16X16,
    max_tx_size_wh, spec_max_tx_size_wh, partition_ctx_index_wh, spec_partition_ctx_index_wh, ALTREF_FRAME, GOLDEN_FRAME, INTRA_FRAME, LAST_FRAME, counter_to_inter_mode_ctx, mode_2_counter,
    spec_counter_to_inter_mode_ctx, spec_mode_2_counter,
};

verus! {

/// Compound prediction always pairs the fixed ALTREF with a variable
/// LAST or GOLDEN reference.
pub const COMP_FIXED_REF: i8 = ALTREF_FRAME;
pub const COMP_VAR_REF: [i8; 2] = [LAST_FRAME, GOLDEN_FRAME];

/// Mode info of one 8×8 unit.
#[derive(Clone, Copy, Debug)]
pub struct ResidualMi {
    pub skip: bool,
    pub is_inter: bool,
    pub ref_frame: i8,
    /// Second reference for compound prediction; `INTRA_FRAME` when single.
    pub second_ref: i8,
    pub mode: i8,
    pub mv: Mv,
    pub mv1: Mv,
    pub bw_px: u32,
    pub bh_px: u32,
    /// True only on the top-left unit of its coding block.
    pub block_origin: bool,
    /// Coded (or implied) transform size.
    pub tx_size: u8,
    pub interp_filter: InterpFilter,
}

impl ResidualMi {
    /// Whether the unit uses two references.
    pub fn is_compound(self) -> (b: bool)
        ensures
            b == (self.second_ref > INTRA_FRAME),
    {
        self.second_ref > INTRA_FRAME
    }
}

/// `interp_filter` as its frame-header value.
pub open spec fn filter_index(f: InterpFilter) -> int {
    match f {
        InterpFilter::EightTap => 0,
        InterpFilter::EightTapSmooth => 1,
        InterpFilter::EightTapSharp => 2,
        InterpFilter::Bilinear => 3,
    }
}

fn filter_value(f: InterpFilter) -> (v: usize)
    ensures
        v == filter_index(f),
{
    match f {
        InterpFilter::EightTap => 0,
        InterpFilter::EightTapSmooth => 1,
        InterpFilter::EightTapSharp => 2,
        InterpFilter::Bilinear => 3,
    }
}

/// The mode-info grid of a frame, with the tile columns being coded.
pub struct MiGrid {
    pub mi: Vec<ResidualMi>,
    pub mi_cols: usize,
    pub mi_rows: usize,
    pub tile_col_start: usize,
    pub tile_col_end: usize,
}

proof fn lemma_index(r: int, c: int, rows: int, cols: int)
    requires
        0 <= r < rows,
        0 <= c < cols,
    ensures
        0 <= r * cols + c < rows * cols,
{
    assert(r * cols + c < rows * cols) by (nonlinear_arith)
        requires
            0 <= r < rows,
            0 <= c < cols,
    ;
    assert(0 <= r * cols) by (nonlinear_arith)
        requires
            0 <= r,
            0 <= c < cols,
    ;
}

/// The mode-info grid as the contracts see it.
pub struct MiGridView {
    pub mi: Seq<ResidualMi>,
    pub mi_cols: usize,
    pub mi_rows: usize,
    pub tile_col_start: usize,
    pub tile_col_end: usize,
}

impl View for MiGrid {
    type V = MiGridView;

    open spec fn view(&self) -> MiGridView {
        MiGridView {
            mi: self.mi@,
            mi_cols: self.mi_cols,
            mi_rows: self.mi_rows,
            tile_col_start: self.tile_col_start,
            tile_col_end: self.tile_col_end,
        }
    }
}

impl MiGridView {
    /// One record per unit; the tile lies inside the frame.
    pub open spec fn wf(&self) -> bool {
        &&& self.mi.len() == self.mi_rows * self.mi_cols
        &&& self.tile_col_start <= self.tile_col_end <= self.mi_cols
        &&& self.mi_rows <= 0x10_0000
        &&& self.mi_cols <= 0x10_0000
    }

    /// A unit position inside the frame.
    pub open spec fn pos_ok(&self, r: int, c: int) -> bool {
        0 <= r < self.mi_rows && 0 <= c < self.mi_cols
    }

    /// The unit at row `r`, column `c`.
    pub open spec fn at(&self, r: int, c: int) -> ResidualMi {
        self.mi[r * self.mi_cols + c]
    }

    /// The unit above, if there is a row above.
    pub open spec fn above(&self, r: int, c: int) -> Option<ResidualMi> {
        if r > 0 {
            Some(self.at(r - 1, c))
        } else {
            None
        }
    }

    /// The unit to the left, if it lies in the same tile.
    pub open spec fn left(&self, r: int, c: int) -> Option<ResidualMi> {
        if c > self.tile_col_start {
            Some(self.at(r, c - 1))
        } else {
            None
        }
    }

    /// Whether `(r, c)` is a unit of the current tile.
    pub open spec fn in_tile(&self, r: int, c: int) -> bool {
        0 <= r < self.mi_rows && self.tile_col_start <= c < self.tile_col_end
    }
}

impl MiGrid {
    pub open spec fn wf(&self) -> bool {
        self@.wf()
    }

    pub open spec fn pos_ok(&self, r: int, c: int) -> bool {
        self@.pos_ok(r, c)
    }

    pub open spec fn at(&self, r: int, c: int) -> ResidualMi {
        self@.at(r, c)
    }

    pub open spec fn above(&self, r: int, c: int) -> Option<ResidualMi> {
        self@.above(r, c)
    }

    pub open spec fn left(&self, r: int, c: int) -> Option<ResidualMi> {
        self@.left(r, c)
    }

    pub open spec fn in_tile(&self, r: int, c: int) -> bool {
        self@.in_tile(r, c)
    }

    fn get(&self, r: usize, c: usize) -> (m: ResidualMi)
        requires
            self.wf(),
            self.pos_ok(r as int, c as int),
        ensures
            m == self.at(r as int, c as int),
    {
        let n = self.mi.len();
        proof {
            lemma_index(r as int, c as int, self.mi_rows as int, self.mi_cols as int);
        }
        self.mi[r * self.mi_cols + c]
    }

    fn above_mi(&self, r: usize, c: usize) -> (m: Option<ResidualMi>)
        requires
            self.wf(),
            self.pos_ok(r as int, c as int),
        ensures
            m == self.above(r as int, c as int),
    {
        if r > 0 {
            Some(self.get(r - 1, c))
        } else {
            None
        }
    }

    fn left_mi(&self, r: usize, c: usize) -> (m: Option<ResidualMi>)
        requires
            self.wf(),
            self.pos_ok(r as int, c as int),
        ensures
            m == self.left(r as int, c as int),
    {
        if self.left_available(c) {
            Some(self.get(r, c - 1))
        } else {
            None
        }
    }

    /// Whether `(r, c)` lies in the current tile.
    pub fn mi_in_tile(&self, r: i32, c: i32) -> (b: bool)
        ensures
            b == self.in_tile(r as int, c as int),
    {
        r >= 0 && (r as usize) < self.mi_rows && c >= 0 && (c as usize) >= self.tile_col_start && (c
            as usize) < self.tile_col_end
    }

    /// Whether the unit left of column `mi_col` is in the current tile.
    pub fn left_available(&self, mi_col: usize) -> (b: bool)
        ensures
            b == (mi_col > self.tile_col_start),
    {
        mi_col > self.tile_col_start
    }
}

/// Skip context: how many of the available neighbours were skipped.
pub open spec fn spec_skip_context(a: Option<ResidualMi>, l: Option<ResidualMi>) -> int {
    (if a matches Some(m) && m.skip { 1int } else { 0int }) + (if l matches Some(m) && m.skip {
        1int
    } else {
        0int
    })
}

/// Intra/inter context: 0 both inter, 1 one intra, 3 both intra; with one
/// neighbour, 2 if it is intra; 0 with none.
pub open spec fn spec_intra_inter_context(a: Option<ResidualMi>, l: Option<ResidualMi>) -> int {
    match (a, l) {
        (Some(x), Some(y)) => if !x.is_inter && !y.is_inter {
            3
        } else if !x.is_inter || !y.is_inter {
            1
        } else {
            0
        },
        (Some(e), None) => if !e.is_inter { 2 } else { 0 },
        (None, Some(e)) => if !e.is_inter { 2 } else { 0 },
        (None, None) => 0,
    }
}

pub open spec fn is_comp(m: ResidualMi) -> bool {
    m.second_ref > INTRA_FRAME
}

pub open spec fn uses_ref(m: ResidualMi, rf: i8) -> bool {
    m.ref_frame == rf || m.second_ref == rf
}

pub open spec fn b2u(b: bool) -> int {
    if b { 1 } else { 0 }
}

/// Context of the first single-reference bit (LAST against the others).
pub open spec fn spec_single_ref_p1(a: Option<ResidualMi>, l: Option<ResidualMi>) -> int {
    match (a, l) {
        (Some(x), Some(y)) => if !x.is_inter && !y.is_inter {
            2
        } else if !x.is_inter || !y.is_inter {
            let edge = if !x.is_inter { y } else { x };
            if !is_comp(edge) {
                4 * b2u(edge.ref_frame == LAST_FRAME)
            } else {
                1 + b2u(uses_ref(edge, LAST_FRAME))
            }
        } else if is_comp(x) && is_comp(y) {
            1 + b2u(uses_ref(x, LAST_FRAME) || uses_ref(y, LAST_FRAME))
        } else if is_comp(x) || is_comp(y) {
            let rfs = if !is_comp(x) { x.ref_frame } else { y.ref_frame };
            let c = if is_comp(x) { x } else { y };
            if rfs == LAST_FRAME {
                3 + b2u(uses_ref(c, LAST_FRAME))
            } else {
                b2u(uses_ref(c, LAST_FRAME))
            }
        } else {
            2 * b2u(x.ref_frame == LAST_FRAME) + 2 * b2u(y.ref_frame == LAST_FRAME)
        },
        (Some(e), None) => spec_single_ref_p1_one(e),
        (None, Some(e)) => spec_single_ref_p1_one(e),
        (None, None) => 2,
    }
}

pub open spec fn spec_single_ref_p1_one(e: ResidualMi) -> int {
    if !e.is_inter {
        2
    } else if !is_comp(e) {
        4 * b2u(e.ref_frame == LAST_FRAME)
    } else {
        1 + b2u(uses_ref(e, LAST_FRAME))
    }
}

/// Context of the second single-reference bit (GOLDEN against ALTREF).
pub open spec fn spec_single_ref_p2(a: Option<ResidualMi>, l: Option<ResidualMi>) -> int {
    match (a, l) {
        (Some(x), Some(y)) => if !x.is_inter && !y.is_inter {
            2
        } else if !x.is_inter || !y.is_inter {
            let edge = if !x.is_inter { y } else { x };
            if !is_comp(edge) {
                if edge.ref_frame == LAST_FRAME {
                    3
                } else {
                    4 * b2u(edge.ref_frame == GOLDEN_FRAME)
                }
            } else {
                1 + 2 * b2u(uses_ref(edge, GOLDEN_FRAME))
            }
        } else if is_comp(x) && is_comp(y) {
            if x.ref_frame == y.ref_frame && x.second_ref == y.second_ref {
                3 * b2u(uses_ref(x, GOLDEN_FRAME) || uses_ref(y, GOLDEN_FRAME))
            } else {
                2
            }
        } else if is_comp(x) || is_comp(y) {
            let rfs = if !is_comp(x) { x.ref_frame } else { y.ref_frame };
            let c = if is_comp(x) { x } else { y };
            if rfs == GOLDEN_FRAME {
                3 + b2u(uses_ref(c, GOLDEN_FRAME))
            } else if rfs == ALTREF_FRAME {
                b2u(uses_ref(c, GOLDEN_FRAME))
            } else {
                1 + 2 * b2u(uses_ref(c, GOLDEN_FRAME))
            }
        } else if x.ref_frame == LAST_FRAME && y.ref_frame == LAST_FRAME {
            3
        } else if x.ref_frame == LAST_FRAME || y.ref_frame == LAST_FRAME {
            let edge0 = if x.ref_frame == LAST_FRAME { y.ref_frame } else { x.ref_frame };
            4 * b2u(edge0 == GOLDEN_FRAME)
        } else {
            2 * b2u(x.ref_frame == GOLDEN_FRAME) + 2 * b2u(y.ref_frame == GOLDEN_FRAME)
        },
        (Some(e), None) => spec_single_ref_p2_one(e),
        (None, Some(e)) => spec_single_ref_p2_one(e),
        (None, None) => 2,
    }
}

pub open spec fn spec_single_ref_p2_one(e: ResidualMi) -> int {
    if !e.is_inter || (e.ref_frame == LAST_FRAME && !is_comp(e)) {
        2
    } else if !is_comp(e) {
        4 * b2u(e.ref_frame == GOLDEN_FRAME)
    } else {
        3 * b2u(uses_ref(e, GOLDEN_FRAME))
    }
}

/// Context of the single/compound choice.
pub open spec fn spec_comp_inter_context(a: Option<ResidualMi>, l: Option<ResidualMi>) -> int {
    match (a, l) {
        (Some(x), Some(y)) => if !is_comp(x) && !is_comp(y) {
            b2u((x.ref_frame == COMP_FIXED_REF) != (y.ref_frame == COMP_FIXED_REF))
        } else if !is_comp(x) {
            2 + b2u(x.ref_frame == COMP_FIXED_REF || !x.is_inter)
        } else if !is_comp(y) {
            2 + b2u(y.ref_frame == COMP_FIXED_REF || !y.is_inter)
        } else {
            4
        },
        (Some(e), None) => if !is_comp(e) { b2u(e.ref_frame == COMP_FIXED_REF) } else { 3 },
        (None, Some(e)) => if !is_comp(e) { b2u(e.ref_frame == COMP_FIXED_REF) } else { 3 },
        (None, None) => 1,
    }
}

/// Context of the compound variable-reference bit (LAST against GOLDEN).
pub open spec fn spec_comp_ref_context(a: Option<ResidualMi>, l: Option<ResidualMi>) -> int {
    match (a, l) {
        (Some(x), Some(y)) => if !x.is_inter && !y.is_inter {
            2
        } else if !x.is_inter || !y.is_inter {
            let edge = if !x.is_inter { y } else { x };
            1 + 2 * b2u(edge.ref_frame != GOLDEN_FRAME)
        } else {
            let a_sg = !is_comp(x);
            let l_sg = !is_comp(y);
            let vrfa = x.ref_frame;
            let vrfl = y.ref_frame;
            if vrfa == vrfl && GOLDEN_FRAME == vrfa {
                0
            } else if l_sg && a_sg {
                if (vrfa == COMP_FIXED_REF && vrfl == LAST_FRAME) || (vrfl == COMP_FIXED_REF && vrfa
                    == LAST_FRAME) {
                    4
                } else if vrfa == vrfl {
                    3
                } else {
                    1
                }
            } else if l_sg || a_sg {
                let vrfc = if l_sg { vrfa } else { vrfl };
                let rfs = if a_sg { vrfa } else { vrfl };
                if vrfc == GOLDEN_FRAME && rfs != GOLDEN_FRAME {
                    1
                } else if rfs == GOLDEN_FRAME && vrfc != GOLDEN_FRAME {
                    2
                } else {
                    4
                }
            } else if vrfa == vrfl {
                4
            } else {
                2
            }
        },
        (Some(e), None) => spec_comp_ref_one(e),
        (None, Some(e)) => spec_comp_ref_one(e),
        (None, None) => 2,
    }
}

pub open spec fn spec_comp_ref_one(e: ResidualMi) -> int {
    if !e.is_inter {
        2
    } else if is_comp(e) {
        4 * b2u(e.ref_frame != GOLDEN_FRAME)
    } else {
        3 * b2u(e.ref_frame != GOLDEN_FRAME)
    }
}

/// Switchable-filter context: the neighbours' common filter, the one
/// present neighbour's filter, or `3` (none / they differ).
pub open spec fn spec_switchable_interp_context(a: Option<ResidualMi>, l: Option<ResidualMi>) -> int {
    let left = match l {
        Some(m) => filter_index(m.interp_filter),
        None => 3,
    };
    let above = match a {
        Some(m) => filter_index(m.interp_filter),
        None => 3,
    };
    if left == above {
        left
    } else if left == 3 {
        above
    } else if above == 3 {
        left
    } else {
        3
    }
}

/// Transform-size context: whether the neighbours' sizes (a skipped or
/// missing neighbour counts as `max_tx`; a lone neighbour counts twice)
/// sum past `max_tx`.
pub open spec fn spec_tx_size_context(a: Option<ResidualMi>, l: Option<ResidualMi>, max_tx: u8) -> int {
    let at = match a {
        Some(m) => if !m.skip { m.tx_size as int } else { max_tx as int },
        None => max_tx as int,
    };
    let lt = match l {
        Some(m) => if !m.skip { m.tx_size as int } else { max_tx as int },
        None => max_tx as int,
    };
    let lt2 = if l is None { at } else { lt };
    let at2 = if a is None { lt2 } else { at };
    b2u(at2 + lt2 > max_tx as int)
}

impl MiGrid {
    pub fn skip_context(&self, mi_row: usize, mi_col: usize) -> (ctx: usize)
        requires
            self.wf(),
            self.pos_ok(mi_row as int, mi_col as int),
        ensures
            ctx == spec_skip_context(self.above(mi_row as int, mi_col as int), self.left(mi_row as int, mi_col as int)),
    {
        let a = match self.above_mi(mi_row, mi_col) {
            Some(m) => if m.skip { 1usize } else { 0usize },
            None => 0usize,
        };
        let l = match self.left_mi(mi_row, mi_col) {
            Some(m) => if m.skip { 1usize } else { 0usize },
            None => 0usize,
        };
        a + l
    }

    pub fn intra_inter_context(&self, mi_row: usize, mi_col: usize) -> (ctx: usize)
        requires
            self.wf(),
            self.pos_ok(mi_row as int, mi_col as int),
        ensures
            ctx == spec_intra_inter_context(self.above(mi_row as int, mi_col as int), self.left(mi_row as int, mi_col as int)),
    {
        match (self.above_mi(mi_row, mi_col), self.left_mi(mi_row, mi_col)) {
            (Some(a), Some(l)) => {
                let ai = !a.is_inter;
                let li = !l.is_inter;
                if li && ai {
                    3
                } else if li || ai {
                    1
                } else {
                    0
                }
            },
            (Some(e), None) | (None, Some(e)) => if !e.is_inter { 2 } else { 0 },
            (None, None) => 0,
        }
    }

    pub fn single_ref_p1_context(&self, mi_row: usize, mi_col: usize) -> (ctx: usize)
        requires
            self.wf(),
            self.pos_ok(mi_row as int, mi_col as int),
        ensures
            ctx == spec_single_ref_p1(self.above(mi_row as int, mi_col as int), self.left(mi_row as int, mi_col as int)),
    {
        match (self.above_mi(mi_row, mi_col), self.left_mi(mi_row, mi_col)) {
            (Some(a), Some(l)) => {
                let ai = !a.is_inter;
                let li = !l.is_inter;
                if ai && li {
                    2
                } else if ai || li {
                    let edge = if ai { l } else { a };
                    if !edge.is_compound() {
                        if edge.ref_frame == LAST_FRAME { 4 } else { 0 }
                    } else {
                        if edge.ref_frame == LAST_FRAME || edge.second_ref == LAST_FRAME { 2 } else { 1 }
                    }
                } else {
                    let a2 = a.is_compound();
                    let l2 = l.is_compound();
                    if a2 && l2 {
                        if a.ref_frame == LAST_FRAME || a.second_ref == LAST_FRAME || l.ref_frame
                            == LAST_FRAME || l.second_ref == LAST_FRAME {
                            2
                        } else {
                            1
                        }
                    } else if a2 || l2 {
                        let rfs = if !a2 { a.ref_frame } else { l.ref_frame };
                        let (crf1, crf2) = if a2 {
                            (a.ref_frame, a.second_ref)
                        } else {
                            (l.ref_frame, l.second_ref)
                        };
                        let hit: usize = if crf1 == LAST_FRAME || crf2 == LAST_FRAME { 1 } else { 0 };
                        if rfs == LAST_FRAME {
                            3 + hit
                        } else {
                            hit
                        }
                    } else {
                        let x: usize = if a.ref_frame == LAST_FRAME { 2 } else { 0 };
                        let y: usize = if l.ref_frame == LAST_FRAME { 2 } else { 0 };
                        x + y
                    }
                }
            },
            (Some(e), None) | (None, Some(e)) => {
                if !e.is_inter {
                    2
                } else if !e.is_compound() {
                    if e.ref_frame == LAST_FRAME { 4 } else { 0 }
                } else {
                    if e.ref_frame == LAST_FRAME || e.second_ref == LAST_FRAME { 2 } else { 1 }
                }
            },
            (None, None) => 2,
        }
    }

    pub fn single_ref_p2_context(&self, mi_row: usize, mi_col: usize) -> (ctx: usize)
        requires
            self.wf(),
            self.pos_ok(mi_row as int, mi_col as int),
        ensures
            ctx == spec_single_ref_p2(self.above(mi_row as int, mi_col as int), self.left(mi_row as int, mi_col as int)),
    {
        match (self.above_mi(mi_row, mi_col), self.left_mi(mi_row, mi_col)) {
            (Some(a), Some(l)) => {
                let ai = !a.is_inter;
                let li = !l.is_inter;
                if ai && li {
                    2
                } else if ai || li {
                    let edge = if ai { l } else { a };
                    if !edge.is_compound() {
                        if edge.ref_frame == LAST_FRAME {
                            3
                        } else if edge.ref_frame == GOLDEN_FRAME {
                            4
                        } else {
                            0
                        }
                    } else {
                        if edge.ref_frame == GOLDEN_FRAME || edge.second_ref == GOLDEN_FRAME { 3 } else { 1 }
                    }
                } else {
                    let a2 = a.is_compound();
                    let l2 = l.is_compound();
                    if a2 && l2 {
                        if a.ref_frame == l.ref_frame && a.second_ref == l.second_ref {
                            if a.ref_frame == GOLDEN_FRAME || a.second_ref == GOLDEN_FRAME || l.ref_frame
                                == GOLDEN_FRAME || l.second_ref == GOLDEN_FRAME {
                                3
                            } else {
                                0
                            }
                        } else {
                            2
                        }
                    } else if a2 || l2 {
                        let rfs = if !a2 { a.ref_frame } else { l.ref_frame };
                        let (crf1, crf2) = if a2 {
                            (a.ref_frame, a.second_ref)
                        } else {
                            (l.ref_frame, l.second_ref)
                        };
                        let hit: usize = if crf1 == GOLDEN_FRAME || crf2 == GOLDEN_FRAME { 1 } else { 0 };
                        if rfs == GOLDEN_FRAME {
                            3 + hit
                        } else if rfs == ALTREF_FRAME {
                            hit
                        } else {
                            1 + 2 * hit
                        }
                    } else if a.ref_frame == LAST_FRAME && l.ref_frame == LAST_FRAME {
                        3
                    } else if a.ref_frame == LAST_FRAME || l.ref_frame == LAST_FRAME {
                        let edge0 = if a.ref_frame == LAST_FRAME { l.ref_frame } else { a.ref_frame };
                        if edge0 == GOLDEN_FRAME { 4 } else { 0 }
                    } else {
                        let x: usize = if a.ref_frame == GOLDEN_FRAME { 2 } else { 0 };
                        let y: usize = if l.ref_frame == GOLDEN_FRAME { 2 } else { 0 };
                        x + y
                    }
                }
            },
            (Some(e), None) | (None, Some(e)) => {
                if !e.is_inter || (e.ref_frame == LAST_FRAME && !e.is_compound()) {
                    2
                } else if !e.is_compound() {
                    if e.ref_frame == GOLDEN_FRAME { 4 } else { 0 }
                } else {
                    if e.ref_frame == GOLDEN_FRAME || e.second_ref == GOLDEN_FRAME { 3 } else { 0 }
                }
            },
            (None, None) => 2,
        }
    }

    pub fn comp_inter_context(&self, mi_row: usize, mi_col: usize) -> (ctx: usize)
        requires
            self.wf(),
            self.pos_ok(mi_row as int, mi_col as int),
        ensures
            ctx == spec_comp_inter_context(self.above(mi_row as int, mi_col as int), self.left(mi_row as int, mi_col as int)),
    {
        match (self.above_mi(mi_row, mi_col), self.left_mi(mi_row, mi_col)) {
            (Some(a), Some(l)) => {
                if !a.is_compound() && !l.is_compound() {
                    if (a.ref_frame == COMP_FIXED_REF) != (l.ref_frame == COMP_FIXED_REF) {
                        1
                    } else {
                        0
                    }
                } else if !a.is_compound() {
                    if a.ref_frame == COMP_FIXED_REF || !a.is_inter { 3 } else { 2 }
                } else if !l.is_compound() {
                    if l.ref_frame == COMP_FIXED_REF || !l.is_inter { 3 } else { 2 }
                } else {
                    4
                }
            },
            (Some(e), None) | (None, Some(e)) => {
                if !e.is_compound() {
                    if e.ref_frame == COMP_FIXED_REF { 1 } else { 0 }
                } else {
                    3
                }
            },
            (None, None) => 1,
        }
    }

    pub fn comp_ref_context(&self, mi_row: usize, mi_col: usize) -> (ctx: usize)
        requires
            self.wf(),
            self.pos_ok(mi_row as int, mi_col as int),
        ensures
            ctx == spec_comp_ref_context(self.above(mi_row as int, mi_col as int), self.left(mi_row as int, mi_col as int)),
    {
        match (self.above_mi(mi_row, mi_col), self.left_mi(mi_row, mi_col)) {
            (Some(a), Some(l)) => {
                let ai = !a.is_inter;
                let li = !l.is_inter;
                if ai && li {
                    2
                } else if ai || li {
                    let edge = if ai { l } else { a };
                    if edge.ref_frame != COMP_VAR_REF[1] { 3 } else { 1 }
                } else {
                    let a_sg = !a.is_compound();
                    let l_sg = !l.is_compound();
                    let vrfa = a.ref_frame;
                    let vrfl = l.ref_frame;
                    if vrfa == vrfl && COMP_VAR_REF[1] == vrfa {
                        0
                    } else if l_sg && a_sg {
                        if (vrfa == COMP_FIXED_REF && vrfl == COMP_VAR_REF[0]) || (vrfl == COMP_FIXED_REF
                            && vrfa == COMP_VAR_REF[0]) {
                            4
                        } else if vrfa == vrfl {
                            3
                        } else {
                            1
                        }
                    } else if l_sg || a_sg {
                        let vrfc = if l_sg { vrfa } else { vrfl };
                        let rfs = if a_sg { vrfa } else { vrfl };
                        if vrfc == COMP_VAR_REF[1] && rfs != COMP_VAR_REF[1] {
                            1
                        } else if rfs == COMP_VAR_REF[1] && vrfc != COMP_VAR_REF[1] {
                            2
                        } else {
                            4
                        }
                    } else if vrfa == vrfl {
                        4
                    } else {
                        2
                    }
                }
            },
            (Some(e), None) | (None, Some(e)) => {
                if !e.is_inter {
                    2
                } else if e.is_compound() {
                    if e.ref_frame != COMP_VAR_REF[1] { 4 } else { 0 }
                } else {
                    if e.ref_frame != COMP_VAR_REF[1] { 3 } else { 0 }
                }
            },
            (None, None) => 2,
        }
    }

    pub fn switchable_interp_context(&self, mi_row: usize, mi_col: usize) -> (ctx: usize)
        requires
            self.wf(),
            self.pos_ok(mi_row as int, mi_col as int),
        ensures
            ctx == spec_switchable_interp_context(self.above(mi_row as int, mi_col as int), self.left(mi_row as int, mi_col as int)),
            ctx <= 3,
    {
        let missing: usize = 3;
        let left = match self.left_mi(mi_row, mi_col) {
            Some(m) => filter_value(m.interp_filter),
            None => missing,
        };
        let above = match self.above_mi(mi_row, mi_col) {
            Some(m) => filter_value(m.interp_filter),
            None => missing,
        };
        if left == above {
            left
        } else if left == missing {
            above
        } else if above == missing {
            left
        } else {
            missing
        }
    }

    pub fn tx_size_context(&self, mi_row: usize, mi_col: usize, max_tx: u8) -> (ctx: usize)
        requires
            self.wf(),
            self.pos_ok(mi_row as int, mi_col as int),
        ensures
            ctx == spec_tx_size_context(self.above(mi_row as int, mi_col as int), self.left(mi_row as int, mi_col as int), max_tx),
    {
        let a = self.above_mi(mi_row, mi_col);
        let l = self.left_mi(mi_row, mi_col);
        let mut above_ctx: i32 = match a {
            Some(m) => if !m.skip { m.tx_size as i32 } else { max_tx as i32 },
            None => max_tx as i32,
        };
        let mut left_ctx: i32 = match l {
            Some(m) => if !m.skip { m.tx_size as i32 } else { max_tx as i32 },
            None => max_tx as i32,
        };
        if l.is_none() {
            left_ctx = above_ctx;
        }
        if a.is_none() {
            above_ctx = left_ctx;
        }
        if above_ctx + left_ctx > max_tx as i32 { 1 } else { 0 }
    }
}

/// Neighbour offsets `(row, col)` scanned for reference MVs of a
/// `bw × bh` block (`mv_ref_blocks`); the first two also give the
/// inter-mode context.
pub open spec fn spec_mv_ref_neighbors(bw_px: u32, bh_px: u32) -> Seq<(i32, i32)> {
    if bw_px == 8 && bh_px == 16 {
        seq![(0i32, -1i32), (-1i32, 0i32), (1i32, -1i32), (-1i32, -1i32), (0i32, -2i32), (-2i32, 0i32), (-2i32, -1i32), (-1i32, -2i32)]
    } else if bw_px == 16 && bh_px == 8 {
        seq![(-1i32, 0i32), (0i32, -1i32), (-1i32, 1i32), (-1i32, -1i32), (-2i32, 0i32), (0i32, -2i32), (-1i32, -2i32), (-2i32, -1i32)]
    } else if bw_px == 16 && bh_px == 32 {
        seq![(0i32, -1i32), (-1i32, 0i32), (2i32, -1i32), (-1i32, -1i32), (-1i32, 1i32), (0i32, -3i32), (-3i32, 0i32), (-3i32, -3i32)]
    } else if bw_px == 32 && bh_px == 16 {
        seq![(-1i32, 0i32), (0i32, -1i32), (-1i32, 2i32), (-1i32, -1i32), (1i32, -1i32), (-3i32, 0i32), (0i32, -3i32), (-3i32, -3i32)]
    } else if bw_px == 32 && bh_px == 64 {
        seq![(0i32, -1i32), (-1i32, 0i32), (4i32, -1i32), (-1i32, 2i32), (-1i32, -1i32), (0i32, -3i32), (-3i32, 0i32), (2i32, -1i32)]
    } else if bw_px == 64 && bh_px == 32 {
        seq![(-1i32, 0i32), (0i32, -1i32), (-1i32, 4i32), (2i32, -1i32), (-1i32, -1i32), (-3i32, 0i32), (0i32, -3i32), (-1i32, 2i32)]
    } else if bw_px == 64 && bh_px == 64 {
        seq![(-1i32, 3i32), (3i32, -1i32), (-1i32, 4i32), (4i32, -1i32), (-1i32, -1i32), (-1i32, 0i32), (0i32, -1i32), (-1i32, 6i32)]
    } else if bw_px == 32 && bh_px == 32 {
        seq![(-1i32, 1i32), (1i32, -1i32), (-1i32, 2i32), (2i32, -1i32), (-1i32, -1i32), (-3i32, 0i32), (0i32, -3i32), (-3i32, -3i32)]
    } else if bw_px == 16 && bh_px == 16 {
        seq![(-1i32, 0i32), (0i32, -1i32), (-1i32, 1i32), (1i32, -1i32), (-1i32, -1i32), (-3i32, 0i32), (0i32, -3i32), (-3i32, -3i32)]
    } else {
        seq![(-1i32, 0i32), (0i32, -1i32), (-1i32, -1i32), (-2i32, 0i32), (0i32, -2i32), (-2i32, -1i32), (-1i32, -2i32), (-2i32, -2i32)]
    }
}

/// The neighbour offsets for a `bw × bh` block.
pub fn mv_ref_neighbors(bw_px: u32, bh_px: u32) -> (n: [(i32, i32); 8])
    ensures
        n@ == spec_mv_ref_neighbors(bw_px, bh_px),
{
    let n: [(i32, i32); 8] = if bw_px == 8 && bh_px == 16 {
        [(0, -1), (-1, 0), (1, -1), (-1, -1), (0, -2), (-2, 0), (-2, -1), (-1, -2)]
    } else if bw_px == 16 && bh_px == 8 {
        [(-1, 0), (0, -1), (-1, 1), (-1, -1), (-2, 0), (0, -2), (-1, -2), (-2, -1)]
    } else if bw_px == 16 && bh_px == 32 {
        [(0, -1), (-1, 0), (2, -1), (-1, -1), (-1, 1), (0, -3), (-3, 0), (-3, -3)]
    } else if bw_px == 32 && bh_px == 16 {
        [(-1, 0), (0, -1), (-1, 2), (-1, -1), (1, -1), (-3, 0), (0, -3), (-3, -3)]
    } else if bw_px == 32 && bh_px == 64 {
        [(0, -1), (-1, 0), (4, -1), (-1, 2), (-1, -1), (0, -3), (-3, 0), (2, -1)]
    } else if bw_px == 64 && bh_px == 32 {
        [(-1, 0), (0, -1), (-1, 4), (2, -1), (-1, -1), (-3, 0), (0, -3), (-1, 2)]
    } else if bw_px == 64 && bh_px == 64 {
        [(-1, 3), (3, -1), (-1, 4), (4, -1), (-1, -1), (-1, 0), (0, -1), (-1, 6)]
    } else if bw_px == 32 && bh_px == 32 {
        [(-1, 1), (1, -1), (-1, 2), (2, -1), (-1, -1), (-3, 0), (0, -3), (-3, -3)]
    } else if bw_px == 16 && bh_px == 16 {
        [(-1, 0), (0, -1), (-1, 1), (1, -1), (-1, -1), (-3, 0), (0, -3), (-3, -3)]
    } else {
        [(-1, 0), (0, -1), (-1, -1), (-2, 0), (0, -2), (-2, -1), (-1, -2), (-2, -2)]
    };
    assert(n@ =~= spec_mv_ref_neighbors(bw_px, bh_px));
    n
}

/// The neighbour at offset `k` of `nbrs` from `(row, col)`, when it lies in
/// the tile.
pub open spec fn nbr(g: MiGridView, row: int, col: int, nbrs: Seq<(i32, i32)>, k: int) -> Option<ResidualMi> {
    let r = row + nbrs[k].0;
    let c = col + nbrs[k].1;
    if g.in_tile(r, c) {
        Some(g.at(r, c))
    } else {
        None
    }
}

/// Summed mode counters of the first two in-tile neighbours.
pub open spec fn mode_counter(g: MiGridView, row: int, col: int, nbrs: Seq<(i32, i32)>) -> int {
    (match nbr(g, row, col, nbrs, 0) {
        Some(m) => spec_mode_2_counter(m.mode) as int,
        None => 0,
    }) + (match nbr(g, row, col, nbrs, 1) {
        Some(m) => spec_mode_2_counter(m.mode) as int,
        None => 0,
    })
}

/// Reference-MV candidate list under construction: up to two distinct
/// (clamped) vectors; `done` once the second is found.
pub struct MvCands {
    pub first: Mv,
    pub second: Mv,
    pub count: int,
    pub done: bool,
}

pub open spec fn no_cands() -> MvCands {
    MvCands { first: Mv { row: 0, col: 0 }, second: Mv { row: 0, col: 0 }, count: 0, done: false }
}

/// Offer one candidate: it becomes the first, or the second if it differs
/// from the first; nothing changes once two were found.
pub open spec fn cand_add(s: MvCands, cand: Mv) -> MvCands {
    if s.done {
        s
    } else if s.count == 0 {
        MvCands { first: cand, count: 1, ..s }
    } else if cand != s.first {
        MvCands { second: cand, done: true, ..s }
    } else {
        s
    }
}

/// Geometry of a reference-MV search: the block's position and size.
pub struct MvSearch {
    pub row: int,
    pub col: int,
    pub bw_mi: int,
    pub bh_mi: int,
}

pub open spec fn clamp_cand(g: MiGridView, q: MvSearch, mv: Mv) -> Mv {
    spec_clamp_mv_ref(mv, q.row, q.col, g.mi_rows as int, g.mi_cols as int, q.bw_mi, q.bh_mi)
}

/// First pass over the first `k` neighbours: vectors that already point
/// into `rf`.
pub open spec fn pass_same(g: MiGridView, q: MvSearch, nbrs: Seq<(i32, i32)>, rf: i8, k: int) -> MvCands
    decreases k,
{
    if k <= 0 {
        no_cands()
    } else {
        let s = pass_same(g, q, nbrs, rf, k - 1);
        match nbr(g, q.row, q.col, nbrs, k - 1) {
            Some(n) => if n.is_inter && n.ref_frame == rf {
                cand_add(s, clamp_cand(g, q, n.mv))
            } else if n.is_inter && n.second_ref == rf {
                cand_add(s, clamp_cand(g, q, n.mv1))
            } else {
                s
            },
            None => s,
        }
    }
}

/// Second pass over the first `k` neighbours: vectors of other references,
/// sign-corrected for `rf`.
pub open spec fn pass_other(g: MiGridView, q: MvSearch, nbrs: Seq<(i32, i32)>, rf: i8, s0: MvCands, k: int) -> MvCands
    decreases k,
{
    if k <= 0 {
        s0
    } else {
        let s = pass_other(g, q, nbrs, rf, s0, k - 1);
        match nbr(g, q.row, q.col, nbrs, k - 1) {
            Some(n) => if !n.is_inter {
                s
            } else {
                let s1 = if n.ref_frame != rf {
                    cand_add(s, clamp_cand(g, q, spec_scale_mv_for_ref(n.mv, n.ref_frame, rf)))
                } else {
                    s
                };
                if n.second_ref > INTRA_FRAME && n.second_ref != rf && n.mv1 != n.mv {
                    cand_add(s1, clamp_cand(g, q, spec_scale_mv_for_ref(n.mv1, n.second_ref, rf)))
                } else {
                    s1
                }
            },
            None => s,
        }
    }
}

/// Whether any of the neighbours lies in the tile.
pub open spec fn any_nbr(g: MiGridView, q: MvSearch, nbrs: Seq<(i32, i32)>) -> bool {
    exists|k: int| 0 <= k < nbrs.len() && #[trigger] nbr(g, q.row, q.col, nbrs, k) is Some
}

/// Nearest and near MVs for `rf` (`find_mv_refs_idx`).
pub open spec fn spec_ref_mvs(g: MiGridView, q: MvSearch, nbrs: Seq<(i32, i32)>, rf: i8) -> (Mv, Mv) {
    let s1 = pass_same(g, q, nbrs, rf, nbrs.len() as int);
    let s = if !s1.done && any_nbr(g, q, nbrs) {
        pass_other(g, q, nbrs, rf, s1, nbrs.len() as int)
    } else {
        s1
    };
    (s.first, s.second)
}

/// Every stored vector can be negated within `i16`.
pub open spec fn mvs_negatable(g: MiGridView) -> bool {
    forall|k: int|
        0 <= k < g.mi.len() ==> (#[trigger] g.mi[k]).mv.row > i16::MIN && g.mi[k].mv.col > i16::MIN
            && g.mi[k].mv1.row > i16::MIN && g.mi[k].mv1.col > i16::MIN
}

impl MiGrid {
    fn nbr_mi(&self, mi_row: usize, mi_col: usize, d: (i32, i32)) -> (m: Option<ResidualMi>)
        requires
            self.wf(),
            mi_row <= 0x10_0000,
            mi_col <= 0x10_0000,
            -8 <= d.0 <= 8,
            -8 <= d.1 <= 8,
        ensures
            m == nbr(self@, mi_row as int, mi_col as int, seq![d], 0),
            mvs_negatable(self@) ==> (m matches Some(x) ==> x.mv.row > i16::MIN && x.mv.col > i16::MIN
                && x.mv1.row > i16::MIN && x.mv1.col > i16::MIN),
    {
        let r = mi_row as i32 + d.0;
        let c = mi_col as i32 + d.1;
        if self.mi_in_tile(r, c) {
            let x = self.get(r as usize, c as usize);
            proof {
                lemma_index(r as int, c as int, self.mi_rows as int, self.mi_cols as int);
                let idx = r as int * self.mi_cols + c as int;
                assert(x == self.mi@[idx]);
            }
            Some(x)
        } else {
            None
        }
    }

    /// Inter-mode context from the first two reference-MV neighbours.
    pub fn inter_mode_context(&self, mi_row: usize, mi_col: usize, bw_px: u32, bh_px: u32) -> (ctx: usize)
        requires
            self.wf(),
            mi_row <= 0x10_0000,
            mi_col <= 0x10_0000,
        ensures
            ctx == spec_counter_to_inter_mode_ctx(
                mode_counter(self@, mi_row as int, mi_col as int, spec_mv_ref_neighbors(bw_px, bh_px)) as i32,
            ),
    {
        let nbrs = mv_ref_neighbors(bw_px, bh_px);
        let ghost ns = spec_mv_ref_neighbors(bw_px, bh_px);
        let mut counter: i32 = 0;
        let m0 = self.nbr_mi(mi_row, mi_col, nbrs[0]);
        assert(m0 == nbr(self@, mi_row as int, mi_col as int, ns, 0));
        if let Some(m) = m0 {
            counter = counter + mode_2_counter(m.mode);
        }
        let m1 = self.nbr_mi(mi_row, mi_col, nbrs[1]);
        assert(m1 == nbr(self@, mi_row as int, mi_col as int, ns, 1));
        if let Some(m) = m1 {
            counter = counter + mode_2_counter(m.mode);
        }
        counter_to_inter_mode_ctx(counter)
    }
}

/// The candidate list held as plain values.
pub open spec fn cands_of(first: Mv, second: Mv, count: usize, done: bool) -> MvCands {
    MvCands { first, second, count: count as int, done }
}

fn offer(first: &mut Mv, second: &mut Mv, count: &mut usize, done: &mut bool, cand: Mv)
    requires
        *old(count) <= 1,
    ensures
        cands_of(*final(first), *final(second), *final(count), *final(done)) == cand_add(
            cands_of(*old(first), *old(second), *old(count), *old(done)),
            cand,
        ),
        *final(count) <= 1,
{
    if *done {
    } else if *count == 0 {
        *first = cand;
        *count = 1;
    } else if cand != *first {
        *second = cand;
        *done = true;
    }
}

impl MiGrid {
    /// Nearest and near reference MVs for `ref_frame` (`find_mv_refs_idx`).
    pub fn ref_mvs(&self, mi_row: usize, mi_col: usize, bw_px: u32, bh_px: u32, ref_frame: i8) -> (r: (
        Mv,
        Mv,
    ))
        requires
            self.wf(),
            mvs_negatable(self@),
            mi_row <= 0x10_0000,
            mi_col <= 0x10_0000,
            bw_px / 8 <= self.mi_cols + 4,
            bh_px / 8 <= self.mi_rows + 4,
        ensures
            r == spec_ref_mvs(
                self@,
                MvSearch { row: mi_row as int, col: mi_col as int, bw_mi: (bw_px / 8) as int, bh_mi: (bh_px / 8) as int },
                spec_mv_ref_neighbors(bw_px, bh_px),
                ref_frame,
            ),
    {
        let nbrs = mv_ref_neighbors(bw_px, bh_px);
        let bw_mi = (bw_px / 8) as usize;
        let bh_mi = (bh_px / 8) as usize;
        let ghost q = MvSearch { row: mi_row as int, col: mi_col as int, bw_mi: bw_mi as int, bh_mi: bh_mi as int };
        let ghost ns = nbrs@;
        let ghost g = self@;
        let mut first = Mv { row: 0, col: 0 };
        let mut second = Mv { row: 0, col: 0 };
        let mut count: usize = 0;
        let mut done = false;
        let mut found_any = false;
        let mut k: usize = 0;
        while k < 8
            invariant
                k <= 8,
                g == self@,
                self.wf(),
                mvs_negatable(self@),
                mi_row <= 0x10_0000,
                mi_col <= 0x10_0000,
                bw_mi <= self.mi_cols + 4,
                bh_mi <= self.mi_rows + 4,
                ns == nbrs@,
                ns == spec_mv_ref_neighbors(bw_px, bh_px),
                q == (MvSearch { row: mi_row as int, col: mi_col as int, bw_mi: bw_mi as int, bh_mi: bh_mi as int }),
                count <= 1,
                cands_of(first, second, count, done) == pass_same(g, q, ns, ref_frame, k as int),
                found_any <==> (exists|j: int| 0 <= j < k && #[trigger] nbr(g, q.row, q.col, ns, j) is Some),
            decreases 8 - k,
        {
            let m = self.nbr_mi(mi_row, mi_col, nbrs[k]);
            assert(m == nbr(g, q.row, q.col, ns, k as int));
            if let Some(n) = m {
                found_any = true;
                if n.is_inter && n.ref_frame == ref_frame {
                    let c = clamp_mv_ref(n.mv, mi_row, mi_col, self.mi_rows, self.mi_cols, bw_mi, bh_mi);
                    offer(&mut first, &mut second, &mut count, &mut done, c);
                } else if n.is_inter && n.second_ref == ref_frame {
                    let c = clamp_mv_ref(n.mv1, mi_row, mi_col, self.mi_rows, self.mi_cols, bw_mi, bh_mi);
                    offer(&mut first, &mut second, &mut count, &mut done, c);
                }
            }
            proof {
                if found_any {
                    if m is Some {
                        assert(nbr(g, q.row, q.col, ns, k as int) is Some);
                    }
                }
            }
            k += 1;
        }
        let ghost s1 = pass_same(g, q, ns, ref_frame, 8);
        assert(found_any == any_nbr(g, q, ns));
        if found_any && !done {
            let mut k: usize = 0;
            while k < 8
                invariant
                    k <= 8,
                    g == self@,
                    self.wf(),
                    mvs_negatable(self@),
                    mi_row <= 0x10_0000,
                    mi_col <= 0x10_0000,
                    bw_mi <= self.mi_cols + 4,
                    bh_mi <= self.mi_rows + 4,
                    ns == nbrs@,
                    ns == spec_mv_ref_neighbors(bw_px, bh_px),
                    q == (MvSearch { row: mi_row as int, col: mi_col as int, bw_mi: bw_mi as int, bh_mi: bh_mi as int }),
                    count <= 1,
                    cands_of(first, second, count, done) == pass_other(g, q, ns, ref_frame, s1, k as int),
                decreases 8 - k,
            {
                let m = self.nbr_mi(mi_row, mi_col, nbrs[k]);
                assert(m == nbr(g, q.row, q.col, ns, k as int));
                if let Some(n) = m {
                    if n.is_inter {
                        if n.ref_frame != ref_frame {
                            let sc = scale_mv_for_ref(n.mv, n.ref_frame, ref_frame);
                            let c = clamp_mv_ref(sc, mi_row, mi_col, self.mi_rows, self.mi_cols, bw_mi, bh_mi);
                            offer(&mut first, &mut second, &mut count, &mut done, c);
                        }
                        if n.second_ref > INTRA_FRAME && n.second_ref != ref_frame && n.mv1 != n.mv {
                            let sc = scale_mv_for_ref(n.mv1, n.second_ref, ref_frame);
                            let c = clamp_mv_ref(sc, mi_row, mi_col, self.mi_rows, self.mi_cols, bw_mi, bh_mi);
                            offer(&mut first, &mut second, &mut count, &mut done, c);
                        }
                    }
                }
                k += 1;
            }
        }
        (first, second)
    }
}

/// The loop-filter view of one unit at frame filter level `base`.
pub open spec fn spec_lf_mi(m: ResidualMi, base: u8) -> LfMi {
    LfMi {
        skip: m.skip,
        is_inter: m.is_inter,
        tx_size_y: m.tx_size,
        bw_mi: (m.bw_px / 8) as u8,
        bh_mi: (m.bh_px / 8) as u8,
        bsize_idx: spec_partition_ctx_index_wh(m.bw_px, m.bh_px).unwrap(),
        block_origin: m.block_origin,
        level: spec_lf_level(base, m.ref_frame, m.mode),
    }
}

/// Every unit records a block size the encoder codes.
pub open spec fn sizes_coded(mi: Seq<ResidualMi>) -> bool {
    forall|k: int| 0 <= k < mi.len() ==> spec_partition_ctx_index_wh(#[trigger] mi[k].bw_px, mi[k].bh_px) is Some
}

/// Loop-filter records for the units at the frame's filter level
/// (compound units filter by their first, variable reference).
pub fn lf_mi_from_residual(mi: &[ResidualMi]) -> (out: Vec<LfMi>)
    requires
        sizes_coded(mi@),
    ensures
        out@.len() == mi@.len(),
        forall|k: int| 0 <= k < mi@.len() ==> #[trigger] out@[k] == spec_lf_mi(mi@[k], FILTER_LEVEL),
{
    let mut out: Vec<LfMi> = Vec::new();
    let mut k: usize = 0;
    while k < mi.len()
        invariant
            k <= mi@.len(),
            sizes_coded(mi@),
            out@.len() == k,
            forall|j: int| 0 <= j < k ==> #[trigger] out@[j] == spec_lf_mi(mi@[j], FILTER_LEVEL),
        decreases mi@.len() - k,
    {
        let m = mi[k];
        assert(spec_partition_ctx_index_wh(mi@[k as int].bw_px, mi@[k as int].bh_px) is Some);
        out.push(
            LfMi {
                skip: m.skip,
                is_inter: m.is_inter,
                tx_size_y: m.tx_size,
                bw_mi: (m.bw_px / 8) as u8,
                bh_mi: (m.bh_px / 8) as u8,
                bsize_idx: partition_ctx_index_wh(m.bw_px, m.bh_px),
                block_origin: m.block_origin,
                level: lf_level_for_mi(FILTER_LEVEL, m.ref_frame, m.mode),
            },
        );
        k += 1;
    }
    out
}

/// The decisions that code `tx` under `TX_MODE_SELECT` for a block whose
/// largest transform is `max_tx`: one "larger than" bool per size step.
pub open spec fn spec_tx_size_ops(max_tx: u8, ctx: int, tx: u8) -> Seq<(u8, bool)> {
    if max_tx == TX_8X8 {
        seq![(DEFAULT_TX_PROBS_8[ctx][0], tx != TX_4X4)]
    } else if max_tx == TX_16X16 {
        let p = DEFAULT_TX_PROBS_16[ctx];
        if tx != TX_4X4 {
            seq![(p[0], true), (p[1], tx != TX_8X8)]
        } else {
            seq![(p[0], false)]
        }
    } else {
        let p = DEFAULT_TX_PROBS_32[ctx];
        if tx == TX_4X4 {
            seq![(p[0], false)]
        } else if tx == TX_8X8 {
            seq![(p[0], true), (p[1], false)]
        } else {
            seq![(p[0], true), (p[1], true), (p[2], tx != TX_16X16)]
        }
    }
}

fn put_op(e: &mut BoolEncoder, op: (u8, bool), Ghost(base): Ghost<crate::vp9::bool_coder::EncState>, Ghost(done): Ghost<Seq<(u8, bool)>>)
    requires
        old(e).wf(),
        old(e)@ == spec_put_bools(base, done),
    ensures
        final(e).wf(),
        final(e)@ == spec_put_bools(base, done.push(op)),
{
    e.put_bool(op.0, op.1);
    proof {
        lemma_put_bools_push(base, done, op);
    }
}

impl MiGrid {
    /// Code the transform size of a `bw × bh` block at `(mi_row, mi_col)`.
    pub fn write_selected_tx_size(
        &self,
        e: &mut BoolEncoder,
        mi_row: usize,
        mi_col: usize,
        bw_px: u32,
        bh_px: u32,
        tx_size: u8,
    )
        requires
            old(e).wf(),
            self.wf(),
            self.pos_ok(mi_row as int, mi_col as int),
        ensures
            final(e).wf(),
            final(e)@ == spec_put_bools(
                old(e)@,
                spec_tx_size_ops(
                    spec_max_tx_size_wh(bw_px, bh_px),
                    spec_tx_size_context(
                        self.above(mi_row as int, mi_col as int),
                        self.left(mi_row as int, mi_col as int),
                        spec_max_tx_size_wh(bw_px, bh_px),
                    ),
                    tx_size,
                ),
            ),
    {
        let max_tx = max_tx_size_wh(bw_px, bh_px);
        let ctx = self.tx_size_context(mi_row, mi_col, max_tx);
        let ghost base = old(e)@;
        let ghost ops = spec_tx_size_ops(max_tx, ctx as int, tx_size);
        assert(spec_put_bools(base, Seq::empty()) == base);
        if max_tx == TX_8X8 {
            put_op(e, (DEFAULT_TX_PROBS_8[ctx][0], tx_size != TX_4X4), Ghost(base), Ghost(Seq::empty()));
            assert(Seq::<(u8, bool)>::empty().push((DEFAULT_TX_PROBS_8[ctx as int][0], tx_size != TX_4X4)) =~= ops);
        } else if max_tx == TX_16X16 {
            let p = DEFAULT_TX_PROBS_16[ctx];
            put_op(e, (p[0], tx_size != TX_4X4), Ghost(base), Ghost(Seq::empty()));
            let ghost d1 = Seq::<(u8, bool)>::empty().push((p[0], tx_size != TX_4X4));
            if tx_size != TX_4X4 {
                put_op(e, (p[1], tx_size != TX_8X8), Ghost(base), Ghost(d1));
                assert(d1.push((p[1], tx_size != TX_8X8)) =~= ops);
            } else {
                assert(d1 =~= ops);
            }
        } else {
            let p = DEFAULT_TX_PROBS_32[ctx];
            put_op(e, (p[0], tx_size != TX_4X4), Ghost(base), Ghost(Seq::empty()));
            let ghost d1 = Seq::<(u8, bool)>::empty().push((p[0], tx_size != TX_4X4));
            if tx_size != TX_4X4 {
                put_op(e, (p[1], tx_size != TX_8X8), Ghost(base), Ghost(d1));
                let ghost d2 = d1.push((p[1], tx_size != TX_8X8));
                if tx_size != TX_8X8 {
                    put_op(e, (p[2], tx_size != TX_16X16), Ghost(base), Ghost(d2));
                    assert(d2.push((p[2], tx_size != TX_16X16)) =~= ops);
                } else {
                    assert(d2 =~= ops);
                }
            } else {
                assert(d1 =~= ops);
            }
        }
    }
}

/// Whether unit `(r, c)` lies in the `bw × bh` block at `(r0, c0)`.
pub open spec fn in_block(r: int, c: int, r0: int, c0: int, bw: int, bh: int) -> bool {
    r0 <= r < r0 + bh && c0 <= c < c0 + bw
}

proof fn lemma_index_unique(r1: int, c1: int, r2: int, c2: int, cols: int)
    requires
        0 <= c1 < cols,
        0 <= c2 < cols,
        0 <= r1,
        0 <= r2,
        r1 * cols + c1 == r2 * cols + c2,
    ensures
        r1 == r2 && c1 == c2,
{
    if r1 < r2 {
        assert(r1 * cols + c1 < r2 * cols + c2) by (nonlinear_arith)
            requires
                r1 < r2,
                0 <= c1 < cols,
                0 <= c2,
        ;
    } else if r2 < r1 {
        assert(r2 * cols + c2 < r1 * cols + c1) by (nonlinear_arith)
            requires
                r2 < r1,
                0 <= c2 < cols,
                0 <= c1,
        ;
    }
}

impl MiGrid {
    /// Record `info` for every unit of a `bw_mi × bh_mi` block at
    /// `(mi_row, mi_col)` inside the frame; only the top-left unit is marked
    /// as the block's origin.
    pub fn store_mi(&mut self, mi_row: usize, mi_col: usize, bw_mi: usize, bh_mi: usize, info: ResidualMi)
        requires
            old(self).wf(),
            mi_row + bh_mi <= usize::MAX,
            mi_col + bw_mi <= usize::MAX,
        ensures
            final(self).wf(),
            final(self).mi_cols == old(self).mi_cols,
            final(self).mi_rows == old(self).mi_rows,
            final(self).tile_col_start == old(self).tile_col_start,
            final(self).tile_col_end == old(self).tile_col_end,
            forall|r: int, c: int|
                old(self).pos_ok(r, c) ==> #[trigger] final(self).at(r, c) == if in_block(
                    r,
                    c,
                    mi_row as int,
                    mi_col as int,
                    bw_mi as int,
                    bh_mi as int,
                ) {
                    ResidualMi { block_origin: r == mi_row && c == mi_col, ..info }
                } else {
                    old(self).at(r, c)
                },
    {
        let ghost g0 = *self;
        let mut dr: usize = 0;
        while dr < bh_mi
            invariant
                dr <= bh_mi,
                self.wf(),
                self.mi_cols == g0.mi_cols,
                self.mi_rows == g0.mi_rows,
                self.tile_col_start == g0.tile_col_start,
                self.tile_col_end == g0.tile_col_end,
                g0.wf(),
                mi_row + bh_mi <= usize::MAX,
                mi_col + bw_mi <= usize::MAX,
                forall|r: int, c: int|
                    g0.pos_ok(r, c) ==> #[trigger] self.at(r, c) == if in_block(
                        r,
                        c,
                        mi_row as int,
                        mi_col as int,
                        bw_mi as int,
                        dr as int,
                    ) {
                        ResidualMi { block_origin: r == mi_row && c == mi_col, ..info }
                    } else {
                        g0.at(r, c)
                    },
            decreases bh_mi - dr,
        {
            let mut dc: usize = 0;
            while dc < bw_mi
                invariant
                    dr < bh_mi,
                    dc <= bw_mi,
                    self.wf(),
                    self.mi_cols == g0.mi_cols,
                    self.mi_rows == g0.mi_rows,
                    self.tile_col_start == g0.tile_col_start,
                    self.tile_col_end == g0.tile_col_end,
                    g0.wf(),
                    mi_row + bh_mi <= usize::MAX,
                    mi_col + bw_mi <= usize::MAX,
                    forall|r: int, c: int|
                        g0.pos_ok(r, c) ==> #[trigger] self.at(r, c) == if in_block(
                            r,
                            c,
                            mi_row as int,
                            mi_col as int,
                            bw_mi as int,
                            dr as int,
                        ) || (r == mi_row + dr && mi_col <= c < mi_col + dc) {
                            ResidualMi { block_origin: r == mi_row && c == mi_col, ..info }
                        } else {
                            g0.at(r, c)
                        },
                decreases bw_mi - dc,
            {
                let r = mi_row + dr;
                let c = mi_col + dc;
                if r < self.mi_rows && c < self.mi_cols {
                    let n = self.mi.len();
                    proof {
                        lemma_index(r as int, c as int, self.mi_rows as int, self.mi_cols as int);
                    }
                    let idx = r * self.mi_cols + c;
                    let ghost before = *self;
                    self.mi.set(idx, ResidualMi { block_origin: dr == 0 && dc == 0, ..info });
                    proof {
                        assert forall|r2: int, c2: int| g0.pos_ok(r2, c2) implies #[trigger] self.at(r2, c2)
                            == if r2 == r && c2 == c {
                            ResidualMi { block_origin: dr == 0 && dc == 0, ..info }
                        } else {
                            before.at(r2, c2)
                        } by {
                            lemma_index(r2, c2, self.mi_rows as int, self.mi_cols as int);
                            if r2 * self.mi_cols + c2 == idx {
                                lemma_index_unique(r2, c2, r as int, c as int, self.mi_cols as int);
                            }
                        }
                    }
                }
                dc += 1;
            }
            dr += 1;
        }
    }
}

} // verus!
