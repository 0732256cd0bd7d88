//! Partition contexts: per-column (above) and per-row (left, within the
//! superblock) bytes recording the sizes of coded blocks, and the coding
//! of the partition syntax element.
use vstd::prelude::*;
use crate::vp9::bool_coder::{BoolEncoder, spec_put_bools};
use crate::vp9::tables::{
    DEFAULT_PARTITION_PROBS, PARTITION_CONTEXT_LOOKUP, PARTITION_SPLIT, PARTITION_TREE, bsl_from_px,
    is_square_bsize, partition_ctx_index_wh, spec_partition_ctx_index_wh,
};
use crate::vp9::tree::{tree_has, tree_ops, tree_wf, write_tree};

verus! {

proof fn lemma_partition_tree()
    ensures
        tree_wf(PARTITION_TREE@),
{
    assert(PARTITION_TREE@ =~= seq![0i8, 2i8, -1i8, 4i8, -2i8, -3i8]);
}

/// Above context per MI column, left context per MI row of the superblock.
pub struct PartitionContext {
    pub above: Vec<u8>,
    pub left: [u8; 8],
    pub mi_cols: usize,
}

/// The context bytes as sequences.
pub struct PartitionModel {
    pub above: Seq<u8>,
    pub left: Seq<u8>,
}

impl View for PartitionContext {
    type V = PartitionModel;

    open spec fn view(&self) -> PartitionModel {
        PartitionModel { above: self.above@, left: self.left@ }
    }
}

/// `log2(px / 8)` for a square block size.
pub open spec fn spec_bsl(px: u32) -> usize {
    if px == 8 {
        0
    } else if px == 16 {
        1
    } else if px == 32 {
        2
    } else {
        3
    }
}

/// Partition context of a `bsize × bsize` block at `(mi_row, mi_col)`:
/// `4 · bsl + 2 · left_bit + above_bit`, the bits being bit `bsl` of the
/// neighbouring context bytes.
pub open spec fn model_context(m: PartitionModel, mi_row: int, mi_col: int, bsize_px: u32) -> int {
    let bsl = spec_bsl(bsize_px);
    let above = (m.above[mi_col] >> bsl) & 1;
    let left = (m.left[mi_row % 8] >> bsl) & 1;
    4 * bsl + 2 * left + above
}

/// The contexts after a `bw × bh` block with sub-block size
/// `sub_bw × sub_bh` is coded at `(mi_row, mi_col)`.
pub open spec fn model_update(
    m: PartitionModel,
    mi_row: int,
    mi_col: int,
    sub_bw: u32,
    sub_bh: u32,
    bw: u32,
    bh: u32,
) -> PartitionModel {
    let (above_v, left_v) = PARTITION_CONTEXT_LOOKUP[spec_partition_ctx_index_wh(sub_bw, sub_bh).unwrap() as int];
    PartitionModel {
        above: Seq::new(
            m.above.len(),
            |c: int|
                if mi_col <= c < mi_col + bw / 8 {
                    above_v
                } else {
                    m.above[c]
                },
        ),
        left: Seq::new(
            8,
            |r: int|
                if (r - mi_row % 8 + 8) % 8 < bh / 8 {
                    left_v
                } else {
                    m.left[r]
                },
        ),
    }
}

/// The decisions that code `partition` for a `bsize` block whose lower
/// and right halves may lie outside the frame.
pub open spec fn model_partition_ops(
    m: PartitionModel,
    mi_row: int,
    mi_col: int,
    bsize_px: u32,
    has_rows: bool,
    has_cols: bool,
    partition: i8,
) -> Seq<(u8, bool)> {
    let probs = DEFAULT_PARTITION_PROBS[model_context(m, mi_row, mi_col, bsize_px)];
    if has_rows && has_cols {
        tree_ops(PARTITION_TREE@, probs@, partition)
    } else if !has_rows && has_cols {
        seq![(probs[1], partition == PARTITION_SPLIT)]
    } else if has_rows && !has_cols {
        seq![(probs[2], partition == PARTITION_SPLIT)]
    } else {
        Seq::empty()
    }
}

impl PartitionContext {
    /// One above byte per MI column.
    pub open spec fn wf(&self) -> bool {
        self.above@.len() == self.mi_cols
    }

    /// Cleared contexts for a frame `mi_cols` units wide.
    pub fn new(mi_cols: usize) -> (p: Self)
        ensures
            p.wf(),
            p.mi_cols == mi_cols,
            forall|c: int| 0 <= c < mi_cols ==> p.above@[c] == 0,
            forall|r: int| 0 <= r < 8 ==> p.left@[r] == 0,
    {
        PartitionContext { above: vec![0u8; mi_cols], left: [0u8; 8], mi_cols }
    }

    /// Partition context of a `bsize × bsize` block at `(mi_row, mi_col)`:
    /// `4 · bsl + 2 · left_bit + above_bit`, the bits being bit `bsl` of
    /// the neighbouring context bytes.
    pub open spec fn spec_context(&self, mi_row: int, mi_col: int, bsize_px: u32) -> int {
        model_context(self@, mi_row, mi_col, bsize_px)
    }

    pub fn partition_context(&self, mi_row: usize, mi_col: usize, bsize_px: u32) -> (ctx: usize)
        requires
            self.wf(),
            mi_col < self.mi_cols,
            is_square_bsize(bsize_px),
        ensures
            ctx == self.spec_context(mi_row as int, mi_col as int, bsize_px),
            ctx < 16,
    {
        let bsl = bsl_from_px(bsize_px);
        assert(bsl == spec_bsl(bsize_px)) by {
            vstd::arithmetic::power2::lemma2_to64();
            assert((8u32 << 0usize) == 8u32 && (8u32 << 1usize) == 16u32 && (8u32 << 2usize) == 32u32 && (8u32
                << 3usize) == 64u32) by (bit_vector);
        }
        let row = mi_row & 7;
        assert(row == mi_row % 8) by (bit_vector)
            requires
                row == mi_row & 7,
        ;
        let a_byte = self.above[mi_col];
        let l_byte = self.left[row];
        let above = (a_byte >> bsl) & 1;
        let left = (l_byte >> bsl) & 1;
        assert(above <= 1 && left <= 1) by (bit_vector)
            requires
                above == (a_byte >> bsl) & 1,
                left == (l_byte >> bsl) & 1,
        ;
        bsl * 4 + (left as usize) * 2 + above as usize
    }

    /// Record a coded `bw × bh` block at `(mi_row, mi_col)` whose sub-block
    /// size is `sub_bw × sub_bh`: its context bytes go to the covered
    /// columns inside the frame and to the covered rows of the superblock.
    pub fn update_partition_context(
        &mut self,
        mi_row: usize,
        mi_col: usize,
        sub_bw: u32,
        sub_bh: u32,
        bw: u32,
        bh: u32,
    )
        requires
            old(self).wf(),
            spec_partition_ctx_index_wh(sub_bw, sub_bh) is Some,
            bh <= 64,
            mi_col + bw / 8 <= usize::MAX,
            mi_row + 8 <= usize::MAX,
        ensures
            final(self).wf(),
            final(self).mi_cols == old(self).mi_cols,
            final(self)@ == model_update(old(self)@, mi_row as int, mi_col as int, sub_bw, sub_bh, bw, bh),
    {
        let bs_w = bw as usize / 8;
        let bs_h = bh as usize / 8;
        let idx = partition_ctx_index_wh(sub_bw, sub_bh);
        let (above_v, left_v) = PARTITION_CONTEXT_LOOKUP[idx];
        let mut i: usize = 0;
        while i < bs_w
            invariant
                i <= bs_w,
                bs_w == bw / 8,
                mi_col + bs_w <= usize::MAX,
                self.above@.len() == old(self).above@.len(),
                self.mi_cols == old(self).mi_cols,
                self.left == old(self).left,
                old(self).wf(),
                forall|c: int|
                    0 <= c < old(self).mi_cols ==> #[trigger] self.above@[c] == if mi_col <= c < mi_col + i {
                        above_v
                    } else {
                        old(self).above@[c]
                    },
            decreases bs_w - i,
        {
            if mi_col + i < self.mi_cols {
                self.above.set(mi_col + i, above_v);
            }
            i += 1;
        }
        let ghost a1 = self.above@;
        let mut i: usize = 0;
        while i < bs_h
            invariant
                i <= bs_h,
                self.above@ == a1,
                self.mi_cols == old(self).mi_cols,
                a1.len() == old(self).mi_cols,
                forall|c: int|
                    0 <= c < old(self).mi_cols ==> #[trigger] a1[c] == if mi_col <= c < mi_col + bw / 8 {
                        above_v
                    } else {
                        old(self).above@[c]
                    },
                bs_h == bh / 8,
                bs_h <= 8,
                mi_row + 8 <= usize::MAX,
                forall|r: int|
                    0 <= r < 8 ==> #[trigger] self.left@[r] == if (r - mi_row % 8 + 8) % 8 < i {
                        left_v
                    } else {
                        old(self).left@[r]
                    },
            decreases bs_h - i,
        {
            let m = mi_row + i;
            let r = m & 7;
            assert(r == m % 8) by (bit_vector)
                requires
                    r == m & 7,
            ;
            self.left[r] = left_v;
            i += 1;
        }
        let ghost m = model_update(old(self)@, mi_row as int, mi_col as int, sub_bw, sub_bh, bw, bh);
        assert(self.above@ =~= m.above);
        assert(self.left@ =~= m.left);
    }

    /// The decisions that code `partition` for this block (see
    /// `model_partition_ops`).
    pub open spec fn spec_partition_ops(
        &self,
        mi_row: int,
        mi_col: int,
        bsize_px: u32,
        has_rows: bool,
        has_cols: bool,
        partition: i8,
    ) -> Seq<(u8, bool)> {
        model_partition_ops(self@, mi_row, mi_col, bsize_px, has_rows, has_cols, partition)
    }

    /// Code the partition of a `bsize` block: the full tree when both
    /// halves are inside the frame, one split/no-split bool when only one
    /// is, nothing when neither is.
    pub fn write_partition(
        &self,
        e: &mut BoolEncoder,
        mi_row: usize,
        mi_col: usize,
        bsize_px: u32,
        has_rows: bool,
        has_cols: bool,
        partition: i8,
    )
        requires
            old(e).wf(),
            self.wf(),
            mi_col < self.mi_cols,
            is_square_bsize(bsize_px),
            has_rows && has_cols ==> tree_has(PARTITION_TREE@, partition),
        ensures
            final(e).wf(),
            final(e)@ == spec_put_bools(
                old(e)@,
                self.spec_partition_ops(mi_row as int, mi_col as int, bsize_px, has_rows, has_cols, partition),
            ),
    {
        let ctx = self.partition_context(mi_row, mi_col, bsize_px);
        let probs = &DEFAULT_PARTITION_PROBS[ctx];
        let ghost ops = self.spec_partition_ops(mi_row as int, mi_col as int, bsize_px, has_rows, has_cols, partition);
        if has_rows && has_cols {
            proof {
                lemma_partition_tree();
            }
            write_tree(e, &PARTITION_TREE, probs, partition);
        } else if !has_rows && has_cols {
            e.put_bool(probs[1], partition == PARTITION_SPLIT);
            proof {
                crate::vp9::bool_coder::lemma_put_bools_push(old(e)@, Seq::empty(), ops[0]);
                assert(Seq::<(u8, bool)>::empty().push(ops[0]) =~= ops);
            }
        } else if has_rows && !has_cols {
            e.put_bool(probs[2], partition == PARTITION_SPLIT);
            proof {
                crate::vp9::bool_coder::lemma_put_bools_push(old(e)@, Seq::empty(), ops[0]);
                assert(Seq::<(u8, bool)>::empty().push(ops[0]) =~= ops);
            }
        }
    }
}

} // verus!
