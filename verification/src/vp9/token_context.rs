//! Non-zero token contexts: one flag per 4×4 column above (whole frame)
//! and per 4×4 row to the left (within the superblock) for each plane,
//! recording whether the neighbouring transform block had coefficients.
use vstd::prelude::*;

verus! {

/// A colour plane.
#[derive(Clone, Copy, Debug, PartialEq, Eq, Structural)]
pub enum EntPlane {
    Y,
    U,
    V,
}

/// Above flags per 4×4 column, left flags per 4×4 row of the superblock.
pub struct TokenContext {
    pub above_ent_y: Vec<u8>,
    pub left_ent_y: [u8; 16],
    pub above_ent_u: Vec<u8>,
    pub left_ent_u: [u8; 8],
    pub above_ent_v: Vec<u8>,
    pub left_ent_v: [u8; 8],
    pub mi_cols: usize,
    pub mi_rows: usize,
}

pub open spec fn b2u(b: bool) -> int {
    if b { 1 } else { 0 }
}

/// Some of the `n` flags of `s` from `start` is set.
pub open spec fn any_set(s: Seq<u8>, start: int, n: int) -> bool {
    exists|i: int| 0 <= i < n && #[trigger] s[start + i] != 0
}

/// Some of the `n` left flags from row `start` (wrapping modulo `m`) is set.
pub open spec fn any_set_wrapping(s: Seq<u8>, start: int, n: int, m: int) -> bool {
    exists|i: int| 0 <= i < n && #[trigger] s[(start + i) % m] != 0
}

/// Whether position `k` of a wrapping range of `n` from `start` (mod `m`)
/// is covered.
pub open spec fn covered_wrapping(k: int, start: int, n: int, m: int) -> bool {
    (k - start % m + m) % m < n
}

impl TokenContext {
    /// Two luma flags and one flag per chroma plane for each MI column.
    pub open spec fn wf(&self) -> bool {
        &&& self.above_ent_y@.len() == 2 * self.mi_cols
        &&& self.above_ent_u@.len() == self.mi_cols
        &&& self.above_ent_v@.len() == self.mi_cols
    }

    pub open spec fn above_of(&self, plane: EntPlane) -> Seq<u8> {
        match plane {
            EntPlane::Y => self.above_ent_y@,
            EntPlane::U => self.above_ent_u@,
            EntPlane::V => self.above_ent_v@,
        }
    }

    pub open spec fn left_of(&self, plane: EntPlane) -> Seq<u8> {
        match plane {
            EntPlane::Y => self.left_ent_y@,
            EntPlane::U => self.left_ent_u@,
            EntPlane::V => self.left_ent_v@,
        }
    }

    /// Rows of left flags: 16 for luma, 8 for chroma.
    pub open spec fn left_rows(plane: EntPlane) -> int {
        if plane == EntPlane::Y { 16 } else { 8 }
    }

    /// Token context of an `n4`-wide transform block at sample `(x, y)`:
    /// how many of its above and left neighbours had coefficients.
    pub fn ent_ctx(&self, plane: EntPlane, x: usize, y: usize, n4: usize) -> (ctx: usize)
        requires
            self.wf(),
            x / 4 + n4 <= self.above_of(plane).len(),
            n4 <= Self::left_rows(plane),
            y / 4 + n4 <= usize::MAX,
        ensures
            ctx == b2u(any_set(self.above_of(plane), (x / 4) as int, n4 as int)) + b2u(
                any_set_wrapping(self.left_of(plane), (y / 4) as int, n4 as int, Self::left_rows(plane)),
            ),
    {
        let (above, left, m): (&Vec<u8>, &[u8], usize) = match plane {
            EntPlane::Y => (&self.above_ent_y, self.left_ent_y.as_slice(), 16),
            EntPlane::U => (&self.above_ent_u, self.left_ent_u.as_slice(), 8),
            EntPlane::V => (&self.above_ent_v, self.left_ent_v.as_slice(), 8),
        };
        assert(above@ == self.above_of(plane) && left@ == self.left_of(plane) && m == Self::left_rows(plane));
        let alen = above.len();
        let mut a = false;
        let mut l = false;
        let mut i: usize = 0;
        while i < n4
            invariant
                i <= n4,
                alen == above@.len(),
                x / 4 + n4 <= above@.len(),
                y / 4 + n4 <= usize::MAX,
                left@.len() == m,
                m == 8 || m == 16,
                a == (exists|j: int| 0 <= j < i && #[trigger] above@[(x / 4) + j] != 0),
                l == (exists|j: int| 0 <= j < i && #[trigger] left@[((y / 4) + j) % (m as int)] != 0),
            decreases n4 - i,
        {
            if above[x / 4 + i] != 0 {
                a = true;
            }
            if left[(y / 4 + i) % m] != 0 {
                l = true;
            }
            i += 1;
        }
        let ca: usize = if a { 1 } else { 0 };
        let cl: usize = if l { 1 } else { 0 };
        ca + cl
    }
}

fn set_range(v: &mut Vec<u8>, start: usize, n: usize, val: u8)
    requires
        start + n <= old(v)@.len(),
    ensures
        final(v)@.len() == old(v)@.len(),
        forall|j: int| 0 <= j < old(v)@.len() ==> #[trigger] final(v)@[j] == if start <= j < start + n {
            val
        } else {
            old(v)@[j]
        },
{
    let vlen = v.len();
    let mut i: usize = 0;
    while i < n
        invariant
            i <= n,
            vlen == old(v)@.len(),
            start + n <= old(v)@.len(),
            v@.len() == old(v)@.len(),
            forall|j: int| 0 <= j < old(v)@.len() ==> #[trigger] v@[j] == if start <= j < start + i {
                val
            } else {
                old(v)@[j]
            },
        decreases n - i,
    {
        v.set(start + i, val);
        i += 1;
    }
}

fn set_wrapping16(l: &mut [u8; 16], start: usize, n: usize, val: u8)
    requires
        n <= 16,
        start + n <= usize::MAX,
    ensures
        forall|k: int| 0 <= k < 16 ==> #[trigger] final(l)@[k] == if covered_wrapping(k, start as int, n as int, 16) {
            val
        } else {
            old(l)@[k]
        },
{
    let mut i: usize = 0;
    while i < n
        invariant
            i <= n,
            n <= 16,
            start + n <= usize::MAX,
            forall|k: int| 0 <= k < 16 ==> #[trigger] l@[k] == if covered_wrapping(k, start as int, i as int, 16) {
                val
            } else {
                old(l)@[k]
            },
        decreases n - i,
    {
        l[(start + i) % 16] = val;
        i += 1;
    }
}

fn set_wrapping8(l: &mut [u8; 8], start: usize, n: usize, val: u8)
    requires
        n <= 8,
        start + n <= usize::MAX,
    ensures
        forall|k: int| 0 <= k < 8 ==> #[trigger] final(l)@[k] == if covered_wrapping(k, start as int, n as int, 8) {
            val
        } else {
            old(l)@[k]
        },
{
    let mut i: usize = 0;
    while i < n
        invariant
            i <= n,
            n <= 8,
            start + n <= usize::MAX,
            forall|k: int| 0 <= k < 8 ==> #[trigger] l@[k] == if covered_wrapping(k, start as int, i as int, 8) {
                val
            } else {
                old(l)@[k]
            },
        decreases n - i,
    {
        l[(start + i) % 8] = val;
        i += 1;
    }
}

impl TokenContext {
    /// Record whether an `n4`-wide transform block at sample `(x, y)` had
    /// coefficients: set its above and left flags to `has`.
    pub fn set_ent(&mut self, plane: EntPlane, x: usize, y: usize, n4: usize, has: u8)
        requires
            old(self).wf(),
            x / 4 + n4 <= old(self).above_of(plane).len(),
            n4 <= Self::left_rows(plane),
            y / 4 + n4 <= usize::MAX,
        ensures
            final(self).wf(),
            final(self).mi_cols == old(self).mi_cols,
            final(self).mi_rows == old(self).mi_rows,
            forall|p: EntPlane|
                p != plane ==> final(self).above_of(p) == old(self).above_of(p) && final(self).left_of(p)
                    == old(self).left_of(p),
            forall|j: int|
                0 <= j < old(self).above_of(plane).len() ==> #[trigger] final(self).above_of(plane)[j] == if x / 4
                    <= j < x / 4 + n4 {
                    has
                } else {
                    old(self).above_of(plane)[j]
                },
            forall|k: int|
                0 <= k < Self::left_rows(plane) ==> #[trigger] final(self).left_of(plane)[k] == if covered_wrapping(
                    k,
                    (y / 4) as int,
                    n4 as int,
                    Self::left_rows(plane),
                ) {
                    has
                } else {
                    old(self).left_of(plane)[k]
                },
    {
        match plane {
            EntPlane::Y => {
                set_range(&mut self.above_ent_y, x / 4, n4, has);
                set_wrapping16(&mut self.left_ent_y, y / 4, n4, has);
            },
            EntPlane::U => {
                set_range(&mut self.above_ent_u, x / 4, n4, has);
                set_wrapping8(&mut self.left_ent_u, y / 4, n4, has);
            },
            EntPlane::V => {
                set_range(&mut self.above_ent_v, x / 4, n4, has);
                set_wrapping8(&mut self.left_ent_v, y / 4, n4, has);
            },
        }
    }

    /// Columns of the block at `mi_col`, `bw_mi` wide, inside the frame.
    pub open spec fn cols_in(&self, mi_col: int, bw_mi: int) -> int {
        if mi_col >= self.mi_cols {
            0
        } else if mi_col + bw_mi <= self.mi_cols {
            bw_mi
        } else {
            self.mi_cols - mi_col
        }
    }

    /// Rows of the block at `mi_row`, `bh_mi` tall, inside the frame.
    pub open spec fn rows_in(&self, mi_row: int, bh_mi: int) -> int {
        if mi_row >= self.mi_rows {
            0
        } else if mi_row + bh_mi <= self.mi_rows {
            bh_mi
        } else {
            self.mi_rows - mi_row
        }
    }

    /// Clear every flag of a skipped `bw_mi × bh_mi` block at
    /// `(mi_row, mi_col)` (its parts inside the frame).
    pub fn clear_ent_block(&mut self, mi_row: usize, mi_col: usize, bw_mi: usize, bh_mi: usize)
        requires
            old(self).wf(),
            bw_mi <= 8,
            bh_mi <= 8,
            mi_row + 8 <= usize::MAX,
        ensures
            final(self).wf(),
            final(self).mi_cols == old(self).mi_cols,
            final(self).mi_rows == old(self).mi_rows,
            ({
                let nc = old(self).cols_in(mi_col as int, bw_mi as int);
                let nr = old(self).rows_in(mi_row as int, bh_mi as int);
                &&& forall|j: int|
                    0 <= j < 2 * old(self).mi_cols ==> #[trigger] final(self).above_ent_y@[j] == if 2 * mi_col <= j < 2 * (
                    mi_col + nc) {
                        0
                    } else {
                        old(self).above_ent_y@[j]
                    }
                &&& forall|j: int|
                    0 <= j < old(self).mi_cols ==> #[trigger] final(self).above_ent_u@[j] == if mi_col <= j < mi_col + nc {
                        0
                    } else {
                        old(self).above_ent_u@[j]
                    }
                &&& forall|j: int|
                    0 <= j < old(self).mi_cols ==> #[trigger] final(self).above_ent_v@[j] == if mi_col <= j < mi_col + nc {
                        0
                    } else {
                        old(self).above_ent_v@[j]
                    }
                &&& forall|k: int|
                    0 <= k < 16 ==> #[trigger] final(self).left_ent_y@[k] == if covered_wrapping(
                        k,
                        2 * (mi_row % 8),
                        2 * nr,
                        16,
                    ) {
                        0
                    } else {
                        old(self).left_ent_y@[k]
                    }
                &&& forall|k: int|
                    0 <= k < 8 ==> #[trigger] final(self).left_ent_u@[k] == if covered_wrapping(k, mi_row as int, nr, 8) {
                        0
                    } else {
                        old(self).left_ent_u@[k]
                    }
                &&& forall|k: int|
                    0 <= k < 8 ==> #[trigger] final(self).left_ent_v@[k] == if covered_wrapping(k, mi_row as int, nr, 8) {
                        0
                    } else {
                        old(self).left_ent_v@[k]
                    }
            }),
    {
        let nc: usize = if mi_col >= self.mi_cols {
            0
        } else if bw_mi <= self.mi_cols - mi_col {
            bw_mi
        } else {
            self.mi_cols - mi_col
        };
        let nr: usize = if mi_row >= self.mi_rows {
            0
        } else if bh_mi <= self.mi_rows - mi_row {
            bh_mi
        } else {
            self.mi_rows - mi_row
        };
        if nc > 0 {
            let ylen = self.above_ent_y.len();
            assert(2 * mi_col + 2 * nc <= ylen);
            set_range(&mut self.above_ent_y, 2 * mi_col, 2 * nc, 0);
            set_range(&mut self.above_ent_u, mi_col, nc, 0);
            set_range(&mut self.above_ent_v, mi_col, nc, 0);
        }
        let row0 = mi_row % 8;
        set_wrapping16(&mut self.left_ent_y, 2 * row0, 2 * nr, 0);
        set_wrapping8(&mut self.left_ent_u, row0, nr, 0);
        set_wrapping8(&mut self.left_ent_v, row0, nr, 0);
        proof {
            assert forall|k: int| 0 <= k < 8 implies covered_wrapping(k, row0 as int, nr as int, 8)
                == covered_wrapping(k, mi_row as int, nr as int, 8) by {
                assert(row0 as int % 8 == mi_row as int % 8);
            }
        }
    }
}

} // verus!
