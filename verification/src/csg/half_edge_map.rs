//! Per-edge sibling links of a triangle soup: `data[3 * t + e]` is the
//! half-edge index paired with edge `e` of triangle `t`, or `-1`.
use vstd::prelude::*;

verus! {

#[derive(Debug)]
pub struct HalfEdgeMap {
    pub data: Vec<i32>,
}

/// Rust's `/` on `i32`: the quotient rounded toward zero.
pub open spec fn div_toward_zero(a: int, b: int) -> int {
    if a >= 0 {
        a / b
    } else {
        -((-a) / b)
    }
}

/// The triangle owning the half-edge paired with `other`, or `-1` when
/// the edge has no sibling.
pub open spec fn spec_sibling(other: i32) -> i32 {
    if other == -1 {
        -1i32
    } else {
        div_toward_zero(other as int, 3) as i32
    }
}

impl HalfEdgeMap {
    /// Index of the triangle across edge `edge_index` of triangle
    /// `tri_index`, or `-1` on an open edge.
    pub fn sibling_triangle_index(&self, tri_index: usize, edge_index: usize) -> (s: i32)
        requires
            tri_index * 3 + edge_index < self.data@.len(),
        ensures
            s == spec_sibling(self.data@[tri_index * 3 + edge_index]),
    {
        let n = self.data.len();
        assert(tri_index * 3 + edge_index < n);
        let other = self.data[tri_index * 3 + edge_index];
        if other == -1 {
            -1
        } else {
            other / 3
        }
    }
}

} // verus!
