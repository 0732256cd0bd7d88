//! Mapping a triangle's side classification to the action a boolean
//! operation takes on it.
use vstd::prelude::*;

use super::constants::{
    ADDITION, ADD_TRI, BACK_SIDE, COPLANAR_ALIGNED, COPLANAR_OPPOSITE, DIFFERENCE, FRONT_SIDE,
    HOLLOW_INTERSECTION, HOLLOW_SUBTRACTION, INTERSECTION, INVERT_TRI, REVERSE_SUBTRACTION,
    SKIP_TRI, SUBTRACTION,
};

verus! {

/// Kept when it lies outside the other brush (or on a shared face that
/// points the other way).
pub open spec fn outside_or_opposite(hit_side: i8) -> bool {
    hit_side == FRONT_SIDE || hit_side == COPLANAR_OPPOSITE
}

/// The action of `operation` on a triangle of the brush being cut
/// (`invert == false`) or of the brush doing the cutting (`invert == true`)
/// that lies on `hit_side` of the other brush.
pub open spec fn spec_operation_action(operation: u8, hit_side: i8, invert: bool) -> u8 {
    if operation == ADDITION {
        if hit_side == FRONT_SIDE || (hit_side == COPLANAR_ALIGNED && !invert) { ADD_TRI } else { SKIP_TRI }
    } else if operation == SUBTRACTION {
        if invert {
            if hit_side == BACK_SIDE { INVERT_TRI } else { SKIP_TRI }
        } else {
            if outside_or_opposite(hit_side) { ADD_TRI } else { SKIP_TRI }
        }
    } else if operation == REVERSE_SUBTRACTION {
        if invert {
            if outside_or_opposite(hit_side) { ADD_TRI } else { SKIP_TRI }
        } else {
            if hit_side == BACK_SIDE { INVERT_TRI } else { SKIP_TRI }
        }
    } else if operation == DIFFERENCE {
        if hit_side == BACK_SIDE {
            INVERT_TRI
        } else if hit_side == FRONT_SIDE {
            ADD_TRI
        } else {
            SKIP_TRI
        }
    } else if operation == INTERSECTION {
        if hit_side == BACK_SIDE || (hit_side == COPLANAR_ALIGNED && !invert) { ADD_TRI } else { SKIP_TRI }
    } else if operation == HOLLOW_SUBTRACTION {
        if !invert && outside_or_opposite(hit_side) { ADD_TRI } else { SKIP_TRI }
    } else if operation == HOLLOW_INTERSECTION {
        if !invert && (hit_side == BACK_SIDE || hit_side == COPLANAR_ALIGNED) { ADD_TRI } else { SKIP_TRI }
    } else {
        SKIP_TRI
    }
}

/// Decide whether a triangle is kept, kept flipped, or dropped.
pub fn get_operation_action(operation: u8, hit_side: i8, invert: bool) -> (action: u8)
    ensures
        action == spec_operation_action(operation, hit_side, invert),
        action == ADD_TRI || action == INVERT_TRI || action == SKIP_TRI,
{
    match operation {
        ADDITION => {
            if hit_side == FRONT_SIDE || (hit_side == COPLANAR_ALIGNED && !invert) {
                ADD_TRI
            } else {
                SKIP_TRI
            }
        },
        SUBTRACTION => {
            if invert {
                if hit_side == BACK_SIDE {
                    INVERT_TRI
                } else {
                    SKIP_TRI
                }
            } else if hit_side == FRONT_SIDE || hit_side == COPLANAR_OPPOSITE {
                ADD_TRI
            } else {
                SKIP_TRI
            }
        },
        REVERSE_SUBTRACTION => {
            if invert {
                if hit_side == FRONT_SIDE || hit_side == COPLANAR_OPPOSITE {
                    ADD_TRI
                } else {
                    SKIP_TRI
                }
            } else if hit_side == BACK_SIDE {
                INVERT_TRI
            } else {
                SKIP_TRI
            }
        },
        DIFFERENCE => {
            if hit_side == BACK_SIDE {
                INVERT_TRI
            } else if hit_side == FRONT_SIDE {
                ADD_TRI
            } else {
                SKIP_TRI
            }
        },
        INTERSECTION => {
            if hit_side == BACK_SIDE || (hit_side == COPLANAR_ALIGNED && !invert) {
                ADD_TRI
            } else {
                SKIP_TRI
            }
        },
        HOLLOW_SUBTRACTION => {
            if !invert && (hit_side == FRONT_SIDE || hit_side == COPLANAR_OPPOSITE) {
                ADD_TRI
            } else {
                SKIP_TRI
            }
        },
        HOLLOW_INTERSECTION => {
            if !invert && (hit_side == BACK_SIDE || hit_side == COPLANAR_ALIGNED) {
                ADD_TRI
            } else {
                SKIP_TRI
            }
        },
        _ => SKIP_TRI,
    }
}

/// `B − A` treats each brush as `A − B` treats the other: reverse
/// subtraction is subtraction with the roles of the two brushes swapped.
pub proof fn lemma_reverse_subtraction_swaps_roles(hit_side: i8, invert: bool)
    ensures
        spec_operation_action(REVERSE_SUBTRACTION, hit_side, invert) == spec_operation_action(
            SUBTRACTION,
            hit_side,
            !invert,
        ),
{
}

/// Only subtraction-like operations flip triangles, and only those lying
/// behind (inside) the other brush.
pub proof fn lemma_invert_only_inside(operation: u8, hit_side: i8, invert: bool)
    requires
        spec_operation_action(operation, hit_side, invert) == INVERT_TRI,
    ensures
        hit_side == BACK_SIDE,
        operation == SUBTRACTION || operation == REVERSE_SUBTRACTION || operation == DIFFERENCE,
{
}

/// Addition and intersection keep complementary halves of each brush:
/// a triangle strictly in front or strictly behind is kept by exactly one.
pub proof fn lemma_addition_intersection_complementary(hit_side: i8, invert: bool)
    requires
        hit_side == FRONT_SIDE || hit_side == BACK_SIDE,
    ensures
        (spec_operation_action(ADDITION, hit_side, invert) == ADD_TRI) != (spec_operation_action(
            INTERSECTION,
            hit_side,
            invert,
        ) == ADD_TRI),
{
}

/// The hollow operations keep nothing of the cutting brush, and the
/// difference treats both brushes alike.
pub proof fn lemma_hollow_and_difference_roles(hit_side: i8)
    ensures
        spec_operation_action(HOLLOW_SUBTRACTION, hit_side, true) == SKIP_TRI,
        spec_operation_action(HOLLOW_INTERSECTION, hit_side, true) == SKIP_TRI,
        spec_operation_action(DIFFERENCE, hit_side, true) == spec_operation_action(
            DIFFERENCE,
            hit_side,
            false,
        ),
{
}

/// What each operation keeps of the brush being cut (`invert == false`), by
/// where its triangle lies relative to the other brush:
/// - addition keeps what is outside, plus shared faces pointing the same way;
/// - intersection keeps what is inside, plus shared faces pointing the same way;
/// - subtraction keeps what is outside, plus shared faces pointing the other way;
/// - the hollow operations keep of the cut brush exactly what their solid
///   counterparts keep;
/// - the difference keeps what is outside and flips what is inside;
/// - reverse subtraction flips what is inside and drops the rest.
pub proof fn law_cut_brush_actions(hit_side: i8)
    ensures
        spec_operation_action(ADDITION, hit_side, false) == (if hit_side == FRONT_SIDE || hit_side == COPLANAR_ALIGNED {
            ADD_TRI
        } else {
            SKIP_TRI
        }),
        spec_operation_action(INTERSECTION, hit_side, false) == (if hit_side == BACK_SIDE || hit_side == COPLANAR_ALIGNED {
            ADD_TRI
        } else {
            SKIP_TRI
        }),
        spec_operation_action(SUBTRACTION, hit_side, false) == (if hit_side == FRONT_SIDE || hit_side == COPLANAR_OPPOSITE {
            ADD_TRI
        } else {
            SKIP_TRI
        }),
        spec_operation_action(HOLLOW_INTERSECTION, hit_side, false) == spec_operation_action(INTERSECTION, hit_side, false),
        spec_operation_action(HOLLOW_SUBTRACTION, hit_side, false) == spec_operation_action(SUBTRACTION, hit_side, false),
        spec_operation_action(DIFFERENCE, hit_side, false) == (if hit_side == FRONT_SIDE {
            ADD_TRI
        } else if hit_side == BACK_SIDE {
            INVERT_TRI
        } else {
            SKIP_TRI
        }),
        spec_operation_action(REVERSE_SUBTRACTION, hit_side, false) == (if hit_side == BACK_SIDE {
            INVERT_TRI
        } else {
            SKIP_TRI
        }),
{
}

/// What each operation keeps of the cutting brush (`invert == true`):
/// addition keeps what is outside, intersection what is inside (shared
/// faces are kept once, from the cut brush); subtraction flips what lies
/// inside the cut brush; reverse subtraction keeps what is outside or on a
/// face pointing the other way; the hollow operations keep nothing.
pub proof fn law_cutting_brush_actions(hit_side: i8)
    ensures
        spec_operation_action(ADDITION, hit_side, true) == (if hit_side == FRONT_SIDE { ADD_TRI } else { SKIP_TRI }),
        spec_operation_action(INTERSECTION, hit_side, true) == (if hit_side == BACK_SIDE { ADD_TRI } else { SKIP_TRI }),
        spec_operation_action(SUBTRACTION, hit_side, true) == (if hit_side == BACK_SIDE { INVERT_TRI } else { SKIP_TRI }),
        spec_operation_action(REVERSE_SUBTRACTION, hit_side, true) == (if hit_side == FRONT_SIDE || hit_side
            == COPLANAR_OPPOSITE {
            ADD_TRI
        } else {
            SKIP_TRI
        }),
        spec_operation_action(HOLLOW_INTERSECTION, hit_side, true) == SKIP_TRI,
        spec_operation_action(HOLLOW_SUBTRACTION, hit_side, true) == SKIP_TRI,
{
}

} // verus!
