//! Expected vertex counts of the four hierarchy parity steps.
use vstd::prelude::*;

verus! {

/// Vertex counts of the reference evaluation after each step.
pub const JS_STEP1_VERTS: usize = 72;
pub const JS_STEP2_VERTS: usize = 53_070;
pub const JS_STEP3_VERTS: usize = 55_914;
pub const JS_STEP4_VERTS: usize = 59_454;

/// Allowed difference from the reference count after each step.
pub const STEP1_TOLERANCE: u64 = 0;
pub const STEP2_TOLERANCE: u64 = 0;
pub const STEP3_TOLERANCE: u64 = 0;
pub const STEP4_TOLERANCE: u64 = 0;

/// A hierarchy step number: `1..=4`.
pub open spec fn valid_step(step: u8) -> bool {
    1 <= step <= 4
}

pub open spec fn spec_js_target_verts(step: u8) -> usize {
    if step == 1 {
        JS_STEP1_VERTS
    } else if step == 2 {
        JS_STEP2_VERTS
    } else if step == 3 {
        JS_STEP3_VERTS
    } else {
        JS_STEP4_VERTS
    }
}

pub open spec fn spec_step_tolerance(step: u8) -> u64 {
    if step == 1 {
        STEP1_TOLERANCE
    } else if step == 2 {
        STEP2_TOLERANCE
    } else if step == 3 {
        STEP3_TOLERANCE
    } else {
        STEP4_TOLERANCE
    }
}

/// `|actual - expected|`.
pub open spec fn vert_delta(actual: usize, expected: usize) -> int {
    if actual >= expected {
        actual - expected
    } else {
        expected - actual
    }
}

/// Reference vertex count after `step`.
pub fn js_target_verts(step: u8) -> (n: usize)
    requires
        valid_step(step),
    ensures
        n == spec_js_target_verts(step),
{
    match step {
        1 => JS_STEP1_VERTS,
        2 => JS_STEP2_VERTS,
        3 => JS_STEP3_VERTS,
        _ => JS_STEP4_VERTS,
    }
}

/// Allowed vertex-count difference after `step`.
pub fn step_tolerance(step: u8) -> (t: u64)
    requires
        valid_step(step),
    ensures
        t == spec_step_tolerance(step),
{
    match step {
        1 => STEP1_TOLERANCE,
        2 => STEP2_TOLERANCE,
        3 => STEP3_TOLERANCE,
        _ => STEP4_TOLERANCE,
    }
}

/// Whether `actual` vertices after `step` are within tolerance of the
/// reference count.
pub open spec fn step_verts_ok(step: u8, actual: usize) -> bool {
    vert_delta(actual, spec_js_target_verts(step)) <= spec_step_tolerance(step)
}

/// Check a step's vertex count against the reference; callers may only pass
/// counts within tolerance, so a verified caller never fails the check.
pub fn assert_step_verts(step: u8, actual: usize)
    requires
        valid_step(step),
        step_verts_ok(step, actual),
{
    let expected = js_target_verts(step);
    let delta: u64 = if actual >= expected {
        (actual - expected) as u64
    } else {
        (expected - actual) as u64
    };
    let tol = step_tolerance(step);
    assert(delta <= tol);
}

} // verus!
