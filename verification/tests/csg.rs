use threers::csg::bvhcast_parity::{intersection_neighbors, pair_overlap};
use threers::csg::constants::{
    ADDITION, ADD_TRI, BACK_SIDE, COPLANAR_ALIGNED, COPLANAR_OPPOSITE, DIFFERENCE, FRONT_SIDE,
    HOLLOW_INTERSECTION, HOLLOW_SUBTRACTION, INTERSECTION, INVERT_TRI, REVERSE_SUBTRACTION,
    SKIP_TRI, SUBTRACTION,
};
use threers::csg::half_edge_map::HalfEdgeMap;
use threers::csg::hierarchy_steps::{
    assert_step_verts, js_target_verts, step_tolerance, JS_STEP1_VERTS, JS_STEP4_VERTS,
};
use threers::csg::hit_side::get_operation_action;
use threers::csg::intersection_map::IntersectionMap;
use threers::csg::topology::{topology_overlap, tri_key_overlap, TriKey};

#[test]
fn subtraction_inverts_cutter_triangles_inside_the_shell() {
    assert_eq!(get_operation_action(SUBTRACTION, BACK_SIDE, true), INVERT_TRI);
    assert_eq!(get_operation_action(SUBTRACTION, FRONT_SIDE, true), SKIP_TRI);
    assert_eq!(get_operation_action(SUBTRACTION, FRONT_SIDE, false), ADD_TRI);
    assert_eq!(get_operation_action(SUBTRACTION, COPLANAR_OPPOSITE, false), ADD_TRI);
    assert_eq!(get_operation_action(SUBTRACTION, BACK_SIDE, false), SKIP_TRI);
}

#[test]
fn operation_table_matches_each_mode() {
    assert_eq!(get_operation_action(ADDITION, FRONT_SIDE, true), ADD_TRI);
    assert_eq!(get_operation_action(ADDITION, COPLANAR_ALIGNED, false), ADD_TRI);
    assert_eq!(get_operation_action(ADDITION, COPLANAR_ALIGNED, true), SKIP_TRI);
    assert_eq!(get_operation_action(INTERSECTION, BACK_SIDE, false), ADD_TRI);
    assert_eq!(get_operation_action(INTERSECTION, FRONT_SIDE, false), SKIP_TRI);
    assert_eq!(get_operation_action(DIFFERENCE, BACK_SIDE, true), INVERT_TRI);
    assert_eq!(get_operation_action(DIFFERENCE, FRONT_SIDE, true), ADD_TRI);
    assert_eq!(get_operation_action(DIFFERENCE, COPLANAR_ALIGNED, false), SKIP_TRI);
    assert_eq!(get_operation_action(HOLLOW_SUBTRACTION, FRONT_SIDE, false), ADD_TRI);
    assert_eq!(get_operation_action(HOLLOW_SUBTRACTION, FRONT_SIDE, true), SKIP_TRI);
    assert_eq!(get_operation_action(HOLLOW_INTERSECTION, COPLANAR_ALIGNED, false), ADD_TRI);
    assert_eq!(get_operation_action(HOLLOW_INTERSECTION, BACK_SIDE, true), SKIP_TRI);
    assert_eq!(get_operation_action(99, FRONT_SIDE, false), SKIP_TRI);
}

#[test]
fn reverse_subtraction_swaps_brush_roles() {
    for &side in &[FRONT_SIDE, BACK_SIDE, COPLANAR_ALIGNED, COPLANAR_OPPOSITE] {
        for &inv in &[false, true] {
            assert_eq!(
                get_operation_action(REVERSE_SUBTRACTION, side, inv),
                get_operation_action(SUBTRACTION, side, !inv)
            );
        }
    }
}

#[test]
fn intersection_map_keeps_first_seen_order() {
    let mut m = IntersectionMap::new();
    m.add(5, 1);
    m.add(2, 7);
    m.add(5, 3);
    assert_eq!(m.ids, vec![5, 2]);
    assert_eq!(m.intersection_set[&5], vec![1, 3]);
    assert_eq!(m.intersection_set[&2], vec![7]);
    assert_eq!(intersection_neighbors(&m), vec![2, 1, 3, 1, 7]);
    assert!(intersection_neighbors(&IntersectionMap::new()).is_empty());
}

#[test]
fn pair_overlap_counts_distinct_pairs() {
    let native = [(1, 2), (3, 4), (1, 2), (5, 6)];
    let reference = [(3, 4), (7, 8), (1, 2)];
    assert_eq!(pair_overlap(&native, &reference), (3, 3, 2));
    assert_eq!(pair_overlap(&[], &reference), (0, 3, 0));
    // (2, 1) is not (1, 2): pairs are ordered.
    assert_eq!(pair_overlap(&[(2, 1)], &[(1, 2)]), (1, 1, 0));
}

#[test]
fn sibling_triangle_index_divides_by_three() {
    let map = HalfEdgeMap { data: vec![4, -1, 8, 0, 7, -1, -1, 4, 2] };
    assert_eq!(map.sibling_triangle_index(0, 0), 1);
    assert_eq!(map.sibling_triangle_index(0, 1), -1);
    assert_eq!(map.sibling_triangle_index(0, 2), 2);
    assert_eq!(map.sibling_triangle_index(1, 1), 2);
    assert_eq!(map.sibling_triangle_index(2, 2), 0);
}

#[test]
fn step_targets_and_tolerances() {
    assert_eq!(js_target_verts(1), JS_STEP1_VERTS);
    assert_eq!(js_target_verts(2), 53_070);
    assert_eq!(js_target_verts(3), 55_914);
    assert_eq!(js_target_verts(4), JS_STEP4_VERTS);
    for s in 1..=4 {
        assert_eq!(step_tolerance(s), 0);
    }
    assert_step_verts(1, 72);
    assert_step_verts(4, 59_454);
}

fn key(v: [i32; 9]) -> TriKey {
    TriKey((v[0], v[1], v[2], v[3], v[4], v[5], v[6], v[7], v[8]))
}

#[test]
fn tri_key_overlap_counts_exact_and_two_corner_matches() {
    let a = key([0, 0, 0, 1, 0, 0, 0, 1, 0]);
    let b = key([1, 0, 0, 0, 1, 0, 1, 1, 0]);
    let c = key([5, 5, 5, 6, 5, 5, 5, 6, 5]);
    let a_shifted = key([0, 0, 0, 1, 0, 0, 9, 9, 9]);
    let reference = [a, b];
    let native = [a, a, a_shifted, c];
    let o = tri_key_overlap(&native, &reference);
    assert_eq!(o.exact_shared, 1);
    // `a` matches exactly, `a_shifted` shares two corners with `a`, `c` none.
    assert_eq!(o.partial_shared, 2);
}

#[test]
fn topology_overlap_partitions_both_sets() {
    let a = key([0; 9]);
    let b = key([1; 9]);
    let c = key([2; 9]);
    let d = key([3; 9]);
    let o = topology_overlap(&[a, b, c, a], &[b, c, d]);
    assert_eq!(o.native_tris, 3);
    assert_eq!(o.reference_tris, 3);
    assert_eq!(o.shared, 2);
    assert_eq!(o.only_native, 1);
    assert_eq!(o.only_reference, 1);
}
