use threers::csg::bvhcast_parity::{bvh_buffers_match, load_bvhcast_reference, load_shell_split_reference, SerializedBvhBits};
use threers::csg::topology::TriKey;

fn u32s(out: &mut Vec<u8>, vals: &[u32]) {
    for v in vals {
        out.extend_from_slice(&v.to_le_bytes());
    }
}

fn bvh_chunk(out: &mut Vec<u8>, nodes: &[f32], order: &[u32], indices: &[u32], pos: &[f32]) {
    out.extend_from_slice(b"BVH1");
    u32s(out, &[nodes.len() as u32, order.len() as u32, indices.len() as u32, pos.len() as u32]);
    for f in nodes {
        out.extend_from_slice(&f.to_le_bytes());
    }
    u32s(out, order);
    u32s(out, indices);
    for f in pos {
        out.extend_from_slice(&f.to_le_bytes());
    }
}

#[test]
fn shell_split_reference_reads_keys_and_clipped_keys() {
    let mut raw = b"SSP1".to_vec();
    u32s(&mut raw, &[17, 1, 1, 99]);
    for v in [1i32, -2, 3, 4, 5, 6, 7, 8, -9] {
        raw.extend_from_slice(&v.to_le_bytes());
    }
    for v in [0i32, 0, 0, 1, 1, 1, 2, 2, 2] {
        raw.extend_from_slice(&v.to_le_bytes());
    }
    let r = load_shell_split_reference(&raw);
    assert_eq!(r.split_id_count, 17);
    assert_eq!(r.clipped_total, 99);
    assert_eq!(r.tri_keys, vec![TriKey((1, -2, 3, 4, 5, 6, 7, 8, -9))]);
    assert_eq!(r.clipped_tri_keys, vec![TriKey((0, 0, 0, 1, 1, 1, 2, 2, 2))]);
}

#[test]
fn short_shell_split_header_has_no_clipped_section() {
    let mut raw = b"SSP1".to_vec();
    u32s(&mut raw, &[3, 0]);
    let r = load_shell_split_reference(&raw);
    assert_eq!(r.split_id_count, 3);
    assert!(r.tri_keys.is_empty());
    assert!(r.clipped_tri_keys.is_empty());
    assert_eq!(r.clipped_total, 0);
}

#[test]
fn bvhcast_reference_reads_every_section() {
    let mut raw = b"BCP1".to_vec();
    u32s(&mut raw, &[2, 1, 2, 3, 2]);
    u32s(&mut raw, &[0, 5, 7, 1]);
    u32s(&mut raw, &[4]);
    u32s(&mut raw, &[8, 9]);
    u32s(&mut raw, &[1, 2, 3]);
    u32s(&mut raw, &[0, 0]);
    bvh_chunk(&mut raw, &[1.5, -2.0], &[0, 1], &[2], &[0.25]);
    bvh_chunk(&mut raw, &[], &[3], &[], &[]);
    let r = load_bvhcast_reference(&raw);
    assert_eq!(r.pairs, vec![(0, 5), (7, 1)]);
    assert_eq!(r.a_ids, vec![4]);
    assert_eq!(r.b_ids, vec![8, 9]);
    assert_eq!(r.a_neighbors, vec![1, 2, 3]);
    assert_eq!(r.b_neighbors, vec![0, 0]);
    assert_eq!(r.shell_bvh.version, 1);
    assert_eq!(r.shell_bvh.node_buffer, vec![1.5f32.to_bits(), (-2.0f32).to_bits()]);
    assert_eq!(r.shell_bvh.triangle_order, vec![0, 1]);
    assert_eq!(r.shell_bvh.triangle_indices, vec![2]);
    assert_eq!(r.shell_bvh.positions, vec![0.25f32.to_bits()]);
    assert!(r.sphere_bvh.node_buffer.is_empty());
    assert_eq!(r.sphere_bvh.triangle_order, vec![3]);
}

fn bits(v: &[f32]) -> Vec<u32> {
    v.iter().map(|f| f.to_bits()).collect()
}

fn bvh(nodes: &[f32], order: &[u32], indices: &[u32], pos: &[f32]) -> SerializedBvhBits {
    SerializedBvhBits {
        version: 1,
        node_buffer: bits(nodes),
        triangle_order: order.to_vec(),
        triangle_indices: indices.to_vec(),
        positions: bits(pos),
    }
}

#[test]
fn bvh_buffers_match_compares_floats_as_floats() {
    let a = bvh(&[0.0, 1.5], &[0, 1], &[2, 3], &[-0.0, 4.25]);
    let b = bvh(&[-0.0, 1.5], &[0, 1], &[2, 3], &[0.0, 4.25]);
    assert!(bvh_buffers_match(&a, &b));
    assert!(bvh_buffers_match(&a, &a));
}

#[test]
fn bvh_buffers_match_rejects_nan_and_differences() {
    let a = bvh(&[f32::NAN], &[0], &[1], &[1.0]);
    assert!(!bvh_buffers_match(&a, &a));
    let b = bvh(&[1.0], &[0], &[1], &[1.0]);
    let c = bvh(&[1.0], &[1], &[1], &[1.0]);
    let d = bvh(&[1.0], &[0], &[1], &[1.0, 2.0]);
    let e = bvh(&[1.0], &[0], &[2], &[1.0]);
    assert!(!bvh_buffers_match(&b, &c));
    assert!(!bvh_buffers_match(&b, &d));
    assert!(!bvh_buffers_match(&b, &e));
}
