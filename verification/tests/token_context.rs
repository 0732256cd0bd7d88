use threers::vp9::token_context::{EntPlane, TokenContext};

fn ctx(mi_cols: usize, mi_rows: usize) -> TokenContext {
    TokenContext {
        above_ent_y: vec![0; 2 * mi_cols],
        left_ent_y: [0; 16],
        above_ent_u: vec![0; mi_cols],
        left_ent_u: [0; 8],
        above_ent_v: vec![0; mi_cols],
        left_ent_v: [0; 8],
        mi_cols,
        mi_rows,
    }
}

#[test]
fn token_context_counts_coded_neighbours() {
    let mut t = ctx(4, 4);
    assert_eq!(t.ent_ctx(EntPlane::Y, 8, 8, 2), 0);
    t.set_ent(EntPlane::Y, 8, 0, 2, 1);
    assert_eq!(t.above_ent_y, vec![0, 0, 1, 1, 0, 0, 0, 0]);
    assert_eq!(t.ent_ctx(EntPlane::Y, 8, 8, 1), 1);
    t.set_ent(EntPlane::Y, 0, 8, 1, 1);
    assert_eq!(t.ent_ctx(EntPlane::Y, 8, 8, 1), 2);
    // Chroma planes are independent of luma.
    assert_eq!(t.ent_ctx(EntPlane::U, 4, 4, 1), 0);
}

#[test]
fn left_flags_wrap_within_the_superblock() {
    let mut t = ctx(2, 16);
    t.set_ent(EntPlane::U, 0, 28, 2, 1);
    assert_eq!(t.left_ent_u, [1, 0, 0, 0, 0, 0, 0, 1]);
}

#[test]
fn clear_ent_block_clears_only_the_block_inside_the_frame() {
    let mut t = ctx(3, 3);
    t.above_ent_y = vec![1; 6];
    t.above_ent_u = vec![1; 3];
    t.above_ent_v = vec![1; 3];
    t.left_ent_y = [1; 16];
    t.left_ent_u = [1; 8];
    t.left_ent_v = [1; 8];
    t.clear_ent_block(2, 1, 4, 4);
    assert_eq!(t.above_ent_y, vec![1, 1, 0, 0, 0, 0]);
    assert_eq!(t.above_ent_u, vec![1, 0, 0]);
    assert_eq!(t.left_ent_u, [1, 1, 0, 1, 1, 1, 1, 1]);
    assert_eq!(t.left_ent_y, [1, 1, 1, 1, 0, 0, 1, 1, 1, 1, 1, 1, 1, 1, 1, 1]);
}
