use threers::vp9::encoder::{neighbors_y, residual_packed4, store_4x4, store_local4};

#[test]
fn store_4x4_writes_only_the_block() {
    let mut plane = vec![0u8; 8 * 6];
    let block: [u8; 16] = core::array::from_fn(|k| k as u8 + 1);
    store_4x4(&mut plane, 8, 3, 1, &block);
    for r in 0..6 {
        for c in 0..8 {
            let v = plane[r * 8 + c];
            if (1..5).contains(&r) && (3..7).contains(&c) {
                assert_eq!(v, block[(r - 1) * 4 + (c - 3)]);
            } else {
                assert_eq!(v, 0);
            }
        }
    }
}

#[test]
fn store_local4_places_transform_blocks() {
    let mut local = [0u8; 64];
    store_local4(&mut local, 1, 1, &[9; 16]);
    assert_eq!(local[4 * 8 + 4], 9);
    assert_eq!(local[7 * 8 + 7], 9);
    assert_eq!(local[3 * 8 + 4], 0);
    assert_eq!(local[4 * 8 + 3], 0);
}

#[test]
fn residual_is_source_minus_prediction() {
    let src: Vec<u8> = (0..48).map(|k| (k * 3) as u8).collect();
    let pred = [10u8; 16];
    let r = residual_packed4(&pred, &src, 8, 2, 1);
    assert_eq!(r[0], (8 + 2) * 3 - 10);
    assert_eq!(r[15], ((4 * 8) + 5) * 3 - 10);
}

#[test]
fn neighbours_come_from_recon_or_scratch() {
    let recon: Vec<u8> = (0..16 * 16).map(|k| (k % 251) as u8).collect();
    let mut local = [0u8; 64];
    for k in 0..64 {
        local[k] = 200 + (k % 50) as u8;
    }
    // Top-left transform block: above from the recon row above, left from the column left.
    let (a, l) = neighbors_y(&recon, &local, 16, 8, 8, 0, 0, true, true);
    assert_eq!(a, [recon[7 * 16 + 8], recon[7 * 16 + 9], recon[7 * 16 + 10], recon[7 * 16 + 11]]);
    assert_eq!(l, [recon[8 * 16 + 7], recon[9 * 16 + 7], recon[10 * 16 + 7], recon[11 * 16 + 7]]);
    // Bottom-right transform block: both from the scratch block.
    let (a, l) = neighbors_y(&recon, &local, 16, 8, 8, 1, 1, true, true);
    assert_eq!(a, [local[3 * 8 + 4], local[3 * 8 + 5], local[3 * 8 + 6], local[3 * 8 + 7]]);
    assert_eq!(l, [local[4 * 8 + 3], local[5 * 8 + 3], local[6 * 8 + 3], local[7 * 8 + 3]]);
    // Unavailable edges use the fills.
    let (a, l) = neighbors_y(&recon, &local, 16, 0, 0, 0, 0, false, false);
    assert_eq!((a, l), ([127; 4], [129; 4]));
}
