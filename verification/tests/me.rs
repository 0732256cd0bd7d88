use threers::vp9::me::{sad_mv, search_mv, search_mv_8x8};
use threers::vp9::mv::Mv;

#[test]
fn finds_horizontal_shift() {
    let mut plane = vec![0u8; 64 * 64];
    for j in 0..64 {
        for i in 0..64 {
            plane[j * 64 + i] = ((i * 3 + j) & 0xff) as u8;
        }
    }
    let mut src = plane.clone();
    for j in 16..24 {
        for i in 16..24 {
            src[j * 64 + i] = plane[j * 64 + i + 2];
        }
    }
    let mv = search_mv_8x8(&src, 64, &plane, 64, 64, 64, 16, 16, 4);
    assert_eq!(mv, Mv { row: 0, col: 16 });
}

#[test]
fn finds_16x16_shift() {
    let mut plane = vec![0u8; 64 * 64];
    for j in 0..64 {
        for i in 0..64 {
            plane[j * 64 + i] = ((i * 5 + j * 2) & 0xff) as u8;
        }
    }
    let mut src = plane.clone();
    for j in 8..24 {
        for i in 8..24 {
            src[j * 64 + i] = plane[j * 64 + i + 2];
        }
    }
    let mv = search_mv(&src, 64, &plane, 64, 64, 64, 8, 8, 16, 16, 4);
    assert_eq!(mv, Mv { row: 0, col: 16 });
}

#[test]
fn zero_when_identical() {
    let plane = vec![40u8; 32 * 32];
    let mv = search_mv_8x8(&plane, 32, &plane, 32, 32, 32, 8, 8, 4);
    assert_eq!(mv, Mv::default());
}

#[test]
fn sad_of_zero_mv_on_identical_planes_is_zero() {
    let plane: Vec<u8> = (0..32 * 32).map(|i| (i * 13 % 256) as u8).collect();
    assert_eq!(sad_mv(&plane, 32, &plane, 32, 32, 32, 4, 4, 8, 8, Mv::default()), 0);
}

#[test]
fn sad_of_fullpel_mv_counts_each_difference() {
    // Reference is a horizontal ramp; a one-pel horizontal shift differs by 1 everywhere.
    let reference: Vec<u8> = (0..32 * 32).map(|i| (i % 32) as u8).collect();
    let src = reference.clone();
    let s = sad_mv(&src, 32, &reference, 32, 32, 32, 8, 8, 4, 4, Mv { row: 0, col: 8 });
    assert_eq!(s, 16);
}

#[test]
fn search_result_beats_every_fullpel_candidate() {
    let mut reference = vec![0u8; 48 * 48];
    for j in 0..48usize {
        for i in 0..48usize {
            reference[j * 48 + i] = ((i * i + 3 * j * i + 7 * j) % 251) as u8;
        }
    }
    let mut src = vec![0u8; 48 * 48];
    for j in 0..48usize {
        for i in 0..48usize {
            src[j * 48 + i] = ((i * 13 + j * 29) % 256) as u8;
        }
    }
    let range: i16 = 3;
    let m = search_mv(&src, 48, &reference, 48, 48, 48, 16, 16, 8, 8, range);
    assert!(m.row % 2 == 0 && m.col % 2 == 0);
    assert!(m.row.abs() <= 8 * range + 4 && m.col.abs() <= 8 * range + 4);
    let best = sad_mv(&src, 48, &reference, 48, 48, 48, 16, 16, 8, 8, m);
    for dy in -range..=range {
        for dx in -range..=range {
            let s = sad_mv(&src, 48, &reference, 48, 48, 48, 16, 16, 8, 8, Mv { row: 8 * dy, col: 8 * dx });
            assert!(best <= s, "({dy},{dx}) sad {s} < chosen {best}");
        }
    }
}
