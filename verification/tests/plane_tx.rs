use threers::vp9::plane_tx::{prepare_plane_tx, score_block_tx, score_plane_tx, store_plane};
use threers::vp9::quant::{quantize, quantize_8x8};
use threers::vp9::tables::{TX_4X4, TX_8X8};
use threers::vp9::transform::{fdct8x8, fht4x4, TxType};

fn plane(w: usize, h: usize, f: impl Fn(usize, usize) -> u8) -> Vec<u8> {
    let mut p = vec![0u8; w * h];
    for y in 0..h {
        for x in 0..w {
            p[y * w + x] = f(x, y);
        }
    }
    p
}

/// Levels of the 4×4 tile at `(x, y)` of `src` against `pred` (raster, `bw` wide).
fn levels4(src: &[u8], stride: usize, x: usize, y: usize, pred: &[u8], bw: usize, lx: usize, ly: usize, q: usize) -> [i32; 16] {
    let mut res = [0i16; 16];
    for r in 0..4 {
        for c in 0..4 {
            res[r * 4 + c] = src[(y + r) * stride + x + c] as i16 - pred[(ly + r) * bw + lx + c] as i16;
        }
    }
    let mut coeff = [0i32; 16];
    fht4x4(&res, &mut coeff, TxType::DctDct);
    quantize(&coeff, q).0
}

#[test]
fn store_plane_writes_only_the_block() {
    let mut dst = vec![7u8; 8 * 8];
    let src = [1u8, 2, 3, 4, 5, 6];
    store_plane(&mut dst, 8, 3, 2, 3, 2, &src);
    for y in 0..8 {
        for x in 0..8 {
            let expect = if (2..4).contains(&y) && (3..6).contains(&x) { src[(y - 2) * 3 + x - 3] } else { 7 };
            assert_eq!(dst[y * 8 + x], expect, "({x}, {y})");
        }
    }
}

#[test]
fn perfect_prediction_costs_nothing() {
    let src = plane(32, 32, |x, y| (x * 7 + y * 3) as u8);
    let pred = plane(8, 8, |x, y| src[(8 + y) * 32 + 16 + x]);
    assert_eq!(score_plane_tx(&pred, 8, 8, &src, 32, 16, 8, TX_4X4, 128), (0, false));
    assert_eq!(score_plane_tx(&pred, 8, 8, &src, 32, 16, 8, TX_8X8, 128), (0, false));
}

#[test]
fn score_sums_quantized_magnitudes_over_tiles() {
    let src = plane(32, 32, |x, y| ((x * 13 + y * 29) % 251) as u8);
    let pred = plane(8, 8, |_, _| 100);
    let mut expect = 0u32;
    let mut any = false;
    for ty in 0..2 {
        for tx in 0..2 {
            let q = levels4(&src, 32, 4 + tx * 4, 4 + ty * 4, &pred, 8, tx * 4, ty * 4, 60);
            for v in q {
                expect += v.unsigned_abs();
                any |= v != 0;
            }
        }
    }
    assert!(expect > 0);
    assert_eq!(score_plane_tx(&pred, 8, 8, &src, 32, 4, 4, TX_4X4, 60), (expect, any));
}

#[test]
fn score_with_8x8_transform() {
    let src = plane(16, 16, |x, y| ((x * x + 3 * y) % 200) as u8);
    let pred = plane(8, 8, |x, _| (x * 10) as u8);
    let mut res = [0i16; 64];
    for r in 0..8 {
        for c in 0..8 {
            res[r * 8 + c] = src[(8 + r) * 16 + c] as i16 - pred[r * 8 + c] as i16;
        }
    }
    let mut coeff = [0i32; 64];
    fdct8x8(&res, &mut coeff);
    let q = quantize_8x8(&coeff, 90).0;
    let expect: u32 = q.iter().map(|v| v.unsigned_abs()).sum();
    let any = q.iter().any(|&v| v != 0);
    assert_eq!(score_plane_tx(&pred, 8, 8, &src, 16, 0, 8, TX_8X8, 90), (expect, any));
}

#[test]
fn prepared_tiles_follow_raster_order() {
    let src = plane(16, 16, |x, y| (x * 9 + y * 17) as u8);
    let pred = plane(8, 8, |x, y| (x + y * 8) as u8);
    let tiles = prepare_plane_tx(&pred, 8, 8, &src, 16, 8, 4, TX_4X4, 100);
    assert_eq!(tiles.len(), 4);
    for (t, tile) in tiles.iter().enumerate() {
        let (lx, ly) = ((t % 2) * 4, (t / 2) * 4);
        assert_eq!((tile.x, tile.y, tile.lx, tile.ly), (8 + lx, 4 + ly, lx, ly));
        assert_eq!(tile.q, levels4(&src, 16, 8 + lx, 4 + ly, &pred, 8, lx, ly, 100).to_vec());
        assert_eq!(tile.pred.len(), 16);
        assert_eq!(tile.pred[5], pred[(ly + 1) * 8 + lx + 1]);
        for (i, (&q, &dq)) in tile.q.iter().zip(tile.dq.iter()).enumerate() {
            let step = if i == 0 { threers::vp9::quant::dc_quant(100) } else { threers::vp9::quant::ac_quant(100) };
            assert_eq!(dq, q * step);
        }
    }
}

#[test]
fn block_score_adds_the_three_planes() {
    let y = plane(16, 16, |x, y| (x * 11 + y * 5) as u8);
    let u = plane(8, 8, |x, y| (x * 3 + y * 19) as u8);
    let v = plane(8, 8, |x, y| (200 - x * 4 - y) as u8);
    let yp = vec![90u8; 64];
    let up = vec![60u8; 16];
    let vp = vec![150u8; 16];
    let (cy, ay) = score_plane_tx(&yp, 8, 8, &y, 16, 8, 8, TX_8X8, 128);
    let (cu, au) = score_plane_tx(&up, 4, 4, &u, 8, 4, 4, TX_4X4, 128);
    let (cv, av) = score_plane_tx(&vp, 4, 4, &v, 8, 4, 4, TX_4X4, 128);
    let got = score_block_tx(8, 8, TX_8X8, &yp, &up, &vp, &y, &u, &v, 16, 8, 8, 8, 4, 4, 128);
    assert_eq!(got, (cy + cu + cv, ay || au || av));
}
