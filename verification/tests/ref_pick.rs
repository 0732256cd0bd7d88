use threers::vp9::bool_coder::BoolEncoder;
use threers::vp9::encoder::Reconstruction;
use threers::vp9::inter::RefMode;
use threers::vp9::mc::{predict_inter, InterpFilter};
use threers::vp9::mi_context::{MiGrid, ResidualMi};
use threers::vp9::mode_info::write_inter_mode_bits;
use threers::vp9::mv::Mv;
use threers::vp9::ref_pick::{pick_interp_filter, pick_partition, pick_ref_and_mode, recon_for};
use threers::vp9::tables::{
    DEFAULT_INTRA_INTER_PROBS, DEFAULT_SKIP_PROBS, ALTREF_FRAME, GOLDEN_FRAME, INTRA_FRAME, LAST_FRAME, NEWMV,
    PARTITION_NONE, PARTITION_SPLIT, ZEROMV,
};

const W: usize = 64;
const H: usize = 64;

/// Deterministic texture.
fn texture(seed: u32) -> Vec<u8> {
    let mut s = seed | 1;
    (0..W * H)
        .map(|_| {
            s ^= s << 13;
            s ^= s >> 17;
            s ^= s << 5;
            (s >> 24) as u8
        })
        .collect()
}

fn recon(y: Vec<u8>) -> Reconstruction {
    let c = (W / 2) * (H / 2);
    Reconstruction { width: W as u32, height: H as u32, y, u: vec![128; c], v: vec![128; c] }
}

fn inter_unit() -> ResidualMi {
    ResidualMi {
        skip: false,
        is_inter: true,
        ref_frame: LAST_FRAME,
        second_ref: INTRA_FRAME,
        mode: ZEROMV,
        mv: Mv::default(),
        mv1: Mv::default(),
        bw_px: 8,
        bh_px: 8,
        block_origin: true,
        tx_size: 1,
        interp_filter: InterpFilter::EightTap,
    }
}

fn grid() -> MiGrid {
    MiGrid { mi: vec![inter_unit(); 64], mi_cols: 8, mi_rows: 8, tile_col_start: 0, tile_col_end: 8 }
}

#[test]
fn recon_for_falls_back_to_last() {
    let last = recon(vec![1; W * H]);
    let gold = recon(vec![2; W * H]);
    assert_eq!(recon_for(&last, Some(&gold), None, GOLDEN_FRAME).y[0], 2);
    assert_eq!(recon_for(&last, Some(&gold), None, ALTREF_FRAME).y[0], 1);
    assert_eq!(recon_for(&last, None, None, GOLDEN_FRAME).y[0], 1);
    assert_eq!(recon_for(&last, Some(&gold), None, LAST_FRAME).y[0], 1);
}

#[test]
fn identical_references_tie_towards_the_later_one() {
    let src = texture(7);
    let last = recon(src.clone());
    let gold = recon(src.clone());
    let g = grid();
    let p = pick_ref_and_mode(&g, &src, &last, Some(&gold), None, RefMode::Single, 2, 2, 16, 16, 16, 16, 16, 16, W, H);
    assert_eq!(p.ref_frame, GOLDEN_FRAME);
    assert_eq!(p.mode, ZEROMV);
    assert_eq!(p.mv, Mv::default());
    assert_eq!(p.second_ref, INTRA_FRAME);
}

#[test]
fn a_better_reference_wins() {
    let src = texture(11);
    let last = recon(texture(99));
    let gold = recon(src.clone());
    let g = grid();
    let p = pick_ref_and_mode(&g, &src, &last, Some(&gold), None, RefMode::Single, 2, 2, 16, 16, 16, 16, 16, 16, W, H);
    assert_eq!(p.ref_frame, GOLDEN_FRAME);
    assert_eq!(p.mode, ZEROMV);
    let p = pick_ref_and_mode(&g, &src, &gold, Some(&last), None, RefMode::Single, 2, 2, 16, 16, 16, 16, 16, 16, W, H);
    assert_eq!(p.ref_frame, LAST_FRAME);
}

#[test]
fn compound_mode_pairs_with_altref() {
    let src = texture(3);
    let last = recon(src.clone());
    let alt = recon(src.clone());
    let g = grid();
    let p = pick_ref_and_mode(&g, &src, &last, None, Some(&alt), RefMode::Compound, 2, 2, 16, 16, 16, 16, 16, 16, W, H);
    assert_eq!(p.ref_frame, LAST_FRAME);
    assert_eq!(p.second_ref, ALTREF_FRAME);
    assert_eq!(p.mode, ZEROMV);
}

#[test]
fn select_mode_keeps_single_on_ties() {
    let src = texture(5);
    let last = recon(src.clone());
    let alt = recon(src.clone());
    let g = grid();
    let p = pick_ref_and_mode(&g, &src, &last, None, Some(&alt), RefMode::Select, 2, 2, 16, 16, 16, 16, 16, 16, W, H);
    // Single ALTREF and compound both reach SAD 0: compound must be strictly better.
    assert_eq!(p.second_ref, INTRA_FRAME);
    assert_eq!(p.ref_frame, ALTREF_FRAME);
}

#[test]
fn shifted_source_is_found_by_the_search() {
    let refy = texture(21);
    let mut src = vec![0u8; W * H];
    // src(x, y) = ref(x + 3, y - 2): the block moved by (-2, +3) pixels.
    for y in 0..H {
        for x in 0..W {
            let sx = (x + 3).min(W - 1);
            let sy = y.saturating_sub(2);
            src[y * W + x] = refy[sy * W + sx];
        }
    }
    let last = recon(refy);
    let g = grid();
    let p = pick_ref_and_mode(&g, &src, &last, None, None, RefMode::Single, 2, 2, 16, 16, 16, 16, 16, 16, W, H);
    assert_eq!(p.mv, Mv { row: -16, col: 24 });
    assert_eq!(p.mode, NEWMV);
}

#[test]
fn whole_pel_vectors_keep_eighttap() {
    let src = texture(8);
    let last = recon(texture(9));
    let f = pick_interp_filter(&src, &last, None, None, 8, 8, 16, 16, W, H, Mv { row: 8, col: -16 }, Mv::default(), LAST_FRAME, INTRA_FRAME);
    assert_eq!(f, InterpFilter::EightTap);
}

#[test]
fn subpel_filter_matching_the_source_wins() {
    let refy = texture(17);
    let last = recon(refy.clone());
    let mv = Mv { row: 4, col: 2 };
    let mut pred = vec![0u8; 16 * 16];
    predict_inter(&refy, W, W, H, 16, 16, 16, 16, mv.row, mv.col, false, InterpFilter::EightTapSharp, &mut pred);
    let mut src = texture(1);
    for r in 0..16 {
        for c in 0..16 {
            src[(16 + r) * W + 16 + c] = pred[r * 16 + c];
        }
    }
    let f = pick_interp_filter(&src, &last, None, None, 16, 16, 16, 16, W, H, mv, Mv::default(), LAST_FRAME, INTRA_FRAME);
    assert_eq!(f, InterpFilter::EightTapSharp);
}

#[test]
fn flat_reference_ties_keep_eighttap() {
    let src = texture(4);
    let last = recon(vec![90; W * H]);
    let f = pick_interp_filter(&src, &last, None, None, 16, 16, 16, 16, W, H, Mv { row: 3, col: 5 }, Mv::default(), LAST_FRAME, INTRA_FRAME);
    assert_eq!(f, InterpFilter::EightTap);
}

#[test]
fn matching_block_keeps_partition_none() {
    let src = texture(12);
    assert_eq!(pick_partition(&src, &src, W, H, 2, 2, 16), PARTITION_NONE);
    assert_eq!(pick_partition(&src, &src, W, H, 0, 0, 64), PARTITION_NONE);
}

#[test]
fn independently_moving_quarters_split() {
    let refy = texture(33);
    let mut src = refy.clone();
    let shifts = [(2i32, 1i32), (-3, 2), (1, -4), (0, 3)];
    for (q, &(dx, dy)) in shifts.iter().enumerate() {
        let ox = 16 + (q % 2) * 8;
        let oy = 16 + (q / 2) * 8;
        for r in 0..8 {
            for c in 0..8 {
                let sx = (ox + c) as i32 + dx;
                let sy = (oy + r) as i32 + dy;
                src[(oy + r) * W + ox + c] = refy[sy as usize * W + sx as usize];
            }
        }
    }
    assert_eq!(pick_partition(&src, &refy, W, H, 2, 2, 16), PARTITION_SPLIT);
}

/// RFC 6386 bool decoder, to read back what was coded.
struct Dec<'a> {
    input: &'a [u8],
    pos: usize,
    range: u32,
    value: u32,
    bits: i32,
}

impl<'a> Dec<'a> {
    fn new(input: &'a [u8]) -> Self {
        let mut d = Dec { input, pos: 2, range: 255, value: (input[0] as u32) << 8 | input[1] as u32, bits: 0 };
        assert!(!d.get(128));
        d
    }
    fn get(&mut self, prob: u8) -> bool {
        let split = 1 + (((self.range - 1) * prob as u32) >> 8);
        let big = split << 8;
        let r = if self.value >= big {
            self.range -= split;
            self.value -= big;
            true
        } else {
            self.range = split;
            false
        };
        while self.range < 128 {
            self.value <<= 1;
            self.range <<= 1;
            self.bits += 1;
            if self.bits == 8 {
                self.bits = 0;
                self.value |= self.input.get(self.pos).copied().unwrap_or(0) as u32;
                self.pos += 1;
            }
        }
        r
    }
}

#[test]
fn mode_info_starts_with_segment_skip_and_inter() {
    let g = grid();
    let mut e = BoolEncoder::new();
    write_inter_mode_bits(
        &g, &mut e, RefMode::Single, 0, 0, 8, 8, true, 1, ZEROMV, LAST_FRAME, INTRA_FRAME,
        Mv::default(), Mv::default(), InterpFilter::EightTap, 5,
    );
    let bytes = e.finish();
    let mut d = Dec::new(&bytes);
    let seg = (d.get(255) as u8) << 2 | (d.get(255) as u8) << 1 | d.get(255) as u8;
    assert_eq!(seg, 5);
    // Corner block: no neighbours, skip context 0, intra/inter context 0.
    assert!(d.get(DEFAULT_SKIP_PROBS[0]));
    assert!(d.get(DEFAULT_INTRA_INTER_PROBS[0]));
}

#[test]
fn newmv_codes_more_than_zeromv() {
    let g = grid();
    let mut a = BoolEncoder::new();
    write_inter_mode_bits(
        &g, &mut a, RefMode::Single, 3, 3, 8, 8, false, 0, ZEROMV, LAST_FRAME, INTRA_FRAME,
        Mv::default(), Mv::default(), InterpFilter::EightTap, 0,
    );
    let mut b = BoolEncoder::new();
    write_inter_mode_bits(
        &g, &mut b, RefMode::Single, 3, 3, 8, 8, false, 0, NEWMV, LAST_FRAME, INTRA_FRAME,
        Mv { row: 120, col: -96 }, Mv::default(), InterpFilter::EightTap, 0,
    );
    assert!(b.finish().len() > a.finish().len());
}
