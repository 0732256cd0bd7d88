use threers::vp9::bool_coder::BoolEncoder;
use threers::vp9::mv::{
    default_nmv_comps, get_mv_class, log2_floor, write_mv, Mv, NmvComponent, DEFAULT_MV_JOINTS, MV_CLASS_TREE,
    MV_FP_TREE, MV_JOINT_HNZVNZ, MV_JOINT_HNZVZ, MV_JOINT_HZVNZ, MV_JOINT_TREE, MV_JOINT_ZERO,
};

#[test]
fn class0_one_and_two_pel() {
    let (c, o) = get_mv_class(7);
    assert_eq!((c, o >> 3, (o >> 1) & 3, o & 1), (0, 0, 3, 1));
    let (c, o) = get_mv_class(15);
    assert_eq!((c, o >> 3, (o >> 1) & 3, o & 1), (0, 1, 3, 1));
}

#[test]
fn joint_types() {
    assert_eq!(Mv { row: 0, col: 0 }.joint(), MV_JOINT_ZERO);
    assert_eq!(Mv { row: 0, col: 16 }.joint(), MV_JOINT_HNZVZ);
    assert_eq!(Mv { row: 16, col: 0 }.joint(), MV_JOINT_HZVNZ);
    assert_eq!(Mv { row: 16, col: 16 }.joint(), MV_JOINT_HNZVNZ);
}

#[test]
fn encode_zero_diff_finishes() {
    let mut e = BoolEncoder::new();
    write_mv(
        &mut e,
        Mv { row: 16, col: 0 },
        Mv { row: 16, col: 0 },
        false,
    );
    assert!(!e.finish().is_empty());
}

#[test]
fn larger_magnitudes_land_in_higher_classes() {
    // z = 16 (magnitude 17 in 1/8 pel) is the first value of class 1.
    let (c, o) = get_mv_class(16);
    assert_eq!((c, o), (1, 0));
    let (c, o) = get_mv_class(47);
    assert_eq!((c, o), (2, 15));
}

#[test]
fn log2_floor_values() {
    assert_eq!(log2_floor(1), 0);
    assert_eq!(log2_floor(2), 1);
    assert_eq!(log2_floor(255), 7);
    assert_eq!(log2_floor(256), 8);
}

/// RFC 6386 bool decoder.
struct Dec<'a> {
    input: &'a [u8],
    pos: usize,
    range: u32,
    value: u32,
    bits: i32,
}

impl<'a> Dec<'a> {
    fn new(input: &'a [u8]) -> Self {
        let mut d = Dec { input, pos: 2, range: 255, value: (input[0] as u32) << 8 | input[1] as u32, bits: 0 };
        assert!(!d.get(128));
        d
    }
    fn get(&mut self, prob: u8) -> bool {
        let split = 1 + (((self.range - 1) * prob as u32) >> 8);
        let big = split << 8;
        let r = if self.value >= big {
            self.range -= split;
            self.value -= big;
            true
        } else {
            self.range = split;
            false
        };
        while self.range < 128 {
            self.value <<= 1;
            self.range <<= 1;
            self.bits += 1;
            if self.bits == 8 {
                self.bits = 0;
                self.value |= self.input.get(self.pos).copied().unwrap_or(0) as u32;
                self.pos += 1;
            }
        }
        r
    }
    fn tree(&mut self, tree: &[i8], probs: &[u8]) -> i32 {
        let mut i = 0usize;
        loop {
            let b = self.get(probs[i / 2]);
            let next = tree[i + b as usize];
            if next <= 0 {
                return -(next as i32);
            }
            i = next as usize;
        }
    }
    /// libvpx `read_mv_component` with `usehp = 0`.
    fn component(&mut self, m: &NmvComponent) -> i32 {
        let sign = self.get(m.sign);
        let class = self.tree(&MV_CLASS_TREE, &m.classes);
        let (d, fr) = if class == 0 {
            let d = self.get(m.class0) as i32;
            (d, self.tree(&MV_FP_TREE, &m.class0_fp[d as usize]))
        } else {
            let mut d = 0;
            for i in 0..class {
                d |= (self.get(m.bits[i as usize]) as i32) << i;
            }
            (d, self.tree(&MV_FP_TREE, &m.fp))
        };
        let base = if class == 0 { 0 } else { 2 << (class + 2) };
        let mag = base + ((d << 3) | (fr << 1) | 1) + 1;
        if sign { -mag } else { mag }
    }
}

#[test]
fn coded_mv_deltas_decode_back() {
    let comps = default_nmv_comps();
    let reference = Mv { row: 200, col: -120 };
    for &(r, c) in &[(0i16, 2i16), (-2, 0), (6, -14), (64, 130), (-1024, 2046), (8190, -16384), (16384, 4096)] {
        let mv = Mv { row: reference.row + r, col: reference.col + c };
        let mut e = BoolEncoder::new();
        write_mv(&mut e, mv, reference, false);
        let bytes = e.finish();
        let mut d = Dec::new(&bytes);
        let joint = d.tree(&MV_JOINT_TREE, &DEFAULT_MV_JOINTS);
        let row = if joint == 2 || joint == 3 { d.component(&comps[0]) } else { 0 };
        let col = if joint == 1 || joint == 3 { d.component(&comps[1]) } else { 0 };
        assert_eq!((row, col), (r as i32, c as i32), "delta ({r}, {c})");
    }
}
