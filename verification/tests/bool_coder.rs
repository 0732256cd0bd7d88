use threers::vp9::bool_coder::BoolEncoder;

/// The decode counterpart (RFC 6386 §7.3), used only to prove the encoder
/// round-trips.
struct BoolDecoder<'a> {
    input: &'a [u8],
    pos: usize,
    range: u32,
    value: u32,
    bit_count: i32,
}
impl<'a> BoolDecoder<'a> {
    fn new(input: &'a [u8]) -> Self {
        let b0 = input.first().copied().unwrap_or(0) as u32;
        let b1 = input.get(1).copied().unwrap_or(0) as u32;
        let mut d = Self {
            input,
            pos: 2,
            range: 255,
            value: (b0 << 8) | b1,
            bit_count: 0,
        };
        // libvpx `vpx_reader_init` consumes the encoder's priming 0 bit.
        assert!(!d.get_bool(128), "bool coder marker bit must be 0");
        d
    }
    fn get_bool(&mut self, prob: u8) -> bool {
        let split = 1 + (((self.range - 1) * prob as u32) >> 8);
        let big_split = split << 8;
        let ret = if self.value >= big_split {
            self.range -= split;
            self.value -= big_split;
            true
        } else {
            self.range = split;
            false
        };
        while self.range < 128 {
            self.value <<= 1;
            self.range <<= 1;
            self.bit_count += 1;
            if self.bit_count == 8 {
                self.bit_count = 0;
                let byte = self.input.get(self.pos).copied().unwrap_or(0) as u32;
                self.pos += 1;
                self.value |= byte;
            }
        }
        ret
    }
    fn get_literal(&mut self, n: u32) -> u32 {
        let mut v = 0;
        for _ in 0..n {
            v = (v << 1) | self.get_bool(128) as u32;
        }
        v
    }
}

/// A tiny deterministic xorshift PRNG (no `rand` / `Math.random`).
struct Rng(u32);
impl Rng {
    fn next(&mut self) -> u32 {
        let mut x = self.0;
        x ^= x << 13;
        x ^= x >> 17;
        x ^= x << 5;
        self.0 = x;
        x
    }
}

#[test]
fn roundtrip_simple() {
    let script: &[(u8, bool)] = &[
        (128, true),
        (128, false),
        (10, true),
        (250, false),
        (200, true),
        (5, false),
    ];
    let mut enc = BoolEncoder::new();
    for &(p, b) in script {
        enc.put_bool(p, b);
    }
    let bytes = enc.finish();
    let mut dec = BoolDecoder::new(&bytes);
    for &(p, b) in script {
        assert_eq!(dec.get_bool(p), b);
    }
}

#[test]
fn roundtrip_randomized() {
    // Many random scripts, mixing modeled bools and literals — the strong
    // correctness signal for the range coder and its carry propagation.
    for trial in 0..300u32 {
        let mut rng = Rng(0x9E37_79B9 ^ trial.wrapping_mul(2654435761));
        let len = 20 + (rng.next() % 500) as usize;
        let ops: Vec<(u8, bool)> = (0..len)
            .map(|_| {
                // Bias probabilities toward the extremes to stress renorm.
                let p = match rng.next() % 4 {
                    0 => 1,
                    1 => 255,
                    _ => (rng.next() % 256) as u8,
                };
                (p.max(1), rng.next() & 1 != 0)
            })
            .collect();

        let mut enc = BoolEncoder::new();
        for &(p, b) in &ops {
            enc.put_bool(p, b);
        }
        let bytes = enc.finish();

        let mut dec = BoolDecoder::new(&bytes);
        for (i, &(p, b)) in ops.iter().enumerate() {
            assert_eq!(dec.get_bool(p), b, "trial {trial} bin {i} (prob {p})");
        }
    }
}

#[test]
fn roundtrip_literals() {
    let mut rng = Rng(0x1234_5678);
    let vals: Vec<(u32, u32)> = (0..200)
        .map(|_| {
            let n = 1 + rng.next() % 16;
            (rng.next() & ((1 << n) - 1), n)
        })
        .collect();
    let mut enc = BoolEncoder::new();
    for &(v, n) in &vals {
        enc.put_literal(v, n);
    }
    let bytes = enc.finish();
    let mut dec = BoolDecoder::new(&bytes);
    for &(v, n) in &vals {
        assert_eq!(dec.get_literal(n), v, "literal {v} ({n} bits)");
    }
}

#[test]
fn roundtrip_all_ones_carry_stress() {
    // Long runs of the least-probable symbol force maximal carry propagation.
    let mut enc = BoolEncoder::new();
    let ops: Vec<(u8, bool)> = (0..2000).map(|i| (1u8, i % 7 != 0)).collect();
    for &(p, b) in &ops {
        enc.put_bool(p, b);
    }
    let bytes = enc.finish();
    let mut dec = BoolDecoder::new(&bytes);
    for &(p, b) in &ops {
        assert_eq!(dec.get_bool(p), b);
    }
}

#[test]
fn put_bit_is_an_equiprobable_bool() {
    let mut a = BoolEncoder::new();
    let mut b = BoolEncoder::new();
    for i in 0..50 {
        a.put_bit(i % 3 == 0);
        b.put_bool(128, i % 3 == 0);
    }
    assert_eq!(a.finish(), b.finish());
}

#[test]
fn fresh_encoder_flushes_to_a_decodable_stream() {
    let bytes = BoolEncoder::new().finish();
    assert!(!bytes.is_empty());
    let mut dec = BoolDecoder::new(&bytes);
    assert_eq!(dec.get_literal(8), 0);
}
