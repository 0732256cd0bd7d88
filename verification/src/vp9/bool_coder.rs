//! The VP8/VP9 boolean entropy coder — a binary range coder (RFC 6386 §7,
//! with libvpx `vpx_writer` start/stop conventions: one leading equiprobable
//! `0` on start, thirty-two equiprobable `0`s on stop).
//!
//! The state is modelled by [`EncState`]: the bytes emitted so far, the
//! interval width `range`, the low end `bottom` (holding pending bits) and
//! the number of shifts left before the next byte completes.
use vstd::prelude::*;
use vstd::arithmetic::power2::*;

verus! {

/// Abstract state of the boolean encoder.
pub struct EncState {
    pub out: Seq<u8>,
    pub range: int,
    pub bottom: int,
    pub bit_count: int,
    /// Every decision coded so far, in order.
    pub log: Seq<(u8, bool)>,
}

/// `out` read as a big-endian number.
pub open spec fn be_value(s: Seq<u8>) -> nat
    decreases s.len(),
{
    if s.len() == 0 {
        0
    } else {
        be_value(s.drop_last()) * 256 + s.last() as nat
    }
}

/// Add one to `out` read as a big-endian number (RFC 6386 `add_one_to_output`):
/// trailing `0xff` bytes wrap to `0`; if every byte wraps a leading `1` is
/// inserted.
pub open spec fn spec_carry(s: Seq<u8>) -> Seq<u8>
    decreases s.len(),
{
    if s.len() == 0 {
        seq![1u8]
    } else if s.last() == 0xff {
        spec_carry(s.drop_last()).push(0u8)
    } else {
        s.drop_last().push((s.last() + 1) as u8)
    }
}

/// One renormalization shift: propagate a pending carry out of bit 31,
/// double `bottom` modulo 2^32, and complete a byte every eighth shift.
pub open spec fn spec_shift(s: EncState) -> EncState {
    let out1 = if s.bottom >= 0x8000_0000 {
        spec_carry(s.out)
    } else {
        s.out
    };
    let b = (2 * s.bottom) % 0x1_0000_0000;
    let bc = s.bit_count - 1;
    if bc == 0 {
        EncState {
            out: out1.push((b / 0x100_0000) as u8),
            range: s.range,
            bottom: b % 0x100_0000,
            bit_count: 8,
            log: s.log,
        }
    } else {
        EncState { out: out1, range: s.range, bottom: b, bit_count: bc, log: s.log }
    }
}

/// Renormalize: while `range < 128`, double `range` and shift.
pub open spec fn spec_renorm(s: EncState) -> EncState
    decreases 256 - s.range,
{
    if 0 < s.range && s.range < 128 {
        let s2 = spec_shift(EncState { range: 2 * s.range, ..s });
        proof {
            assert(s2.range == 2 * s.range);
        }
        spec_renorm(s2)
    } else {
        s
    }
}

/// The split point of the interval for probability `prob` (chance of `0`
/// is `prob / 256`).
pub open spec fn spec_split(range: int, prob: u8) -> int {
    1 + ((range - 1) * prob) / 256
}

/// Encode one boolean: the `0` side keeps `[bottom, bottom + split)`, the `1`
/// side keeps `[bottom + split, bottom + range)`; then renormalize.
pub open spec fn spec_put_bool(s: EncState, prob: u8, bit: bool) -> EncState {
    let split = spec_split(s.range, prob);
    let t = if bit {
        spec_renorm(EncState { bottom: s.bottom + split, range: s.range - split, ..s })
    } else {
        spec_renorm(EncState { range: split, ..s })
    };
    EncState { log: s.log.push((prob, bit)), ..t }
}

/// Encode a sequence of `(prob, bit)` decisions in order.
pub open spec fn spec_put_bools(s: EncState, ops: Seq<(u8, bool)>) -> EncState
    decreases ops.len(),
{
    if ops.len() == 0 {
        s
    } else {
        spec_put_bool(spec_put_bools(s, ops.drop_last()), ops.last().0, ops.last().1)
    }
}

/// Bit `j` of `value`.
pub open spec fn bit_of(value: u32, j: nat) -> bool {
    (value as nat / pow2(j)) % 2 == 1
}

/// Encoding `a` then `b` is encoding their concatenation.
pub proof fn lemma_put_bools_append(s: EncState, a: Seq<(u8, bool)>, b: Seq<(u8, bool)>)
    ensures
        spec_put_bools(s, a + b) == spec_put_bools(spec_put_bools(s, a), b),
    decreases b.len(),
{
    if b.len() == 0 {
        assert(a + b =~= a);
    } else {
        lemma_put_bools_append(s, a, b.drop_last());
        assert((a + b).drop_last() =~= a + b.drop_last());
        assert((a + b).last() == b.last());
    }
}

/// The coder's log grows by exactly the decisions coded.
pub proof fn lemma_put_bools_log(s: EncState, ops: Seq<(u8, bool)>)
    ensures
        spec_put_bools(s, ops).log == s.log + ops,
    decreases ops.len(),
{
    if ops.len() == 0 {
        assert(s.log + ops =~= s.log);
    } else {
        lemma_put_bools_log(s, ops.drop_last());
        assert(s.log + ops.drop_last() + seq![ops.last()] =~= s.log + ops);
        assert((s.log + ops.drop_last()).push(ops.last()) =~= s.log + ops);
    }
}

/// Encoding one more decision after `ops` is encoding `ops.push(op)`.
pub proof fn lemma_put_bools_push(s: EncState, ops: Seq<(u8, bool)>, op: (u8, bool))
    ensures
        spec_put_bools(s, ops.push(op)) == spec_put_bool(spec_put_bools(s, ops), op.0, op.1),
{
    assert(ops.push(op).drop_last() =~= ops);
}

/// The exact low end of the coded interval: the bytes emitted so far
/// followed by the pending bits of `bottom` (whose bit `32 - bit_count`
/// is a carry not yet added to the bytes).
pub open spec fn low_value(s: EncState) -> int {
    be_value(s.out) * pow2((32 - s.bit_count) as nat) + s.bottom
}

/// The interval `[low, low + range)` fits under the cap of its bit position.
pub open spec fn interval_fits(s: EncState) -> bool {
    &&& 1 <= s.bit_count <= 24
    &&& 0 <= s.bottom
    &&& 1 <= s.range
    &&& s.bottom + s.range <= bottom_cap(s.bit_count)
}

/// How many doublings bring a positive `range` below 128 up to at least 128.
pub open spec fn renorm_count(range: int) -> nat
    decreases 256 - range,
{
    if 0 < range && range < 128 {
        1 + renorm_count(2 * range)
    } else {
        0
    }
}

proof fn lemma_be_push(s: Seq<u8>, b: u8)
    ensures
        be_value(s.push(b)) == be_value(s) * 256 + b,
{
    assert(s.push(b).drop_last() =~= s);
}

/// Propagating a carry adds one to the big-endian value.
proof fn lemma_carry_adds_one(s: Seq<u8>)
    ensures
        be_value(spec_carry(s)) == be_value(s) + 1,
    decreases s.len(),
{
    if s.len() == 0 {
        lemma_be_push(Seq::<u8>::empty(), 1u8);
        assert(seq![1u8] =~= Seq::<u8>::empty().push(1u8));
    } else {
        let d = s.drop_last();
        assert(s =~= d.push(s.last()));
        if s.last() == 0xff {
            lemma_carry_adds_one(d);
            lemma_be_push(spec_carry(d), 0u8);
        } else {
            lemma_be_push(d, (s.last() + 1) as u8);
        }
    }
}

/// A shift doubles the low end and keeps the interval under its cap.
#[verifier::spinoff_prover]
pub(crate) proof fn lemma_shift_doubles(s: EncState)
    requires
        interval_fits(s),
        s.range <= 255,
    ensures
        low_value(spec_shift(EncState { range: 2 * s.range, ..s })) == 2 * low_value(s),
        interval_fits(spec_shift(EncState { range: 2 * s.range, ..s })),
        spec_shift(EncState { range: 2 * s.range, ..s }).range == 2 * s.range,
{
    let c = s.bit_count;
    let t = spec_shift(EncState { range: 2 * s.range, ..s });
    lemma2_to64();
    lemma_pow2_unfold((33 - c) as nat);
    if c >= 2 {
        lemma_pow2_strictly_increases((33 - c) as nat, 32);
        assert(s.bottom < 0x8000_0000);
        assert(t.out == s.out);
        assert(t.bottom == 2 * s.bottom);
        assert(t.bit_count == c - 1);
        let bv = be_value(s.out) as int;
        let p32 = pow2((32 - c) as nat) as int;
        let p33 = pow2((33 - c) as nat) as int;
        assert(p33 == 2 * p32);
        assert(low_value(s) == bv * p32 + s.bottom);
        assert(low_value(t) == bv * p33 + 2 * s.bottom);
        assert(bv * p33 == 2 * (bv * p32)) by (nonlinear_arith)
            requires
                p33 == 2 * p32,
        ;
        assert(low_value(t) == 2 * low_value(s));
    } else {
        let carry = s.bottom >= 0x8000_0000;
        let out1 = if carry {
            spec_carry(s.out)
        } else {
            s.out
        };
        if carry {
            lemma_carry_adds_one(s.out);
        }
        let b = (2 * s.bottom) % 0x1_0000_0000;
        assert(b == 2 * s.bottom - (if carry { 0x1_0000_0000int } else { 0 }));
        let q = b / 0x100_0000;
        let r = b % 0x100_0000;
        assert(b == q * 0x100_0000 + r);
        lemma_be_push(out1, q as u8);
        assert(t.out == out1.push(q as u8));
        assert(t.bottom == r);
        assert(t.bit_count == 8);
        assert(low_value(t) == (be_value(out1) * 256 + q) * 0x100_0000 + r);
        assert(low_value(s) == be_value(s.out) * 0x8000_0000 + s.bottom);
        assert(be_value(out1) == be_value(s.out) + (if carry { 1int } else { 0 }));
        assert((be_value(out1) * 256 + q) * 0x100_0000 + r == be_value(out1) * 0x1_0000_0000 + b) by (nonlinear_arith)
            requires
                b == q * 0x100_0000 + r,
        ;
        assert(low_value(t) == 2 * low_value(s));
    }
}

/// Renormalizing scales both the low end and the range by `2^k`, `k` the
/// number of doublings the range needs.
proof fn lemma_renorm_scales(s: EncState)
    requires
        interval_fits(s),
        s.range <= 255,
    ensures
        low_value(spec_renorm(s)) == low_value(s) * pow2(renorm_count(s.range)),
        spec_renorm(s).range == s.range * pow2(renorm_count(s.range)),
        interval_fits(spec_renorm(s)),
        128 <= spec_renorm(s).range <= 255,
    decreases 256 - s.range,
{
    lemma2_to64();
    if 0 < s.range && s.range < 128 {
        let s2 = spec_shift(EncState { range: 2 * s.range, ..s });
        lemma_shift_doubles(s);
        lemma_renorm_scales(s2);
        let k = renorm_count(2 * s.range);
        lemma_pow2_unfold(k + 1);
        assert(renorm_count(s.range) == k + 1);
        assert(low_value(s2) * pow2(k) == low_value(s) * pow2(k + 1)) by (nonlinear_arith)
            requires
                low_value(s2) == 2 * low_value(s),
                pow2(k + 1) == 2 * pow2(k),
        ;
        assert(s2.range * pow2(k) == s.range * pow2(k + 1)) by (nonlinear_arith)
            requires
                s2.range == 2 * s.range,
                pow2(k + 1) == 2 * pow2(k),
        ;
    } else {
        assert(renorm_count(s.range) == 0);
    }
}

/// Coding one decision narrows the interval `[low, low + range)` to its
/// lower part `[low, low + split)` for `0` or its upper part
/// `[low + split, low + range)` for `1`, both non-empty, then rescales it
/// by a power of two: bytes already emitted plus pending bits always spell
/// the exact low end, which is what makes the stream decodable.
pub proof fn law_put_bool_narrows_interval(s: EncState, prob: u8, bit: bool)
    requires
        state_wf(s),
    ensures
        ({
            let split = spec_split(s.range, prob);
            let part = if bit {
                s.range - split
            } else {
                split
            };
            let t = spec_put_bool(s, prob, bit);
            &&& 1 <= split < s.range
            &&& low_value(t) == (low_value(s) + (if bit {
                split
            } else {
                0
            })) * pow2(renorm_count(part))
            &&& t.range == part * pow2(renorm_count(part))
            &&& state_wf(t)
        }),
{
    let split = spec_split(s.range, prob);
    let x = (s.range - 1) * prob;
    assert(0 <= x <= (s.range - 1) * 255) by (nonlinear_arith)
        requires
            128 <= s.range <= 255,
            0 <= prob <= 255,
            x == (s.range - 1) * prob,
    ;
    assert(x < 256 * (s.range - 1));
    assert(x / 256 < s.range - 1);
    assert(split < s.range);
    let u = if bit {
        EncState { bottom: s.bottom + split, range: s.range - split, ..s }
    } else {
        EncState { range: split, ..s }
    };
    lemma_renorm_scales(u);
}

/// The `n` low bits of `value`, most significant first, as equiprobable bools.
pub open spec fn literal_ops(value: u32, n: nat) -> Seq<(u8, bool)> {
    Seq::new(n, |k: int| (128u8, bit_of(value, (n - 1 - k) as nat)))
}

/// Thirty-two equiprobable `0`s: the flush that ends a bool-coded partition.
pub open spec fn flush_ops() -> Seq<(u8, bool)> {
    Seq::new(32, |k: int| (128u8, false))
}

/// The bytes a fresh encoder produces for `ops` once finished.
pub open spec fn spec_encode(ops: Seq<(u8, bool)>) -> Seq<u8> {
    spec_put_bools(spec_put_bool(spec_start(), 128, false), ops + flush_ops()).out
}

/// The start state, before the priming bit.
pub open spec fn spec_start() -> EncState {
    EncState { out: seq![], range: 255, bottom: 0, bit_count: 24, log: seq![] }
}

/// `bound(bit_count) = 2^(33 - bit_count)`: `bottom + range` never exceeds it.
pub open spec fn bottom_cap(bit_count: int) -> int {
    pow2((33 - bit_count) as nat) as int
}

/// The state invariant between calls.
pub open spec fn state_wf(s: EncState) -> bool {
    &&& 128 <= s.range <= 255
    &&& 1 <= s.bit_count <= 24
    &&& 0 <= s.bottom
    &&& s.bottom + s.range <= bottom_cap(s.bit_count)
}

/// VP8/VP9 boolean-range encoder (libvpx `vpx_writer` / RFC 6386 §7.3).
pub struct BoolEncoder {
    out: Vec<u8>,
    range: u32,
    bottom: u32,
    bit_count: i32,
    log: Vec<(u8, bool)>,
}

impl View for BoolEncoder {
    type V = EncState;

    closed spec fn view(&self) -> EncState {
        EncState {
            out: self.out@,
            range: self.range as int,
            bottom: self.bottom as int,
            bit_count: self.bit_count as int,
            log: self.log@,
        }
    }
}

proof fn lemma_u32_bits(x: u32)
    ensures
        (x & 0x8000_0000u32 != 0) == (x >= 0x8000_0000u32),
        ((x << 1u32) & 0xFFFF_FFFFu32) == ((2 * x) % 0x1_0000_0000) as u32,
        x >> 24u32 == x / 0x100_0000,
        x & 0xFF_FFFFu32 == x % 0x100_0000,
        x >> 8u32 == x / 256,
        x >> 1u32 == x / 2,
        x < 0x8000_0000 ==> (x << 1u32) == 2 * x,
        ((x >> 1u32) & 1u32 != 0) == ((x / 2) % 2 == 1),
        (x & 1u32 != 0) == (x % 2 == 1),
{
    assert(((x & 0x8000_0000u32 != 0) == (x >= 0x8000_0000u32)) && (((x << 1u32)
        & 0xFFFF_FFFFu32) == ((2 * x) % 0x1_0000_0000) as u32) && (x >> 24u32 == x / 0x100_0000)
        && (x & 0xFF_FFFFu32 == x % 0x100_0000) && (x >> 8u32 == x / 256) && (x >> 1u32 == x / 2)
        && (x < 0x8000_0000 ==> (x << 1u32) == 2 * x) && (((x >> 1u32) & 1u32 != 0) == ((x / 2)
        % 2 == 1)) && ((x & 1u32 != 0) == (x % 2 == 1))) by (bit_vector);
}

/// `y & 1` is the parity of `y`.
pub proof fn lemma_u32_and_one(y: u32)
    ensures
        (y & 1u32 != 0) == (y % 2 == 1),
{
    lemma_u32_bits(y);
}

proof fn lemma_carry_tail(s: Seq<u8>, i: int)
    requires
        0 <= i <= s.len(),
        forall|j: int| i <= j < s.len() ==> s[j] == 0xff,
    ensures
        spec_carry(s) == spec_carry(s.subrange(0, i)) + Seq::new(
            (s.len() - i) as nat,
            |j: int| 0u8,
        ),
    decreases s.len() - i,
{
    if i == s.len() {
        assert(s.subrange(0, i) == s);
        assert(spec_carry(s) + Seq::new(0, |j: int| 0u8) == spec_carry(s));
    } else {
        lemma_carry_tail(s, i + 1);
        let p = s.subrange(0, i + 1);
        assert(p.drop_last() == s.subrange(0, i));
        assert(p.last() == 0xff);
        assert(spec_carry(p) == spec_carry(s.subrange(0, i)).push(0u8));
        assert(spec_carry(s.subrange(0, i)).push(0u8) + Seq::new(
            (s.len() - (i + 1)) as nat,
            |j: int| 0u8,
        ) =~= spec_carry(s.subrange(0, i)) + Seq::new((s.len() - i) as nat, |j: int| 0u8));
    }
}

impl BoolEncoder {
    /// Whether the encoder state satisfies its invariant.
    pub open spec fn wf(&self) -> bool {
        state_wf(self@)
    }

    /// A fresh encoder primed like libvpx `vpx_start_encode`: `range = 255`,
    /// `bottom = 0`, and one leading equiprobable `0`.
    pub fn new() -> (e: Self)
        ensures
            e.wf(),
            e@ == spec_put_bool(spec_start(), 128, false),
    {
        let mut e = BoolEncoder { out: Vec::new(), range: 255, bottom: 0, bit_count: 24, log: Vec::new() };
        proof {
            lemma2_to64();
        }
        e.put_bit(false);
        e
    }

    /// Propagate a carry (`+1`) backward through already-emitted bytes.
    fn carry(&mut self)
        ensures
            final(self).out@ == spec_carry(old(self).out@),
            final(self).range == old(self).range,
            final(self).bottom == old(self).bottom,
            final(self).bit_count == old(self).bit_count,
            final(self).log == old(self).log,
    {
        let mut i = self.out.len();
        while i > 0
            invariant
                i <= self.out.len(),
                self.out@.len() == old(self).out@.len(),
                self.out@.subrange(0, i as int) == old(self).out@.subrange(0, i as int),
                forall|j: int| i <= j < old(self).out@.len() ==> old(self).out@[j] == 0xff,
                forall|j: int| i <= j < self.out@.len() ==> self.out@[j] == 0,
                self.range == old(self).range,
                self.bottom == old(self).bottom,
                self.bit_count == old(self).bit_count,
                self.log == old(self).log,
            decreases i,
        {
            i -= 1;
            assert(self.out@[i as int] == self.out@.subrange(0, i + 1)[i as int]);
            assert(old(self).out@[i as int] == old(self).out@.subrange(0, i + 1)[i as int]);
            if self.out[i] == 0xff {
                self.out.set(i, 0);
                assert(self.out@.subrange(0, i as int) =~= old(self).out@.subrange(0, i as int));
            } else {
                let v = self.out[i];
                self.out.set(i, v + 1);
                proof {
                    let o = old(self).out@;
                    lemma_carry_tail(o, i + 1);
                    let p = o.subrange(0, i + 1);
                    assert(p.drop_last() =~= o.subrange(0, i as int));
                    assert(p.last() == v);
                    assert(self.out@ =~= spec_carry(p) + Seq::new(
                        (o.len() - (i + 1)) as nat,
                        |j: int| 0u8,
                    ));
                }
                return;
            }
        }
        proof {
            let o = old(self).out@;
            lemma_carry_tail(o, 0);
            assert(o.subrange(0, 0) =~= Seq::<u8>::empty());
            assert(spec_carry(Seq::<u8>::empty()) == seq![1u8]);
        }
        self.out.insert(0, 1);
        assert(self.out@ =~= seq![1u8] + Seq::new(old(self).out@.len(), |j: int| 0u8));
    }

    /// One renormalization shift.
    fn shift(&mut self)
        requires
            1 <= old(self)@.bit_count <= 24,
            0 <= old(self)@.bottom,
            old(self)@.bit_count >= 2 ==> old(self)@.bottom < 0x8000_0000,
        ensures
            final(self)@ == spec_shift(old(self)@),
    {
        proof {
            lemma_u32_bits(self.bottom);
        }
        if self.bottom & 0x8000_0000 != 0 {
            self.carry();
        }
        let b = (self.bottom << 1) & 0xFFFF_FFFF;
        proof {
            lemma_u32_bits(b);
        }
        self.bottom = b;
        self.bit_count = self.bit_count - 1;
        if self.bit_count == 0 {
            self.out.push((self.bottom >> 24) as u8);
            self.bottom = self.bottom & 0xFF_FFFF;
            self.bit_count = 8;
        }
    }

    /// Encode one boolean `bit` whose probability of being `0` is `prob/256`.
    pub fn put_bool(&mut self, prob: u8, bit: bool)
        requires
            old(self).wf(),
        ensures
            final(self).wf(),
            final(self)@ == spec_put_bool(old(self)@, prob, bit),
    {
        proof {
            lemma2_to64();
            assert((self.range - 1) * (prob as u32) <= 254 * 255) by (nonlinear_arith)
                requires
                    self.range <= 255,
                    self.range >= 1,
                    prob <= 255,
            ;
            assert(((self.range - 1) * prob) / 256 < self.range - 1 || self.range == 1) by (
            nonlinear_arith)
                requires
                    self.range >= 1,
                    prob <= 255,
            ;
        }
        let t: u32 = (self.range - 1) * (prob as u32);
        proof {
            lemma_u32_bits(t);
        }
        let split = 1 + (t >> 8);
        if bit {
            self.bottom = self.bottom + split;
            self.range = self.range - split;
        } else {
            self.range = split;
        }
        let ghost s1 = self@;
        while self.range < 128
            invariant
                1 <= self.range <= 255,
                1 <= self.bit_count <= 24,
                0 <= self.bottom,
                self.bottom + self.range <= bottom_cap(self.bit_count as int),
                spec_renorm(self@) == spec_renorm(s1),
                self.log@ == old(self).log@,
                pow2(32) == 0x1_0000_0000,
                pow2(31) == 0x8000_0000,
                pow2(25) == 0x200_0000,
            decreases 256 - self.range,
        {
            proof {
                lemma_u32_bits(self.range);
                lemma_shift_keeps_cap(self.bit_count as int, self.bottom as int, self.range as int);
            }
            self.range = self.range << 1;
            self.shift();
            assert(self@.range == self.range);
        }
        self.log.push((prob, bit));
    }

    /// Encode one equiprobable bit.
    pub fn put_bit(&mut self, bit: bool)
        requires
            old(self).wf(),
        ensures
            final(self).wf(),
            final(self)@ == spec_put_bool(old(self)@, 128, bit),
    {
        self.put_bool(128, bit);
    }

    /// Encode the `n` low bits of `value`, most significant first, as literals.
    pub fn put_literal(&mut self, value: u32, n: u32)
        requires
            old(self).wf(),
            n <= 32,
        ensures
            final(self).wf(),
            final(self)@ == spec_put_bools(old(self)@, literal_ops(value, n as nat)),
    {
        let ghost ops = literal_ops(value, n as nat);
        let mut i = n;
        assert(ops.take(0) =~= Seq::<(u8, bool)>::empty());
        while i > 0
            invariant
                i <= n <= 32,
                self.wf(),
                ops == literal_ops(value, n as nat),
                self@ == spec_put_bools(old(self)@, ops.take((n - i) as int)),
            decreases i,
        {
            i -= 1;
            let y = value >> i;
            proof {
                vstd::bits::lemma_u32_shr_is_div(value, i);
                lemma_u32_bits(y);
                let k = (n - 1 - i) as int;
                assert(ops.take(k + 1).drop_last() =~= ops.take(k));
                assert(ops.take(k + 1).last() == ops[k]);
                assert(ops[k] == (128u8, bit_of(value, i as nat)));
            }
            self.put_bit((y & 1) != 0);
        }
        assert(ops.take(n as int) =~= ops);
    }

    /// Flush like libvpx `vpx_stop_encode` (thirty-two equiprobable `0`s) and
    /// return the coded bytes.
    pub fn finish(self) -> (bytes: Vec<u8>)
        requires
            self.wf(),
        ensures
            bytes@ == spec_put_bools(self@, flush_ops()).out,
    {
        let mut e = self;
        let ghost ops = flush_ops();
        let mut k: usize = 0;
        assert(ops.take(0) =~= Seq::<(u8, bool)>::empty());
        while k < 32
            invariant
                k <= 32,
                e.wf(),
                ops == flush_ops(),
                e@ == spec_put_bools(self@, ops.take(k as int)),
            decreases 32 - k,
        {
            proof {
                assert(ops.take(k + 1).drop_last() =~= ops.take(k as int));
                assert(ops.take(k + 1).last() == ops[k as int]);
            }
            e.put_bit(false);
            k += 1;
        }
        assert(ops.take(32) =~= ops);
        e.out
    }

    /// Every decision coded so far, in order.
    pub fn decisions(&self) -> (d: &Vec<(u8, bool)>)
        ensures
            d@ == self@.log,
    {
        &self.log
    }

    /// Bytes emitted so far (excludes the pending interval).
    pub fn len(&self) -> (n: usize)
        ensures
            n == self@.out.len(),
    {
        self.out.len()
    }

    /// Whether no byte has been emitted yet.
    pub fn is_empty(&self) -> (b: bool)
        ensures
            b == (self@.out.len() == 0),
    {
        self.out.len() == 0
    }
}

impl Default for BoolEncoder {
    fn default() -> (e: Self)
        ensures
            e.wf(),
            e@ == spec_put_bool(spec_start(), 128, false),
    {
        BoolEncoder::new()
    }
}

/// `bottom + range` stays under the cap across one doubling-and-shift.
proof fn lemma_shift_keeps_cap(bc: int, bottom: int, range: int)
    requires
        1 <= bc <= 24,
        0 <= bottom,
        1 <= range < 128,
        bottom + range <= bottom_cap(bc),
    ensures
        bc >= 2 ==> bottom < 0x8000_0000,
        bottom < 0x1_0000_0000,
        ({
            let s2 = spec_shift(
                EncState { out: Seq::<u8>::empty(), range: 2 * range, bottom, bit_count: bc, log: Seq::empty() },
            );
            &&& 1 <= s2.bit_count <= 24
            &&& 0 <= s2.bottom
            &&& s2.bottom + 2 * range <= bottom_cap(s2.bit_count)
        }),
{
    lemma2_to64();
    lemma_pow2_pos((33 - bc) as nat);
    if bc >= 2 {
        lemma_pow2_strictly_increases((33 - bc) as nat, 32);
        lemma_pow2_unfold((33 - bc + 1) as nat);
        assert(bottom_cap(bc - 1) == 2 * bottom_cap(bc));
    }
}

} // verus!
