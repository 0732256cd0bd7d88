//! The decoding side of the boolean coder, as a specification, and the
//! proof that it reads back exactly the decisions the encoder wrote.
use vstd::prelude::*;
use vstd::arithmetic::power2::{pow2, lemma2_to64, lemma_pow2_adds, lemma_pow2_unfold, lemma_pow2_pos};
use crate::vp9::bool_coder::{
    EncState, be_value, spec_carry, spec_shift, spec_renorm, spec_split, spec_put_bool,
    spec_put_bools, low_value, interval_fits, renorm_count, state_wf, lemma_shift_doubles,
    lemma_put_bools_append,
    flush_ops, spec_encode, spec_start, bit_of, literal_ops,
};

verus! {

/// Shifts performed so far: three pending bytes at the start, eight per
/// emitted byte.
pub open spec fn enc_pos(s: EncState) -> int {
    8 * s.out.len() + 24 - s.bit_count
}

/// The interval never leaves the one the coder started with, `[0, 255)`
/// scaled by the shifts so far.
pub open spec fn enc_bounded(s: EncState) -> bool {
    &&& enc_pos(s) >= 0
    &&& low_value(s) + s.range <= 255 * pow2(enc_pos(s) as nat)
}

proof fn lemma_be_bound(s: Seq<u8>)
    ensures
        be_value(s) < pow2(8 * s.len() as nat),
    decreases s.len(),
{
    lemma2_to64();
    if s.len() > 0 {
        let d = s.drop_last();
        lemma_be_bound(d);
        lemma_pow2_adds(8 * d.len() as nat, 8);
        assert(be_value(s) == be_value(d) * 256 + s.last());
        assert(be_value(d) * 256 + s.last() < pow2(8 * d.len() as nat) * 256) by (nonlinear_arith)
            requires
                be_value(d) < pow2(8 * d.len() as nat),
                s.last() < 256,
        ;
    }
}

proof fn lemma_carry_len(s: Seq<u8>)
    requires
        be_value(s) + 1 < pow2(8 * s.len() as nat),
    ensures
        spec_carry(s).len() == s.len(),
    decreases s.len(),
{
    lemma2_to64();
    if s.len() == 0 {
    } else if s.last() == 0xff {
        let d = s.drop_last();
        lemma_pow2_adds(8 * d.len() as nat, 8);
        assert(be_value(s) == be_value(d) * 256 + 255);
        assert(be_value(d) + 1 < pow2(8 * d.len() as nat)) by (nonlinear_arith)
            requires
                be_value(d) * 256 + 256 < pow2(8 * d.len() as nat) * 256,
        ;
        lemma_carry_len(d);
    }
}

/// One renormalization shift advances the position by one and keeps the
/// interval inside its bound.
proof fn lemma_shift_pos(s: EncState)
    requires
        interval_fits(s),
        s.range <= 255,
        enc_bounded(s),
    ensures
        enc_pos(spec_shift(EncState { range: 2 * s.range, ..s })) == enc_pos(s) + 1,
        enc_bounded(spec_shift(EncState { range: 2 * s.range, ..s })),
{
    let t = spec_shift(EncState { range: 2 * s.range, ..s });
    lemma_shift_doubles(s);
    lemma2_to64();
    let p = enc_pos(s);
    lemma_pow2_unfold((p + 1) as nat);
    if s.bit_count == 1 {
        let l = s.out.len();
        if s.bottom >= 0x8000_0000 {
            lemma_be_bound(s.out);
            lemma_pow2_pos(8 * l as nat);
            assert(low_value(s) == be_value(s.out) * 0x8000_0000 + s.bottom);
            if l == 0 {
                assert(be_value(s.out) == 0);
                assert(pow2(23) == 0x80_0000);
                assert(false);
            } else {
                lemma_pow2_adds((8 * l - 8) as nat, 31);
                lemma_pow2_adds((8 * l - 8) as nat, 8);
                assert(p == 8 * l + 23);
                assert(be_value(s.out) + 1 < pow2(8 * l as nat)) by (nonlinear_arith)
                    requires
                        be_value(s.out) * 0x8000_0000 + 0x8000_0000 < 255 * pow2((8 * l - 8) as nat)
                            * 0x8000_0000,
                        pow2(8 * l as nat) == pow2((8 * l - 8) as nat) * 256,
                ;
                lemma_carry_len(s.out);
            }
        }
    }
    assert(low_value(t) + t.range <= 255 * pow2((p + 1) as nat)) by (nonlinear_arith)
        requires
            low_value(t) == 2 * low_value(s),
            t.range == 2 * s.range,
            low_value(s) + s.range <= 255 * pow2(p as nat),
            pow2((p + 1) as nat) == 2 * pow2(p as nat),
    ;
}

/// Renormalizing advances the position by the number of doublings.
proof fn lemma_renorm_pos(s: EncState)
    requires
        interval_fits(s),
        s.range <= 255,
        enc_bounded(s),
    ensures
        enc_pos(spec_renorm(s)) == enc_pos(s) + renorm_count(s.range),
        enc_bounded(spec_renorm(s)),
    decreases 256 - s.range,
{
    if 0 < s.range && s.range < 128 {
        let s2 = spec_shift(EncState { range: 2 * s.range, ..s });
        lemma_shift_doubles(s);
        lemma_shift_pos(s);
        lemma_renorm_pos(s2);
    }
}

/// Coding one decision from a well-formed, bounded state: the interval
/// narrows to the chosen part and is rescaled, the position advances by the
/// number of doublings, and the state stays well-formed and bounded.
proof fn lemma_put_bool_step(s: EncState, prob: u8, bit: bool)
    requires
        state_wf(s),
        enc_bounded(s),
    ensures
        ({
            let split = spec_split(s.range, prob);
            let part = if bit {
                s.range - split
            } else {
                split
            };
            let t = spec_put_bool(s, prob, bit);
            let k = renorm_count(part);
            &&& 1 <= split < s.range
            &&& low_value(t) == (low_value(s) + (if bit {
                split
            } else {
                0
            })) * pow2(k)
            &&& t.range == part * pow2(k)
            &&& enc_pos(t) == enc_pos(s) + k
            &&& state_wf(t)
            &&& enc_bounded(t)
        }),
{
    crate::vp9::bool_coder::law_put_bool_narrows_interval(s, prob, bit);
    let split = spec_split(s.range, prob);
    let u = if bit {
        EncState { bottom: s.bottom + split, range: s.range - split, ..s }
    } else {
        EncState { range: split, ..s }
    };
    assert(enc_pos(u) == enc_pos(s));
    assert(low_value(u) + u.range <= low_value(s) + s.range);
    lemma_renorm_pos(u);
}

/// Every prefix of a coded sequence leaves the coder well-formed and bounded.
proof fn lemma_put_bools_wf(s: EncState, ops: Seq<(u8, bool)>)
    requires
        state_wf(s),
        enc_bounded(s),
    ensures
        state_wf(spec_put_bools(s, ops)),
        enc_bounded(spec_put_bools(s, ops)),
        enc_pos(s) <= enc_pos(spec_put_bools(s, ops)),
    decreases ops.len(),
{
    if ops.len() > 0 {
        lemma_put_bools_wf(s, ops.drop_last());
        lemma_put_bool_step(spec_put_bools(s, ops.drop_last()), ops.last().0, ops.last().1);
    }
}

/// `v` lies in the interval of `s` scaled up to position `end`.
pub open spec fn contains_at(s: EncState, v: int, end: int) -> bool {
    &&& enc_pos(s) <= end
    &&& low_value(s) * pow2((end - enc_pos(s)) as nat) <= v
    &&& v < (low_value(s) + s.range) * pow2((end - enc_pos(s)) as nat)
}

/// The interval after one decision, seen from before it: `v` lies in the
/// part that the decision chose.
pub open spec fn chose_part(s: EncState, prob: u8, bit: bool, v: int, end: int) -> bool {
    let split = spec_split(s.range, prob);
    let lo = low_value(s) + (if bit {
        split
    } else {
        0
    });
    let hi = if bit {
        low_value(s) + s.range
    } else {
        low_value(s) + split
    };
    &&& enc_pos(s) <= end
    &&& lo * pow2((end - enc_pos(s)) as nat) <= v
    &&& v < hi * pow2((end - enc_pos(s)) as nat)
}

/// If `v` lies in the interval after a decision, it lies in the part of the
/// earlier interval that the decision chose.
proof fn lemma_contains_back(s: EncState, prob: u8, bit: bool, v: int, end: int)
    requires
        state_wf(s),
        enc_bounded(s),
        contains_at(spec_put_bool(s, prob, bit), v, end),
    ensures
        chose_part(s, prob, bit, v, end),
        contains_at(s, v, end),
{
    lemma_put_bool_step(s, prob, bit);
    let split = spec_split(s.range, prob);
    let part = if bit {
        s.range - split
    } else {
        split
    };
    let k = renorm_count(part);
    let t = spec_put_bool(s, prob, bit);
    let g = (end - enc_pos(t)) as nat;
    let f = (end - enc_pos(s)) as nat;
    lemma_pow2_adds(k, g);
    assert(f == k + g);
    let lo = low_value(s) + (if bit {
        split
    } else {
        0
    });
    assert(low_value(t) * pow2(g) == lo * pow2(f)) by (nonlinear_arith)
        requires
            low_value(t) == lo * pow2(k),
            pow2(f) == pow2(k) * pow2(g),
    ;
    assert((low_value(t) + t.range) * pow2(g) == (lo + part) * pow2(f)) by (nonlinear_arith)
        requires
            low_value(t) == lo * pow2(k),
            t.range == part * pow2(k),
            pow2(f) == pow2(k) * pow2(g),
    ;
    lemma_pow2_pos(f);
    assert(low_value(s) * pow2(f) <= lo * pow2(f)) by (nonlinear_arith)
        requires
            low_value(s) <= lo,
            pow2(f) > 0,
    ;
    assert((lo + part) * pow2(f) <= (low_value(s) + s.range) * pow2(f)) by (nonlinear_arith)
        requires
            lo + part <= low_value(s) + s.range,
            pow2(f) > 0,
    ;
}

/// Containment at the end propagates back to every prefix.
proof fn lemma_contains_prefix(s: EncState, ops: Seq<(u8, bool)>, j: int, v: int, end: int)
    requires
        state_wf(s),
        enc_bounded(s),
        contains_at(spec_put_bools(s, ops), v, end),
        0 <= j <= ops.len(),
    ensures
        contains_at(spec_put_bools(s, ops.take(j)), v, end),
    decreases ops.len(),
{
    if j < ops.len() {
        let d = ops.drop_last();
        lemma_put_bools_wf(s, d);
        lemma_contains_back(spec_put_bools(s, d), ops.last().0, ops.last().1, v, end);
        lemma_contains_prefix(s, d, j, v, end);
        assert(d.take(j) =~= ops.take(j));
    } else {
        assert(ops.take(j) =~= ops);
    }
}

/// Byte `i` of the stream; reads past the end give `0`.
pub open spec fn byte_or_zero(b: Seq<u8>, i: int) -> int {
    if 0 <= i < b.len() {
        b[i] as int
    } else {
        0
    }
}

/// Abstract state of the boolean decoder (RFC 6386 §7.3 / libvpx
/// `vpx_reader`): the next byte to load, the interval width, a window
/// `value` onto the stream relative to the interval's low end, and the
/// number of window bits consumed since the last byte load.
pub struct DecState {
    pub pos: int,
    pub range: int,
    pub value: int,
    pub bit_count: int,
}

/// A decoder over `b`: the window starts with the first two bytes.
pub open spec fn dec_init(b: Seq<u8>) -> DecState {
    DecState {
        pos: 2,
        range: 255,
        value: byte_or_zero(b, 0) * 256 + byte_or_zero(b, 1),
        bit_count: 0,
    }
}

/// One decoder shift: double the window and the range; every eighth shift
/// loads the next byte into the (then zero) low eight bits of the window.
pub open spec fn dec_shift(b: Seq<u8>, d: DecState) -> DecState {
    if d.bit_count + 1 == 8 {
        DecState {
            pos: d.pos + 1,
            range: 2 * d.range,
            value: 2 * d.value + byte_or_zero(b, d.pos),
            bit_count: 0,
        }
    } else {
        DecState { pos: d.pos, range: 2 * d.range, value: 2 * d.value, bit_count: d.bit_count + 1 }
    }
}

/// Shift while the range is below 128.
pub open spec fn dec_renorm(b: Seq<u8>, d: DecState) -> DecState
    decreases 256 - d.range,
{
    if 0 < d.range && d.range < 128 {
        dec_renorm(b, dec_shift(b, d))
    } else {
        d
    }
}

/// Read one boolean with probability `prob` of being `0`: it is `1` when
/// the window reaches the split point, which is then removed from it.
pub open spec fn dec_bool(b: Seq<u8>, d: DecState, prob: u8) -> (bool, DecState) {
    let split = spec_split(d.range, prob);
    if d.value >= split * 256 {
        (true, dec_renorm(b, DecState { range: d.range - split, value: d.value - split * 256, ..d }))
    } else {
        (false, dec_renorm(b, DecState { range: split, ..d }))
    }
}

/// Read one boolean per probability, in order.
pub open spec fn dec_bools(b: Seq<u8>, d: DecState, probs: Seq<u8>) -> Seq<bool>
    decreases probs.len(),
{
    if probs.len() == 0 {
        Seq::empty()
    } else {
        let (x, d2) = dec_bool(b, d, probs[0]);
        seq![x] + dec_bools(b, d2, probs.drop_first())
    }
}

/// Decode a stream: the leading equiprobable marker bool, then one bool per
/// probability in `probs`.
pub open spec fn spec_decode(b: Seq<u8>, probs: Seq<u8>) -> Seq<bool> {
    dec_bools(b, dec_init(b), seq![128u8] + probs)
}

/// The first `k` bytes of the stream (zero-padded) as a big-endian number.
pub open spec fn prefix_value(b: Seq<u8>, k: nat) -> int
    decreases k,
{
    if k == 0 {
        0
    } else {
        prefix_value(b, (k - 1) as nat) * 256 + byte_or_zero(b, k - 1)
    }
}

/// The decoder's view of the stream after `t` shifts: `2 + t / 8` bytes,
/// moved up by the shifts since the last load.
pub open spec fn window(b: Seq<u8>, t: int) -> int {
    prefix_value(b, (2 + t / 8) as nat) * pow2((t % 8) as nat)
}

/// The decoder after `t` shifts, facing an interval with low end `low` and
/// width `range`: its window is the stream minus the low end.
pub open spec fn dec_matches(b: Seq<u8>, d: DecState, t: int, low: int, range: int) -> bool {
    &&& t >= 0
    &&& d.range == range
    &&& d.bit_count == t % 8
    &&& d.pos == 2 + t / 8
    &&& d.value == window(b, t) - 256 * low
}

proof fn lemma_dec_shift(b: Seq<u8>, d: DecState, t: int, low: int, range: int)
    requires
        dec_matches(b, d, t, low, range),
    ensures
        dec_matches(b, dec_shift(b, d), t + 1, 2 * low, 2 * range),
{
    lemma2_to64();
    let k = (2 + t / 8) as nat;
    let r = t % 8;
    if r == 7 {
        assert((t + 1) / 8 == t / 8 + 1 && (t + 1) % 8 == 0);
        let k1: nat = (k + 1) as nat;
        assert((2 + (t + 1) / 8) as nat == k1);
        assert(pow2(((t + 1) % 8) as nat) == 1);
        assert(window(b, t + 1) == prefix_value(b, k1) * 1);
        assert(prefix_value(b, k1) == prefix_value(b, k) * 256 + byte_or_zero(b, k as int));
        assert(window(b, t) == prefix_value(b, k) * 128);
    } else {
        assert((t + 1) / 8 == t / 8 && (t + 1) % 8 == r + 1);
        lemma_pow2_unfold((r + 1) as nat);
        assert(window(b, t + 1) == prefix_value(b, k) * pow2((r + 1) as nat));
        assert(prefix_value(b, k) * pow2((r + 1) as nat) == 2 * (prefix_value(b, k) * pow2(r as nat))) by (nonlinear_arith)
            requires
                pow2((r + 1) as nat) == 2 * pow2(r as nat),
        ;
    }
}

proof fn lemma_dec_renorm(b: Seq<u8>, d: DecState, t: int, low: int, range: int)
    requires
        dec_matches(b, d, t, low, range),
        1 <= range <= 255,
    ensures
        dec_matches(
            b,
            dec_renorm(b, d),
            t + renorm_count(range),
            low * pow2(renorm_count(range)),
            range * pow2(renorm_count(range)),
        ),
    decreases 256 - range,
{
    lemma2_to64();
    if 0 < range && range < 128 {
        lemma_dec_shift(b, d, t, low, range);
        lemma_dec_renorm(b, dec_shift(b, d), t + 1, 2 * low, 2 * range);
        let k = renorm_count(2 * range);
        assert(renorm_count(range) == k + 1);
        assert(dec_renorm(b, d) == dec_renorm(b, dec_shift(b, d)));
        lemma_pow2_unfold(k + 1);
        assert(2 * low * pow2(k) == low * pow2(k + 1)) by (nonlinear_arith)
            requires
                pow2(k + 1) == 2 * pow2(k),
        ;
        assert(2 * range * pow2(k) == range * pow2(k + 1)) by (nonlinear_arith)
            requires
                pow2(k + 1) == 2 * pow2(k),
        ;
        assert(t + 1 + k == t + renorm_count(range));
    } else {
        assert(renorm_count(range) == 0);
        assert(dec_renorm(b, d) == d);
        assert(pow2(0) == 1);
        assert(low * pow2(0) == low);
        assert(range * pow2(0) == range);
    }
}

proof fn lemma_be_concat(x: Seq<u8>, y: Seq<u8>)
    ensures
        be_value(x + y) as int == (be_value(x) as int) * (pow2(8 * y.len() as nat) as int) + be_value(y) as int,
    decreases y.len(),
{
    lemma2_to64();
    if y.len() == 0 {
        assert(x + y =~= x);
        assert(be_value(y) == 0);
        assert(pow2(8 * y.len() as nat) == 1);
        assert((be_value(x) as int) * 1 == be_value(x) as int);
    } else {
        let yd = y.drop_last();
        lemma_be_concat(x, yd);
        assert((x + y).drop_last() =~= x + yd);
        assert((x + y).last() == y.last());
        let e = 8 * yd.len() as nat;
        lemma_pow2_adds(e, 8);
        assert(8 * y.len() as nat == e + 8);
        let pe = pow2(e) as int;
        let py = pow2(8 * y.len() as nat) as int;
        assert(py == pe * 256);
        let bx = be_value(x) as int;
        let byd = be_value(yd) as int;
        let l = y.last() as int;
        assert(be_value(x + y) as int == (be_value(x + yd) as int) * 256 + l);
        assert(be_value(y) as int == byd * 256 + l);
        assert(be_value(x + yd) as int == bx * pe + byd);
        assert((bx * pe + byd) * 256 + l == bx * py + (byd * 256 + l)) by (nonlinear_arith)
            requires
                py == pe * 256,
        ;
        assert(be_value(x + y) as int == bx * py + be_value(y) as int);
    }
}

proof fn lemma_prefix_take(b: Seq<u8>, k: nat)
    requires
        k <= b.len(),
    ensures
        prefix_value(b, k) == be_value(b.take(k as int)),
    decreases k,
{
    if k > 0 {
        lemma_prefix_take(b, (k - 1) as nat);
        assert(b.take(k as int).drop_last() =~= b.take(k - 1));
    } else {
        assert(b.take(0) =~= Seq::<u8>::empty());
    }
}

proof fn lemma_prefix_beyond(b: Seq<u8>, k: nat)
    requires
        k >= b.len(),
    ensures
        prefix_value(b, k) == (be_value(b) as int) * (pow2((8 * (k - b.len())) as nat) as int),
    decreases k,
{
    lemma2_to64();
    if k == b.len() {
        lemma_prefix_take(b, k);
        assert(b.take(k as int) =~= b);
        assert((8 * (k - b.len())) as nat == 0);
        assert(prefix_value(b, k) == be_value(b) as int);
        assert(pow2((8 * (k - b.len())) as nat) == 1);
        assert((be_value(b) as int) * 1 == be_value(b) as int);
    } else {
        lemma_prefix_beyond(b, (k - 1) as nat);
        let e = (8 * (k - 1 - b.len())) as nat;
        lemma_pow2_adds(e, 8);
        let z = be_value(b) as int;
        let pe = pow2(e) as int;
        assert(prefix_value(b, (k - 1) as nat) == z * pe);
        assert(byte_or_zero(b, k - 1) == 0);
        assert(prefix_value(b, k) == prefix_value(b, (k - 1) as nat) * 256);
        assert((8 * (k - b.len())) as nat == e + 8);
        assert(pow2(e + 8) as int == pe * 256);
        assert(z * pe * 256 == z * (pe * 256)) by (nonlinear_arith);
        assert(pow2((8 * (k - b.len())) as nat) as int == pe * 256);
        assert(prefix_value(b, k) == z * (pe * 256));
    }
}

/// The first `k` bytes are the stream's value truncated to `k` bytes:
/// `prefix · 2^(8m) <= value · 2^(8k) < (prefix + 1) · 2^(8m)`.
proof fn lemma_prefix_bounds(b: Seq<u8>, k: nat)
    ensures
        prefix_value(b, k) * pow2(8 * b.len() as nat) <= (be_value(b) as int) * (pow2(8 * k) as int),
        (be_value(b) as int) * (pow2(8 * k) as int) < (prefix_value(b, k) + 1) * pow2(8 * b.len() as nat),
{
    let m = b.len();
    lemma_pow2_pos(8 * m as nat);
    if k <= m {
        lemma_prefix_take(b, k);
        let x = b.take(k as int);
        let y = b.skip(k as int);
        assert(x + y =~= b);
        lemma_be_concat(x, y);
        lemma_be_bound(y);
        let p = prefix_value(b, k);
        let r = be_value(y);
        let g = pow2((8 * (m - k)) as nat);
        lemma_pow2_adds((8 * (m - k)) as nat, 8 * k);
        assert(be_value(b) == p * g + r);
        assert(pow2(8 * m as nat) == g * pow2(8 * k));
        assert(p * pow2(8 * m as nat) <= be_value(b) * pow2(8 * k) < (p + 1) * pow2(8 * m as nat))
            by (nonlinear_arith)
            requires
                be_value(b) == p * g + r,
                0 <= r < g,
                pow2(8 * m as nat) == g * pow2(8 * k),
                pow2(8 * k) > 0,
        ;
    } else {
        lemma_prefix_beyond(b, k);
        let g = pow2((8 * (k - m)) as nat);
        lemma_pow2_adds((8 * (k - m)) as nat, 8 * m as nat);
        assert(pow2(8 * k) == g * pow2(8 * m as nat));
        let p = prefix_value(b, k);
        let z = be_value(b) as int;
        let pm = pow2(8 * m as nat) as int;
        let pk = pow2(8 * k) as int;
        assert(p * pm == z * pk && z * pk < (p + 1) * pm) by (nonlinear_arith)
            requires
                p == z * g,
                pk == g * pm,
                pm > 0,
        ;
    }
}

/// Comparing `M · 2^a` with `Z · 2^b` depends only on `a - b`.
proof fn lemma_scale_compare(mm: int, z: int, a1: nat, b1: nat, a2: nat, b2: nat)
    requires
        a1 - b1 == a2 - b2,
    ensures
        (mm * pow2(a1) <= z * pow2(b1)) == (mm * pow2(a2) <= z * pow2(b2)),
{
    if a2 >= a1 {
        let d = (a2 - a1) as nat;
        lemma_pow2_adds(a1, d);
        lemma_pow2_adds(b1, d);
        lemma_pow2_pos(d);
        assert((mm * pow2(a1) <= z * pow2(b1)) == (mm * pow2(a1) * pow2(d) <= z * pow2(b1) * pow2(d)))
            by (nonlinear_arith)
            requires
                pow2(d) > 0,
        ;
        assert(mm * pow2(a1) * pow2(d) == mm * pow2(a2)) by (nonlinear_arith)
            requires
                pow2(a2) == pow2(a1) * pow2(d),
        ;
        assert(z * pow2(b1) * pow2(d) == z * pow2(b2)) by (nonlinear_arith)
            requires
                pow2(b2) == pow2(b1) * pow2(d),
        ;
    } else {
        let d = (a1 - a2) as nat;
        lemma_pow2_adds(a2, d);
        lemma_pow2_adds(b2, d);
        lemma_pow2_pos(d);
        assert((mm * pow2(a2) <= z * pow2(b2)) == (mm * pow2(a2) * pow2(d) <= z * pow2(b2) * pow2(d)))
            by (nonlinear_arith)
            requires
                pow2(d) > 0,
        ;
        assert(mm * pow2(a2) * pow2(d) == mm * pow2(a1)) by (nonlinear_arith)
            requires
                pow2(a1) == pow2(a2) * pow2(d),
        ;
        assert(z * pow2(b2) * pow2(d) == z * pow2(b1)) by (nonlinear_arith)
            requires
                pow2(b1) == pow2(b2) * pow2(d),
        ;
    }
}

/// The decoder's window after `t` shifts reaches `256 · M` exactly when the
/// whole stream, read at the final position `8m + 24 - c`, reaches `M`
/// scaled up by the shifts still to come.
proof fn lemma_window_compare(b: Seq<u8>, t: int, mm: int, c: int)
    requires
        1 <= c <= 24,
        0 <= t <= 8 * b.len() + 24 - c,
        mm >= 0,
    ensures
        (window(b, t) >= 256 * mm) == (be_value(b) * pow2((32 - c) as nat) >= mm * pow2(
            (8 * b.len() + 24 - c - t) as nat,
        )),
{
    lemma2_to64();
    let m = b.len();
    let k = (2 + t / 8) as nat;
    let r = (t % 8) as nat;
    let p = prefix_value(b, k);
    let z = be_value(b) as int;
    lemma_pow2_adds((8 - r) as nat, r);
    lemma_pow2_pos(r);
    assert(pow2(8) == 256);
    // 256·M <= p·2^r  <=>  M·2^(8-r) <= p
    assert((p * pow2(r) >= 256 * mm) == (p >= mm * pow2((8 - r) as nat))) by (nonlinear_arith)
        requires
            256 == pow2((8 - r) as nat) * pow2(r),
            pow2(r) > 0,
    ;
    // M·2^(8-r) <= p  <=>  M·2^(8-r)·2^(8m) <= z·2^(8k)
    lemma_prefix_bounds(b, k);
    lemma_pow2_pos(8 * m as nat);
    let q = mm * pow2((8 - r) as nat);
    assert((p >= q) == (q * pow2(8 * m as nat) <= z * pow2(8 * k))) by (nonlinear_arith)
        requires
            p * pow2(8 * m as nat) <= z * pow2(8 * k),
            z * pow2(8 * k) < (p + 1) * pow2(8 * m as nat),
            pow2(8 * m as nat) > 0,
    ;
    lemma_pow2_adds((8 - r) as nat, 8 * m as nat);
    assert(q * pow2(8 * m as nat) == mm * pow2((8 - r + 8 * m) as nat)) by (nonlinear_arith)
        requires
            q == mm * pow2((8 - r) as nat),
            pow2((8 - r + 8 * m) as nat) == pow2((8 - r) as nat) * pow2(8 * m as nat),
    ;
    lemma_scale_compare(mm, z, (8 - r + 8 * m) as nat, 8 * k, (8 * m + 24 - c - t) as nat, (32 - c) as nat);
}

/// No carry is pending in `bottom`: it is below its bit position's weight.
pub open spec fn no_pending_carry(s: EncState) -> bool {
    s.bottom < pow2((32 - s.bit_count) as nat)
}

/// One flushing `0` (probability one half): at most one shift, exactly one
/// once the range is below 255; a shift from the last bit position applies
/// any pending carry, and no new carry appears.
proof fn lemma_zero_step(s: EncState)
    requires
        state_wf(s),
    ensures
        ({
            let t = spec_put_bool(s, 128, false);
            let k: nat = if s.range <= 254 {
                1
            } else {
                0
            };
            &&& state_wf(t)
            &&& t.range <= 254
            &&& low_value(t) == low_value(s) * pow2(k)
            &&& k == 0 ==> t.bit_count == s.bit_count
            &&& k == 1 && s.bit_count >= 2 ==> t.bit_count == s.bit_count - 1
            &&& k == 1 && s.bit_count == 1 ==> no_pending_carry(t)
            &&& no_pending_carry(s) ==> no_pending_carry(t)
        }),
{
    lemma2_to64();
    crate::vp9::bool_coder::law_put_bool_narrows_interval(s, 128, false);
    let split = spec_split(s.range, 128);
    assert(split == 1 + (s.range - 1) / 2);
    let u = EncState { range: split, ..s };
    if s.range <= 254 {
        assert(split < 128);
        assert(renorm_count(2 * split) == 0);
        assert(renorm_count(split) == 1);
        let v = spec_shift(EncState { range: 2 * split, ..u });
        assert(spec_renorm(u) == spec_renorm(v));
        assert(spec_renorm(v) == v);
        lemma_pow2_unfold((33 - s.bit_count) as nat);
        if s.bit_count >= 2 {
            lemma_pow2_unfold((32 - s.bit_count) as nat);
            vstd::arithmetic::power2::lemma_pow2_strictly_increases((33 - s.bit_count) as nat, 32);
            assert(s.bottom < 0x8000_0000);
            assert(v.bottom == 2 * s.bottom);
            assert(v.bit_count == s.bit_count - 1);
        } else {
            assert(v.bit_count == 8);
            assert(v.bottom < 0x100_0000);
            assert(pow2(24) == 0x100_0000);
        }
    } else {
        assert(split == 128);
        assert(renorm_count(128) == 0);
    }
}

/// `j` flushing zeros.
pub open spec fn zeros(j: nat) -> Seq<(u8, bool)> {
    Seq::new(j, |i: int| (128u8, false))
}

/// After `j` flushing zeros: the low end has been shifted `d >= j - 1`
/// times, and either no carry is pending or the bit position has only
/// counted down (by `d`) without reaching the point where carries apply.
proof fn lemma_flush(s: EncState, j: nat) -> (d: nat)
    requires
        state_wf(s),
    ensures
        ({
            let g = spec_put_bools(s, zeros(j));
            &&& state_wf(g)
            &&& low_value(g) == low_value(s) * pow2(d)
            &&& d + 1 >= j
            &&& j >= 1 ==> g.range <= 254
            &&& no_pending_carry(g) || (d < s.bit_count && g.bit_count == s.bit_count - d)
        }),
    decreases j,
{
    lemma2_to64();
    if j == 0 {
        assert(zeros(0) =~= Seq::<(u8, bool)>::empty());
        assert(low_value(s) * pow2(0) == low_value(s));
        0
    } else {
        let d0 = lemma_flush(s, (j - 1) as nat);
        let g0 = spec_put_bools(s, zeros((j - 1) as nat));
        assert(zeros(j).drop_last() =~= zeros((j - 1) as nat));
        assert(zeros(j).last() == (128u8, false));
        let g = spec_put_bools(s, zeros(j));
        assert(g == spec_put_bool(g0, 128, false));
        lemma_zero_step(g0);
        let k: nat = if g0.range <= 254 {
            1
        } else {
            0
        };
        lemma_pow2_adds(d0, k);
        assert(low_value(s) * pow2(d0) * pow2(k) == low_value(s) * pow2(d0 + k)) by (nonlinear_arith)
            requires
                pow2(d0 + k) == pow2(d0) * pow2(k),
        ;
        d0 + k
    }
}

/// After the thirty-two flushing zeros nothing is pending: `bottom` is
/// zero, so the emitted bytes alone spell the low end.
proof fn lemma_flush_clears(s: EncState)
    requires
        state_wf(s),
    ensures
        state_wf(spec_put_bools(s, flush_ops())),
        spec_put_bools(s, flush_ops()).bottom == 0,
{
    lemma2_to64();
    assert(flush_ops() =~= zeros(32));
    let d = lemma_flush(s, 32);
    let g = spec_put_bools(s, zeros(32));
    assert(no_pending_carry(g));
    let c = g.bit_count;
    let w = (32 - c) as nat;
    let rest = (d - w) as nat;
    lemma_pow2_adds(rest, w);
    lemma_pow2_pos(w);
    let z = be_value(g.out) as int;
    let q = low_value(s) * pow2(rest) - z;
    assert(g.bottom == q * pow2(w)) by (nonlinear_arith)
        requires
            low_value(g) == z * pow2(w) + g.bottom,
            low_value(g) == low_value(s) * pow2(d),
            pow2(d) == pow2(rest) * pow2(w),
            q == low_value(s) * pow2(rest) - z,
    ;
    assert(q == 0) by (nonlinear_arith)
        requires
            g.bottom == q * pow2(w),
            0 <= g.bottom < pow2(w),
            pow2(w) > 0,
    ;
}

/// Decoding the decisions `ds[i..]` from a decoder that matches the coder
/// after `ds[..i]` gives back their bits, provided the final stream value
/// `vfin` lies in every interval along the way.
proof fn lemma_decode_from(
    b: Seq<u8>,
    ds: Seq<(u8, bool)>,
    i: int,
    d: DecState,
    vfin: int,
    c: int,
)
    requires
        0 <= i <= ds.len(),
        1 <= c <= 24,
        vfin == (be_value(b) as int) * (pow2((32 - c) as nat) as int),
        forall|j: int|
            i <= j <= ds.len() ==> contains_at(
                #[trigger] spec_put_bools(spec_start(), ds.take(j)),
                vfin,
                8 * b.len() + 24 - c,
            ),
        ({
            let e = spec_put_bools(spec_start(), ds.take(i));
            &&& state_wf(e)
            &&& enc_bounded(e)
            &&& dec_matches(b, d, enc_pos(e), low_value(e), e.range)
        }),
    ensures
        dec_bools(b, d, ds.skip(i).map_values(|o: (u8, bool)| o.0)) == ds.skip(i).map_values(
            |o: (u8, bool)| o.1,
        ),
    decreases ds.len() - i,
{
    let probs = ds.skip(i).map_values(|o: (u8, bool)| o.0);
    let bits = ds.skip(i).map_values(|o: (u8, bool)| o.1);
    if i == ds.len() {
        assert(probs =~= Seq::<u8>::empty());
        assert(bits =~= Seq::<bool>::empty());
    } else {
        let big_t = 8 * b.len() + 24 - c;
        let e = spec_put_bools(spec_start(), ds.take(i));
        let op = ds[i];
        assert(ds.take(i + 1).drop_last() =~= ds.take(i));
        assert(ds.take(i + 1).last() == op);
        let e2 = spec_put_bools(spec_start(), ds.take(i + 1));
        assert(e2 == spec_put_bool(e, op.0, op.1));
        assert(contains_at(e2, vfin, big_t));
        assert(contains_at(e, vfin, big_t));
        lemma_contains_back(e, op.0, op.1, vfin, big_t);
        lemma_put_bool_step(e, op.0, op.1);
        let t = enc_pos(e);
        let split = spec_split(e.range, op.0);
        let low = low_value(e);
        lemma_window_compare(b, t, low + split, c);
        assert((8 * b.len() + 24 - c - t) as nat == (big_t - t) as nat);
        let (x, d2) = dec_bool(b, d, op.0);
        assert(x == op.1);
        let part = if op.1 {
            e.range - split
        } else {
            split
        };
        if op.1 {
            let dd = DecState { range: e.range - split, value: d.value - split * 256, ..d };
            assert(dec_matches(b, dd, t, low + split, part));
            lemma_dec_renorm(b, dd, t, low + split, part);
        } else {
            let dd = DecState { range: split, ..d };
            assert(dec_matches(b, dd, t, low, part));
            lemma_dec_renorm(b, dd, t, low, part);
        }
        lemma_decode_from(b, ds, i + 1, d2, vfin, c);
        assert(probs[0] == op.0);
        assert(probs.drop_first() =~= ds.skip(i + 1).map_values(|o: (u8, bool)| o.0));
        assert(bits =~= seq![op.1] + ds.skip(i + 1).map_values(|o: (u8, bool)| o.1));
    }
}

proof fn lemma_start_ok()
    ensures
        state_wf(spec_start()),
        enc_bounded(spec_start()),
{
    lemma2_to64();
    let s = spec_start();
    assert(s.out =~= Seq::<u8>::empty());
    assert(be_value(s.out) == 0);
    assert(enc_pos(s) == 0);
}

/// Decoding inverts encoding: the stream the encoder produces for any
/// decisions reads back, with the same probabilities, as the leading
/// marker `0` followed by exactly the coded bits.
#[verifier::spinoff_prover]
#[verifier::rlimit(40)]
pub proof fn law_decode_inverts_encode(ops: Seq<(u8, bool)>)
    ensures
        spec_decode(spec_encode(ops), ops.map_values(|o: (u8, bool)| o.0)) == seq![false]
            + ops.map_values(|o: (u8, bool)| o.1),
{
    lemma2_to64();
    let start = spec_start();
    let ds = seq![(128u8, false)] + ops;
    let all = ds + flush_ops();
    // The coder over `ds` then the flush is the coder behind `spec_encode`.
    lemma_put_bools_append(start, seq![(128u8, false)], ops);
    assert(seq![(128u8, false)].drop_last() =~= Seq::<(u8, bool)>::empty());
    assert(spec_put_bools(start, Seq::<(u8, bool)>::empty()) == start);
    assert(seq![(128u8, false)].last() == (128u8, false));
    assert(spec_put_bools(start, seq![(128u8, false)]) == spec_put_bool(
        spec_put_bools(start, Seq::<(u8, bool)>::empty()),
        128,
        false,
    ));
    assert(spec_put_bools(start, seq![(128u8, false)]) == spec_put_bool(start, 128, false));
    lemma_put_bools_append(start, ds, flush_ops());
    assert(ds + flush_ops() =~= all);
    lemma_put_bools_append(spec_put_bool(start, 128, false), ops, flush_ops());
    let e_n = spec_put_bools(start, ds);
    let e_end = spec_put_bools(start, all);
    assert(e_end == spec_put_bools(e_n, flush_ops()));
    let b = spec_encode(ops);
    assert(b == e_end.out);
    // Well-formedness along the way, and nothing pending at the end.
    lemma_start_ok();
    assert(state_wf(start) && enc_bounded(start));
    lemma_put_bools_wf(start, ds);
    lemma_put_bools_wf(start, all);
    lemma_flush_clears(e_n);
    let c = e_end.bit_count;
    let vfin = low_value(e_end);
    assert(vfin == (be_value(b) as int) * (pow2((32 - c) as nat) as int));
    let big_t = enc_pos(e_end);
    assert(big_t == 8 * b.len() + 24 - c);
    assert(pow2((big_t - enc_pos(e_end)) as nat) == 1);
    assert(low_value(e_end) * 1 <= vfin < (low_value(e_end) + e_end.range) * 1);
    assert(contains_at(e_end, vfin, big_t));
    assert forall|j: int| 0 <= j <= ds.len() implies contains_at(
        #[trigger] spec_put_bools(start, ds.take(j)),
        vfin,
        8 * b.len() + 24 - c,
    ) by {
        lemma_contains_prefix(start, all, j, vfin, big_t);
        assert(all.take(j) =~= ds.take(j));
    }
    // The decoder starts matched to the coder's start.
    let d0 = dec_init(b);
    assert(ds.take(0) =~= Seq::<(u8, bool)>::empty());
    assert(prefix_value(b, 0) == 0);
    assert(prefix_value(b, 1) == byte_or_zero(b, 0));
    assert(prefix_value(b, 2) == byte_or_zero(b, 0) * 256 + byte_or_zero(b, 1));
    assert(window(b, 0) == prefix_value(b, 2));
    assert(dec_matches(b, d0, 0, 0, 255));
    lemma_decode_from(b, ds, 0, d0, vfin, c);
    assert(ds.skip(0) =~= ds);
    assert(ds.map_values(|o: (u8, bool)| o.0) =~= seq![128u8] + ops.map_values(|o: (u8, bool)| o.0));
    assert(ds.map_values(|o: (u8, bool)| o.1) =~= seq![false] + ops.map_values(|o: (u8, bool)| o.1));
}


/// The value of the `n` low bits of `value`, bit `j` weighing `2^j`.
pub open spec fn low_bits_value(value: u32, n: nat) -> int
    decreases n,
{
    if n == 0 {
        0
    } else {
        low_bits_value(value, (n - 1) as nat) + (if bit_of(value, (n - 1) as nat) {
            pow2((n - 1) as nat) as int
        } else {
            0
        })
    }
}

proof fn lemma_low_bits_value(value: u32, n: nat)
    ensures
        low_bits_value(value, n) == value as int % (pow2(n) as int),
    decreases n,
{
    if n == 0 {
        vstd::arithmetic::power2::lemma2_to64();
        assert(value as int % 1 == 0);
    } else {
        let m = (n - 1) as nat;
        lemma_low_bits_value(value, m);
        vstd::arithmetic::power2::lemma_pow2_unfold(n);
        vstd::arithmetic::power2::lemma_pow2_pos(m);
        let y = pow2(m) as int;
        let x = value as int;
        vstd::arithmetic::div_mod::lemma_mod_breakdown(x, y, 2);
        assert(y * 2 == pow2(n) as int);
        assert(x % (y * 2) == y * ((x / y) % 2) + x % y);
        assert(low_bits_value(value, n) == low_bits_value(value, m) + (if bit_of(value, m) { y } else { 0 }));
        if (x / y) % 2 == 1 {
            assert(bit_of(value, m));
            assert(y * ((x / y) % 2) == y);
        } else {
            assert((x / y) % 2 == 0);
            assert(!bit_of(value, m));
            assert(y * ((x / y) % 2) == 0);
        }
    }
}

/// A literal coded among other decisions reads back: decoding with the
/// coded probabilities gives, after the leading marker, the decisions
/// before it unchanged, then the `n` low bits of `value` most significant
/// first (whose value is `value mod 2^n`), then the decisions after it
/// unchanged.
pub proof fn law_literal_read_back(before: Seq<(u8, bool)>, value: u32, n: nat, after: Seq<(u8, bool)>)
    ensures
        ({
            let ops = before + literal_ops(value, n) + after;
            let d = spec_decode(spec_encode(ops), ops.map_values(|o: (u8, bool)| o.0));
            &&& d.len() == 1 + ops.len()
            &&& forall|k: int| 0 <= k < before.len() ==> #[trigger] d[1 + k] == before[k].1
            &&& forall|k: int| 0 <= k < n ==> #[trigger] d[1 + before.len() + k] == bit_of(value, (n - 1 - k) as nat)
            &&& forall|k: int| 0 <= k < after.len() ==> #[trigger] d[1 + before.len() + n + k] == after[k].1
        }),
        low_bits_value(value, n) == value as int % (pow2(n) as int),
{
    let ops = before + literal_ops(value, n) + after;
    law_decode_inverts_encode(ops);
    lemma_low_bits_value(value, n);
    let d = spec_decode(spec_encode(ops), ops.map_values(|o: (u8, bool)| o.0));
    assert forall|k: int| 0 <= k < before.len() implies #[trigger] d[1 + k] == before[k].1 by {
        assert(ops[k] == before[k]);
    }
    assert forall|k: int| 0 <= k < n implies #[trigger] d[1 + before.len() + k] == bit_of(value, (n - 1 - k) as nat) by {
        assert(ops[before.len() + k] == literal_ops(value, n)[k]);
    }
    assert forall|k: int| 0 <= k < after.len() implies #[trigger] d[1 + before.len() + n + k] == after[k].1 by {
        assert(ops[before.len() + n + k] == after[k]);
    }
}

} // verus!
