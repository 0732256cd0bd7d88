//! MSB-first bit packer for the VP9 uncompressed frame header (VP9 spec §4.9
//! `f(n)`): bits fill each byte from its most significant bit down, and the
//! final byte is zero-padded.
use vstd::prelude::*;

verus! {

/// The byte whose bits, most significant first, are `bits[8k .. 8k+8]`
/// (missing bits read as `0`).
pub open spec fn packed_byte(bits: Seq<bool>, k: int) -> u8 {
    let b = |j: int| if 8 * k + j < bits.len() && bits[8 * k + j] { 1int } else { 0int };
    (128 * b(0) + 64 * b(1) + 32 * b(2) + 16 * b(3) + 8 * b(4) + 4 * b(5) + 2 * b(6) + b(7)) as u8
}

/// `bits` packed MSB-first into bytes, the last byte zero-padded.
pub open spec fn pack_bits(bits: Seq<bool>) -> Seq<u8> {
    Seq::new(((bits.len() + 7) / 8) as nat, |k: int| packed_byte(bits, k))
}

/// The `n` low bits of `value`, most significant first.
pub open spec fn value_bits(value: u32, n: nat) -> Seq<bool> {
    Seq::new(n, |k: int| (value as nat / vstd::arithmetic::power2::pow2((n - 1 - k) as nat)) % 2 == 1)
}

/// Accumulates header bits; [`BitWriter::finish`] packs them into bytes.
pub struct BitWriter {
    bits: Vec<bool>,
}

impl View for BitWriter {
    type V = Seq<bool>;

    closed spec fn view(&self) -> Seq<bool> {
        self.bits@
    }
}

impl BitWriter {
    /// An empty writer.
    pub fn new() -> (w: Self)
        ensures
            w@ == Seq::<bool>::empty(),
    {
        BitWriter { bits: Vec::new() }
    }

    /// Append one bit (`bit != 0`).
    pub fn write_bit(&mut self, bit: u32)
        ensures
            final(self)@ == old(self)@.push(bit != 0),
    {
        self.bits.push(bit != 0);
    }

    /// Append the `n` low bits of `value`, most significant first.
    pub fn write_bits(&mut self, value: u32, n: u32)
        requires
            n <= 32,
        ensures
            final(self)@ == old(self)@ + value_bits(value, n as nat),
    {
        let ghost vb = value_bits(value, n as nat);
        let mut i = n;
        assert(old(self)@ + vb.take(0) =~= old(self)@);
        while i > 0
            invariant
                i <= n <= 32,
                vb == value_bits(value, n as nat),
                self@ == old(self)@ + vb.take((n - i) as int),
            decreases i,
        {
            i -= 1;
            let y = value >> i;
            proof {
                vstd::bits::lemma_u32_shr_is_div(value, i);
                crate::vp9::bool_coder::lemma_u32_and_one(y);
                let k = (n - 1 - i) as int;
                assert(old(self)@ + vb.take(k + 1) =~= (old(self)@ + vb.take(k)).push(vb[k]));
            }
            self.bits.push((y & 1) != 0);
        }
        assert(vb.take(n as int) =~= vb);
    }

    /// Zero-pad to a byte boundary and return the packed bytes.
    pub fn finish(self) -> (bytes: Vec<u8>)
        requires
            self@.len() + 7 <= usize::MAX,
        ensures
            bytes@ == pack_bits(self@),
    {
        let bits = self.bits;
        let ghost len = bits@.len();
        let nbytes = (bits.len() + 7) / 8;
        let mut out: Vec<u8> = Vec::new();
        let mut k: usize = 0;
        while k < nbytes
            invariant
                k <= nbytes,
                nbytes == (bits@.len() + 7) / 8,
                bits@.len() + 7 <= usize::MAX,
                out@.len() == k,
                forall|i: int| 0 <= i < k ==> #[trigger] out@[i] == packed_byte(bits@, i),
            decreases nbytes - k,
        {
            let mut acc: u32 = 0;
            let mut j: usize = 0;
            proof {
                vstd::arithmetic::power2::lemma2_to64();
                assert(8 * k + 7 <= bits@.len() + 6) by (nonlinear_arith)
                    requires
                        k < nbytes,
                        nbytes == (bits@.len() + 7) / 8,
                ;
            }
            while j < 8
                invariant
                    j <= 8,
                    k < nbytes,
                    8 * k + 7 <= bits@.len() + 6,
                    bits@.len() + 7 <= usize::MAX,
                    nbytes == (bits@.len() + 7) / 8,
                    acc < vstd::arithmetic::power2::pow2(j as nat),
                    acc == partial_byte(bits@, k as int, j as int),
                decreases 8 - j,
            {
                proof {
                    vstd::arithmetic::power2::lemma_pow2_unfold((j + 1) as nat);
                    vstd::arithmetic::power2::lemma2_to64();
                }
                let idx = 8 * k + j;
                let b: u32 = if idx < bits.len() && bits[idx] {
                    1
                } else {
                    0
                };
                acc = 2 * acc + b;
                j += 1;
            }
            proof {
                vstd::arithmetic::power2::lemma2_to64();
                reveal_with_fuel(partial_byte, 9);
                assert(acc == packed_byte(bits@, k as int));
            }
            out.push(acc as u8);
            k += 1;
        }
        out
    }
}

/// The first `j` bits of byte `k`, read as a number.
pub open spec fn partial_byte(bits: Seq<bool>, k: int, j: int) -> int
    decreases j,
{
    if j <= 0 {
        0
    } else {
        2 * partial_byte(bits, k, j - 1) + if 8 * k + (j - 1) < bits.len() && bits[8 * k + (j
            - 1)] {
            1int
        } else {
            0int
        }
    }
}

} // verus!
