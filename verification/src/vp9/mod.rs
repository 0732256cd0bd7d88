//! A from-scratch VP9 encoder core: boolean entropy coder, transforms,
//! quantization, prediction, motion search, motion-vector coding, deblocking
//! and frame headers.
use vstd::prelude::*;

pub mod bit_writer;
pub mod bool_coder;
pub mod bool_decode;
pub mod encoder;
pub mod inter;
pub mod intra;
pub mod intra_frame;
pub mod keyframe;
pub mod loopfilter;
pub mod mc;
pub mod me;
pub mod mi_context;
pub mod mode_info;
pub mod mv;
pub mod partition;
pub mod plane_tx;
pub mod quant;
pub mod ref_pick;
pub mod residual_frame;
pub mod skip_frame;
pub mod tables;
pub mod token_context;
pub mod transform;
pub mod tree;

verus! {

/// VP9 forbids a frame ending in `0b110xxxxx` (a superframe index marker):
/// such a frame gets one padding `0` byte.
pub open spec fn spec_finalize_frame(bits: Seq<u8>) -> Seq<u8> {
    if bits.len() > 0 && bits.last() & 0xe0u8 == 0xc0u8 {
        bits.push(0u8)
    } else {
        bits
    }
}

/// Append a padding `0` when the frame would end like a superframe index.
pub fn finalize_frame(bits: Vec<u8>) -> (r: Vec<u8>)
    ensures
        r@ == spec_finalize_frame(bits@),
{
    let mut bits = bits;
    let n = bits.len();
    if n > 0 && bits[n - 1] & 0xe0 == 0xc0 {
        bits.push(0);
    }
    bits
}

} // verus!
