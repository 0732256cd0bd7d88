//! A minimal, decodable VP9 intra keyframe (profile 0, 8-bit 4:2:0): one
//! 64×64 superblock coded as a single `PARTITION_NONE` block with `skip = 1`
//! and `DC_PRED`, so the decoded picture is solid mid-gray. It drives the
//! whole pipeline: uncompressed header bit-packing, the bool-coded compressed
//! header and the bool-coded tile data.
use vstd::prelude::*;
use crate::vp9::bit_writer::{BitWriter, pack_bits, value_bits};
use crate::vp9::bool_coder::{
    BoolEncoder, spec_encode, literal_ops, flush_ops,
    lemma_put_bools_append, lemma_put_bools_push,
};
use crate::vp9::tables::{
    DC_PRED, DEFAULT_SKIP_PROBS, INTRA_MODE_TREE, KF_PARTITION_PROBS, KF_UV_MODE_PROB_DC,
    KF_Y_MODE_PROB_DC_DC, PARTITION_NONE, PARTITION_TREE,
};
use crate::vp9::tree::{tree_wf, tree_has, spec_tree_path, tree_ops, write_tree};
use crate::vp9::{finalize_frame, spec_finalize_frame};

verus! {

pub const FRAME_SYNC_CODE: u32 = 0x0049_8342;

pub const CS_BT_601: u32 = 1;

/// The uncompressed keyframe header bits (VP9 spec §6.2): frame marker,
/// profile 0, shown keyframe, sync code, BT.601 studio range, frame size,
/// no render size, frame-parallel decoding, loop filter off, base_q_idx 128,
/// no delta-q, no segmentation, one tile row, then the compressed header size.
pub open spec fn spec_uncompressed_header_bits(width: u32, height: u32, header_size: u32) -> Seq<bool> {
    Seq::<bool>::empty()
    + value_bits(2, 2)
    .push(false).push(false).push(false).push(false).push(true).push(false)
    + value_bits(FRAME_SYNC_CODE, 24)
    + value_bits(CS_BT_601, 3)
    .push(false)
    + value_bits((width - 1) as u32, 16)
    + value_bits((height - 1) as u32, 16)
    .push(false).push(false).push(true)
    + value_bits(0, 2)
    + value_bits(0, 6)
    + value_bits(0, 3)
    .push(false)
    + value_bits(128, 8)
    .push(false).push(false).push(false).push(false).push(false)
    + value_bits(header_size, 16)
}

fn write_uncompressed_header(w: &mut BitWriter, width: u32, height: u32, header_size: u32)
    requires
        width >= 1,
        height >= 1,
    ensures
        final(w)@ == old(w)@ + spec_uncompressed_header_bits(width, height, header_size),
{
    let ghost w0 = w@;
    w.write_bits(2, 2);
    w.write_bit(0);
    w.write_bit(0);
    w.write_bit(0);
    w.write_bit(0);
    w.write_bit(1);
    w.write_bit(0);
    w.write_bits(FRAME_SYNC_CODE, 24);
    w.write_bits(CS_BT_601, 3);
    w.write_bit(0);
    w.write_bits(width - 1, 16);
    w.write_bits(height - 1, 16);
    w.write_bit(0);
    w.write_bit(0);
    w.write_bit(1);
    w.write_bits(0, 2);
    w.write_bits(0, 6);
    w.write_bits(0, 3);
    w.write_bit(0);
    w.write_bits(128, 8);
    w.write_bit(0);
    w.write_bit(0);
    w.write_bit(0);
    w.write_bit(0);
    w.write_bit(0);
    w.write_bits(header_size, 16);
    assert(w@ =~= w0 + spec_uncompressed_header_bits(width, height, header_size));
}

/// Compressed-header decisions for an intra keyframe: `tx_mode = ONLY_4X4`,
/// no coefficient-probability updates, no skip-probability updates.
pub open spec fn spec_compressed_header_ops() -> Seq<(u8, bool)> {
    literal_ops(0, 2) + seq![(128u8, false), (252u8, false), (252u8, false), (252u8, false)]
}

fn compressed_header() -> (bytes: Vec<u8>)
    ensures
        bytes@ == spec_encode(spec_compressed_header_ops()),
{
    let mut e = BoolEncoder::new();
    let ghost s0 = e@;
    e.put_literal(0, 2);
    e.put_bit(false);
    e.put_bool(252, false);
    e.put_bool(252, false);
    e.put_bool(252, false);
    proof {
        let a = literal_ops(0, 2);
        lemma_put_bools_push(s0, a, (128u8, false));
        lemma_put_bools_push(s0, a.push((128u8, false)), (252u8, false));
        lemma_put_bools_push(s0, a.push((128u8, false)).push((252u8, false)), (252u8, false));
        lemma_put_bools_push(
            s0,
            a.push((128u8, false)).push((252u8, false)).push((252u8, false)),
            (252u8, false),
        );
        assert(a.push((128u8, false)).push((252u8, false)).push((252u8, false)).push(
            (252u8, false),
        ) =~= spec_compressed_header_ops());
        lemma_put_bools_append(s0, spec_compressed_header_ops(), flush_ops());
    }
    e.finish()
}

pub proof fn lemma_kf_trees()
    ensures
        tree_wf(PARTITION_TREE@),
        tree_has(PARTITION_TREE@, PARTITION_NONE),
        tree_wf(INTRA_MODE_TREE@),
        tree_has(INTRA_MODE_TREE@, DC_PRED),
{
    assert(PARTITION_TREE@ =~= seq![0i8, 2i8, -1i8, 4i8, -2i8, -3i8]);
    assert(INTRA_MODE_TREE@ =~= seq![
        0i8, 2i8, -9i8, 4i8, -1i8, 6i8, 8i8, 12i8, -2i8, 10i8, -4i8, -5i8, -3i8, 14i8, -8i8,
        16i8, -6i8, -7i8,
    ]);
    reveal_with_fuel(spec_tree_path, 2);
}

/// Tile decisions: partition NONE (64×64 context 12), skip = 1 (context 0),
/// DC_PRED for luma and chroma.
pub open spec fn spec_tile_ops() -> Seq<(u8, bool)> {
    tree_ops(PARTITION_TREE@, KF_PARTITION_PROBS[12]@, PARTITION_NONE)
    .push((DEFAULT_SKIP_PROBS[0], true))
    + tree_ops(INTRA_MODE_TREE@, KF_Y_MODE_PROB_DC_DC@, DC_PRED)
    + tree_ops(INTRA_MODE_TREE@, KF_UV_MODE_PROB_DC@, DC_PRED)
}

fn tile_data() -> (bytes: Vec<u8>)
    ensures
        bytes@ == spec_encode(spec_tile_ops()),
{
    proof {
        lemma_kf_trees();
    }
    let mut e = BoolEncoder::new();
    let ghost s0 = e@;
    write_tree(&mut e, &PARTITION_TREE, &KF_PARTITION_PROBS[12], PARTITION_NONE);
    let ghost a = tree_ops(PARTITION_TREE@, KF_PARTITION_PROBS[12]@, PARTITION_NONE);
    e.put_bool(DEFAULT_SKIP_PROBS[0], true);
    proof {
        assert(a =~= Seq::<(u8, bool)>::empty() + a);
        lemma_put_bools_push(s0, a, (DEFAULT_SKIP_PROBS[0], true));
    }
    let ghost b = a.push((DEFAULT_SKIP_PROBS[0], true));
    write_tree(&mut e, &INTRA_MODE_TREE, &KF_Y_MODE_PROB_DC_DC, DC_PRED);
    let ghost c = tree_ops(INTRA_MODE_TREE@, KF_Y_MODE_PROB_DC_DC@, DC_PRED);
    proof {
        lemma_put_bools_append(s0, b, c);
    }
    write_tree(&mut e, &INTRA_MODE_TREE, &KF_UV_MODE_PROB_DC, DC_PRED);
    let ghost d = tree_ops(INTRA_MODE_TREE@, KF_UV_MODE_PROB_DC@, DC_PRED);
    proof {
        lemma_put_bools_append(s0, b + c, d);
        lemma_put_bools_append(s0, spec_tile_ops(), flush_ops());
    }
    e.finish()
}

/// The whole keyframe: packed uncompressed header, compressed header, tile
/// data, then the superframe-marker guard.
pub open spec fn spec_intra_gray_frame(width: u32, height: u32) -> Seq<u8> {
    let compressed = spec_encode(spec_compressed_header_ops());
    let tile = spec_encode(spec_tile_ops());
    spec_finalize_frame(
        pack_bits(spec_uncompressed_header_bits(width, height, compressed.len() as u32))
            + compressed + tile,
    )
}

/// Encode a solid-gray VP9 intra keyframe; only a single 64×64 superblock
/// is supported.
pub fn encode_intra_gray(width: u32, height: u32) -> (frame: Vec<u8>)
    requires
        width == 64 && height == 64,
    ensures
        frame@ == spec_intra_gray_frame(width, height),
{
    let compressed = compressed_header();
    let tile = tile_data();
    let mut wb = BitWriter::new();
    write_uncompressed_header(&mut wb, width, height, compressed.len() as u32);
    let mut frame = wb.finish();
    frame.extend_from_slice(compressed.as_slice());
    frame.extend_from_slice(tile.as_slice());
    finalize_frame(frame)
}

} // verus!
