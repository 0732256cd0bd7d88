# threers

Verified building blocks of a small 3D/video toolkit, written in Verus.

- `layers` — 32-channel visibility layer masks.
- `csg` — the table that decides which triangles a CSG operation keeps,
  half-edge and intersection bookkeeping, topology comparison of triangle
  keys, and readers for reference data files (all on integers; geometry in
  floating point is not part of this crate).
- `vp9` — a VP9 encoder core: boolean range coder (with a decoder
  specification and the law that decoding inverts encoding), token trees,
  motion-vector coding (with its read-back law), forward/inverse transforms,
  quantization, intra and inter prediction, motion search, reference and
  mode selection, partition and mode-info coding, transform tiling, the
  in-loop deblocking filter, frame headers, skip P-frames (ZEROMV/NEWMV)
  end to end, and intra keyframes (`vp9::intra_frame`): per 8×8 block the
  SAD-chosen DC/V/H modes, the 4×4 hybrid transforms, quantization,
  skip decision, token contexts and the exact reconstruction, with the
  tile's symbols in coding order; and residual-coded inter frames
  (`vp9::residual_frame`): per block the reference(s), mode, vector(s) and
  filter, motion-compensated (and compound-averaged) prediction, partition
  choice, transform-size choice by coefficient cost, skip decision,
  quantization, token contexts, mode-info coding, reconstruction and
  deblocking, with each tile's symbols in coding order.

The crate has no coefficient token coder (the VP9 coefficient probability,
model and scan tables it would need are not part of it). So intra
keyframes and residual inter frames come out as symbol streams whose
transform blocks still await token coding; skip P-frames, which code no
coefficients, are complete bitstreams.

Every public function states its result in `ensures` over spec functions;
public `law_*`/`lemma_*` proof functions state properties that relate
several operations. Tests under `tests/` run the same code on concrete
values.
