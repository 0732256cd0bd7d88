use threers::vp9::quant::{
    ac_quant, dc_quant, quantize, quantize_16x16, quantize_32x32, quantize_8x8, quantize_coeff,
};

#[test]
fn qlookup_endpoints() {
    assert_eq!(dc_quant(0), 4);
    assert_eq!(ac_quant(0), 4);
    assert_eq!(dc_quant(255), 1336);
    assert_eq!(ac_quant(255), 1828);
    assert_eq!(dc_quant(999), 1336);
}

#[test]
fn quantize_zero_stays_zero() {
    let (q, dq) = quantize(&[0; 16], 100);
    assert_eq!(q, [0; 16]);
    assert_eq!(dq, [0; 16]);
}

#[test]
fn quantize_dequant_roundtrip_identity_on_multiples() {
    let qindex = 40;
    let dc = dc_quant(qindex);
    let ac = ac_quant(qindex);
    let mut coeff = [0i32; 16];
    coeff[0] = dc * 3;
    coeff[1] = -ac * 2;
    coeff[5] = ac * 7;
    let (q, dq) = quantize(&coeff, qindex);
    assert_eq!(q[0], 3);
    assert_eq!(q[1], -2);
    assert_eq!(q[5], 7);
    assert_eq!(dq[0], coeff[0]);
    assert_eq!(dq[1], coeff[1]);
    assert_eq!(dq[5], coeff[5]);
}

#[test]
fn quantize_rounds_half_up() {
    let (q, dq) = quantize_coeff(5, 10);
    assert_eq!((q, dq), (1, 10));
    let (q, dq) = quantize_coeff(4, 10);
    assert_eq!((q, dq), (0, 0));
    let (q, dq) = quantize_coeff(-5, 10);
    assert_eq!((q, dq), (-1, -10));
}

#[test]
fn dc_uses_dc_table_ac_uses_ac() {
    let qindex = 120;
    assert_ne!(dc_quant(qindex), ac_quant(qindex));
    let mut coeff = [0i32; 16];
    let mid = (dc_quant(qindex) + ac_quant(qindex)) * 2;
    coeff[0] = mid;
    coeff[1] = mid;
    let (q, _) = quantize(&coeff, qindex);
    assert_eq!(q[0], (mid + dc_quant(qindex) / 2) / dc_quant(qindex));
    assert_eq!(q[1], (mid + ac_quant(qindex) / 2) / ac_quant(qindex));
}

#[test]
fn larger_blocks_share_the_4x4_rule() {
    let qindex = 60;
    let (dc, ac) = (dc_quant(qindex), ac_quant(qindex));
    let mut c8 = [0i32; 64];
    c8[0] = dc * 5;
    c8[63] = -ac * 4;
    let (q, dq) = quantize_8x8(&c8, qindex);
    assert_eq!((q[0], q[63]), (5, -4));
    assert_eq!((dq[0], dq[63]), (c8[0], c8[63]));
    let mut c16 = [0i32; 256];
    c16[17] = ac * 3 + ac / 2 - 1;
    let (q, _) = quantize_16x16(&c16, qindex);
    assert_eq!(q[17], 3);
}

#[test]
fn quantize_32x32_halves_the_dequantized_value() {
    let qindex = 60;
    let ac = ac_quant(qindex);
    let mut c = [0i32; 1024];
    c[1] = ac * 3;
    let (q, dq) = quantize_32x32(&c, qindex);
    assert_eq!(q[1], 3);
    assert_eq!(dq[1], (3 * ac) >> 1);
    assert_eq!(q[0], 0);
}
