use crabml_core::backends::cpu::buf::buf_f16::quantize_f32_f16;
use crabml_core::backends::cpu::buf::buf_f32::{negate, vec_dot_f32_f32, ExpCache};
use crabml_core::backends::cpu::buf::CpuTensorBuf;
use crabml_core::backends::cpu::primitives::batch_matmul::{
    batch_matmul_naive, batch_matmul_naive_f16, batch_matmul_naive_f32, batch_matmul_simd_f16,
    gemv_strided_3d_2d_f32,
};
use crabml_core::backends::cpu::primitives::{
    batch_matmul, binary_inplace, silu_inplace, unary_inplace,
};
use crabml_core::error::ErrorKind;
use crabml_core::gguf::GGMLType;
use crabml_core::tensor::TensorStrider;
use half::f16;
use std::cell::Cell;

fn bits(values: &[f32]) -> Vec<u32> {
    values.iter().map(|v| v.to_bits()).collect()
}

fn floats(bits: &[u32]) -> Vec<f32> {
    bits.iter().map(|b| f32::from_bits(*b)).collect()
}

fn halves(values: &[f32]) -> Vec<u16> {
    values.iter().map(|v| f16::from_f32(*v).to_bits()).collect()
}

fn step(acc: u32, a: u32, b: u32) -> u32 {
    (f32::from_bits(acc) + f32::from_bits(a) * f32::from_bits(b)).to_bits()
}

fn step16(acc: u16, a: u16, b: u16) -> u16 {
    (f16::from_bits(acc) + f16::from_bits(a) * f16::from_bits(b)).to_bits()
}

fn step_mixed(acc: u32, a: u16, b: u16) -> u32 {
    (f32::from_bits(acc) + (f16::from_bits(a) * f16::from_bits(b)).to_f32()).to_bits()
}

fn widen(x: u16) -> u32 {
    f16::from_bits(x).to_f32().to_bits()
}

fn narrow(x: u32) -> u16 {
    f16::from_f32(f32::from_bits(x)).to_bits()
}

fn seq(n: usize) -> Vec<f32> {
    (0..n).map(|v| v as f32).collect()
}

#[test]
fn naive_product_adds_to_the_output() {
    let a = bits(&seq(12));
    let b = bits(&[1.0; 6]);
    let s1 = TensorStrider::new(vec![2, 2, 3]).unwrap();
    let s2 = TensorStrider::new(vec![2, 3, 1]).unwrap();
    let mut c = bits(&[0.0, 0.0, 0.0, 0.0, 7.0]);
    batch_matmul_naive_f32(&a, &b, &mut c, &s1, &s2, &step);
    assert_eq!(floats(&c), [3.0, 12.0, 21.0, 30.0, 7.0]);
    batch_matmul_naive_f32(&a, &b, &mut c, &s1, &s2, &step);
    assert_eq!(floats(&c), [6.0, 24.0, 42.0, 60.0, 7.0]);
    let mut c = vec![0.0f32; 4];
    batch_matmul_naive(&seq(12), &[1.0f32; 6], &mut c, &s1, &s2, &|acc: f32, a: f32, b: f32| {
        acc + a * b
    });
    assert_eq!(c, [3.0, 12.0, 21.0, 30.0]);
}

#[test]
fn naive_product_with_strided_operands() {
    // A (1, 2, 2) = [[1, 2], [3, 4]]; B (1, 2, 3) read through a transposed view of a (3, 2) buffer
    let a = bits(&[1.0, 2.0, 3.0, 4.0]);
    let b = bits(&[1.0, 10.0, 2.0, 20.0, 3.0, 30.0]);
    let s1 = TensorStrider::new(vec![1, 2, 2]).unwrap();
    let s2 = TensorStrider::with_strides(vec![1, 2, 3], vec![6, 1, 2]).unwrap();
    let mut c = bits(&[0.0; 6]);
    batch_matmul_naive_f32(&a, &b, &mut c, &s1, &s2, &step);
    assert_eq!(floats(&c), [21.0, 42.0, 63.0, 43.0, 86.0, 129.0]);
    let mut c = bits(&[0.0; 6]);
    batch_matmul_naive_f16(
        &halves(&[1.0, 2.0, 3.0, 4.0]),
        &halves(&[1.0, 10.0, 2.0, 20.0, 3.0, 30.0]),
        &mut c,
        &s1,
        &s2,
        &step_mixed,
    );
    assert_eq!(floats(&c), [21.0, 42.0, 63.0, 43.0, 86.0, 129.0]);
}

#[test]
fn half_precision_product_on_both_layouts() {
    let a = halves(&seq(12));
    let s1 = TensorStrider::new(vec![2, 2, 3]).unwrap();
    // B (1, 3, 2), dense along n: [[1, 2], [3, 4], [5, 6]]
    let b_n = halves(&[1.0, 2.0, 3.0, 4.0, 5.0, 6.0]);
    let s2_n = TensorStrider::new(vec![1, 3, 2]).unwrap();
    // the same B, dense along k
    let b_k = halves(&[1.0, 3.0, 5.0, 2.0, 4.0, 6.0]);
    let s2_k = TensorStrider::with_strides(vec![1, 3, 2], vec![6, 1, 3]).unwrap();
    let want = [13.0, 16.0, 40.0, 52.0, 67.0, 88.0, 94.0, 124.0];
    let zero = f16::from_f32(0.0).to_bits();
    let mut c = bits(&[9.0; 9]);
    batch_matmul_simd_f16(&a, &b_n, &mut c, &s1, &s2_n, zero, &step16, &widen);
    assert_eq!(floats(&c[..8]), want);
    assert_eq!(f32::from_bits(c[8]), 9.0);
    let mut c = bits(&[9.0; 8]);
    batch_matmul_simd_f16(&a, &b_k, &mut c, &s1, &s2_k, zero, &step16, &widen);
    assert_eq!(floats(&c), want);
}

#[test]
fn buffer_product_dispatches_on_the_right_operand() {
    let a = CpuTensorBuf::from_vec(bits(&seq(12)));
    let s1 = TensorStrider::new(vec![2, 2, 3]).unwrap();
    let s2 = TensorStrider::new(vec![2, 3, 1]).unwrap();
    let zero = f16::from_f32(0.0).to_bits();
    let b32 = CpuTensorBuf::from_vec(bits(&[1.0; 6]));
    let mut c = CpuTensorBuf::from_vec(bits(&[1.0; 4]));
    batch_matmul(&a, &b32, &mut c, &s1, &s2, &step, &narrow, zero, &step16, &widen);
    assert_eq!(floats(c.as_f32_ref()), [4.0, 13.0, 22.0, 31.0]);
    let raw16: Vec<u8> = halves(&[1.0; 6]).iter().flat_map(|v| v.to_le_bytes()).collect();
    let b16 = CpuTensorBuf::from_raw_bytes(&raw16, GGMLType::F16).unwrap();
    let mut c = CpuTensorBuf::from_vec(bits(&[1.0; 4]));
    batch_matmul(&a, &b16, &mut c, &s1, &s2, &step, &narrow, zero, &step16, &widen);
    assert_eq!(floats(c.as_f32_ref()), [3.0, 12.0, 21.0, 30.0]);
}

#[test]
fn matrix_vector_batches() {
    // A (2, 2, 3) densely packed, B (2, 3), C (2, 2)
    let a = bits(&seq(12));
    let b = bits(&[1.0, 1.0, 1.0, 1.0, 0.0, 2.0]);
    let mut c = bits(&[5.0; 4]);
    let zero = 0.0f32.to_bits();
    gemv_strided_3d_2d_f32(&a, &b, &mut c, 2, 2, 3, 6, 3, 1, zero, &step);
    assert_eq!(floats(&c), [3.0, 12.0, 22.0, 31.0]);
    // a single batch of A serves both batches of B
    let mut c = bits(&[5.0; 4]);
    gemv_strided_3d_2d_f32(&a[..6], &b, &mut c, 1, 2, 3, 6, 3, 1, zero, &step);
    assert_eq!(floats(&c), [3.0, 12.0, 4.0, 13.0]);
    // nothing to accumulate
    let mut c = bits(&[5.0; 2]);
    gemv_strided_3d_2d_f32(&[], &[], &mut c, 1, 2, 0, 0, 0, 0, zero, &step);
    assert_eq!(floats(&c), [0.0, 0.0]);
}

#[test]
fn plain_dot_and_narrowing() {
    let a = bits(&[1.0, 2.0, 3.0]);
    let b = bits(&[4.0, 5.0, 6.0]);
    let zero = 0.0f32.to_bits();
    assert_eq!(f32::from_bits(vec_dot_f32_f32(&a, 0, &b, 0, 3, zero, &step)), 32.0);
    assert_eq!(f32::from_bits(vec_dot_f32_f32(&a, 1, &b, 0, 2, zero, &step)), 23.0);
    assert_eq!(
        vec_dot_f32_f32(&a, 0, &b, 0, 3, zero, &step),
        vec_dot_f32_f32(&b, 0, &a, 0, 3, zero, &step)
    );
    assert_eq!(quantize_f32_f16(&a, &narrow), halves(&[1.0, 2.0, 3.0]));
}

#[test]
fn negation_flips_the_sign_bit() {
    for v in [0.0f32, -0.0, 1.5, -2.25, f32::INFINITY, f32::MIN_POSITIVE] {
        assert_eq!(negate(v.to_bits()), (-v).to_bits());
        assert_eq!(negate(negate(v.to_bits())), v.to_bits());
    }
}

#[test]
fn exponential_table_fills_once_per_key() {
    let calls = Cell::new(0u32);
    let exp = |x: u32| {
        calls.set(calls.get() + 1);
        f32::from_bits(x).exp().to_bits()
    };
    let mut cache = ExpCache::new(exp);
    let one = 1.0f32.to_bits();
    assert_eq!(f32::from_bits(cache.get(one)), 1.0f32.exp());
    assert_eq!(calls.get(), 1);
    // the same upper 16 bits: the same entry, not computed again
    assert_eq!(f32::from_bits(cache.get(one + 0xffff)), 1.0f32.exp());
    assert_eq!(calls.get(), 1);
    // the next key
    let next = f32::from_bits(one + 0x1_0000);
    assert_eq!(f32::from_bits(cache.get(next.to_bits() + 5)), next.exp());
    assert_eq!(calls.get(), 2);
    assert_eq!(f32::from_bits(cache.get(0)), 1.0);
    assert_eq!(cache.get(u32::MAX), f32::from_bits(0xffff_0000).exp().to_bits());
}

#[test]
fn silu_through_the_table() {
    let exp = |x: u32| f32::from_bits(x).exp().to_bits();
    let gate = |x: u32, e: u32| (f32::from_bits(x) / (1.0 + f32::from_bits(e))).to_bits();
    let mut cache = ExpCache::new(exp);
    let mut buf = CpuTensorBuf::from_vec(bits(&[0.0, 1.0, -1.0, 2.0]));
    silu_inplace(&mut cache, &mut buf, &gate).unwrap();
    let got = floats(buf.as_f32_ref());
    assert_eq!(got[0], 0.0);
    assert_eq!(got[1], 1.0 / (1.0 + (-1.0f32).exp()));
    assert_eq!(got[2], -1.0 / (1.0 + 1.0f32.exp()));
    assert_eq!(got[3], 2.0 / (1.0 + (-2.0f32).exp()));
    // an argument between two keys is answered for the key below it
    let x = f32::from_bits(1.0f32.to_bits() + 0x123);
    let mut buf = CpuTensorBuf::from_vec(bits(&[-x]));
    silu_inplace(&mut cache, &mut buf, &gate).unwrap();
    assert_eq!(floats(buf.as_f32_ref()), [-x / (1.0 + 1.0f32.exp())]);
    // buffers that cannot be written, or hold another format
    let data = bits(&[1.0]);
    let mut lent = CpuTensorBuf::from_slice(&data);
    let e = silu_inplace(&mut cache, &mut lent, &gate).unwrap_err();
    assert_eq!(e.kind, ErrorKind::TensorShape);
    let raw = vec![0u8; 34];
    let mut q = CpuTensorBuf::from_raw_bytes(&raw, GGMLType::Q8_0).unwrap();
    let e = silu_inplace(&mut cache, &mut q, &gate).unwrap_err();
    assert_eq!(e.kind, ErrorKind::TensorDtype);
}

#[test]
fn unary_functions_in_place() {
    // the tanh approximation of the Gaussian error linear unit
    let gelu = |x: u32| {
        let x = f32::from_bits(x);
        (0.5 * x * (1.0 + (0.7978845608 * (x + 0.044715 * x * x * x)).tanh())).to_bits()
    };
    let mut buf = CpuTensorBuf::from_vec(bits(&[0.0, 1.0, -1.0, 3.0]));
    unary_inplace(&mut buf, &gelu).unwrap();
    let got = floats(buf.as_f32_ref());
    assert_eq!(got[0], 0.0);
    assert!((got[1] - 0.841192).abs() < 1e-5);
    assert!((got[2] + 0.158808).abs() < 1e-5);
    assert!((got[3] - 2.996363).abs() < 1e-5);
    let data = bits(&[1.0]);
    let mut lent = CpuTensorBuf::from_slice(&data);
    let e = unary_inplace(&mut lent, &gelu).unwrap_err();
    assert_eq!(e.kind, ErrorKind::TensorShape);
    assert_eq!(lent.as_f32_ref(), &data[..]);
}

#[test]
fn binary_functions_in_place() {
    let op = |f: fn(f32, f32) -> f32| {
        move |x: u32, y: u32| f(f32::from_bits(x), f32::from_bits(y)).to_bits()
    };
    let b = CpuTensorBuf::from_vec(bits(&[2.0, 4.0, 8.0]));
    let mut a = CpuTensorBuf::from_vec(bits(&[1.0, 2.0, 3.0]));
    binary_inplace(&mut a, &b, &op(|x, y| x + y)).unwrap();
    assert_eq!(floats(a.as_f32_ref()), [3.0, 6.0, 11.0]);
    binary_inplace(&mut a, &b, &op(|x, y| x * y)).unwrap();
    assert_eq!(floats(a.as_f32_ref()), [6.0, 24.0, 88.0]);
    binary_inplace(&mut a, &b, &op(|x, y| x / y)).unwrap();
    assert_eq!(floats(a.as_f32_ref()), [3.0, 6.0, 11.0]);
    let short = CpuTensorBuf::from_vec(bits(&[2.0]));
    let e = binary_inplace(&mut a, &short, &op(|x, y| x + y)).unwrap_err();
    assert_eq!(e.kind, ErrorKind::TensorShape);
    let raw = vec![0u8; 34];
    let q = CpuTensorBuf::from_raw_bytes(&raw, GGMLType::Q8_0).unwrap();
    let e = binary_inplace(&mut a, &q, &op(|x, y| x + y)).unwrap_err();
    assert_eq!(e.kind, ErrorKind::TensorDtype);
    assert_eq!(floats(a.as_f32_ref()), [3.0, 6.0, 11.0]);
}
