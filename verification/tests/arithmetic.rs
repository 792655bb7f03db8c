use crabml_core::error::{ErrorKind, Result};
use crabml_core::tensor::arithmetic::{
    tensor_add_inplace, tensor_batch_matmul, tensor_matmul_2d, tensor_matmul_specialized_2d_1d,
    tensor_rms_norm_inplace, tensor_rope_inplace, tensor_silu_inplace, tensor_softmax_inplace,
};
use crabml_core::tensor::{CpuTensor, TensorStrider};
use crabml_core::tensor::cpu::buf::CpuTensorBuf;

fn fma(acc: f32, a: f32, b: f32) -> f32 {
    acc + a * b
}

fn rms_norm(v: Vec<f32>, eps: f32) -> Vec<f32> {
    let n = v.len();
    let x = CpuTensor::new(v, vec![n]).unwrap();
    let out = tensor_rms_norm_inplace(
        x,
        eps,
        0.0,
        |s: f32, n: f32| s + n * n,
        |s: f32, len: usize, eps: f32| ((s / len as f32) + eps).sqrt(),
        |n: f32, rms: f32| n / rms,
    )
    .unwrap();
    out.iter().to_vec()
}

#[test]
fn test_rms_norm() -> Result<()> {
    let v = rms_norm(vec![1.0, 2.0, 3.0, 4.0, 5.0, 6.0], 1e-5);
    assert_eq!(
        v,
        vec![0.2567762, 0.5135524, 0.77032864, 1.0271049, 1.2838811, 1.5406573]
    );
    let v = rms_norm(vec![1.0, 1.0, 1.0, 1.0, 1.0, 1.0], 1e-5);
    assert_eq!(
        v,
        vec![0.999995, 0.999995, 0.999995, 0.999995, 0.999995, 0.999995]
    );
    Ok(())
}

#[test]
fn test_matmul() -> Result<()> {
    // 1, 2, 3
    // 4, 5, 6
    let w = CpuTensor::new(vec![1.0, 2.0, 3.0, 4.0, 5.0, 6.0], vec![2, 3])?;
    // 1
    // 2
    // 3
    let b = CpuTensor::new(vec![1.0, 2.0, 3.0], vec![3])?;
    // 1*1 + 2*2 + 3*3 = 1 + 4 + 9
    // 1*4 + 2*5 + 3*6 = 4 + 10 + 18
    let out = tensor_matmul_2d(&w, &b, 0.0, fma)?;
    assert_eq!(out.iter().to_vec(), &[14.0, 32.0]);

    let w = CpuTensor::new(vec![1.0, 2.0, 3.0, 4.0, 5.0, 6.0], vec![2, 3])?;
    // 1, 2, 3, 4
    // 5, 6, 7, 8
    // 9, 10, 11, 12
    let b = CpuTensor::new(
        vec![
            1.0, 2.0, 3.0, 4.0, 5.0, 6.0, 7.0, 8.0, 9.0, 10.0, 11.0, 12.0,
        ],
        vec![3, 4],
    )?;
    let out = tensor_matmul_2d(&w, &b, 0.0, fma)?;
    assert_eq!(
        out.iter().to_vec(),
        &[38.0, 44.0, 50.0, 56.0, 83.0, 98.0, 113.0, 128.0]
    );
    assert_eq!(out.shape(), &vec![2, 4]);

    Ok(())
}

#[test]
fn test_batch_matmul() -> Result<()> {
    let w = CpuTensor::new(
        vec![0.0, 1.0, 2.0, 3.0, 4.0, 5.0, 6.0, 7.0, 8.0, 9.0, 10.0, 11.0],
        vec![2, 2, 3],
    )?;
    let b = CpuTensor::new(vec![1.0, 1.0, 1.0, 1.0, 1.0, 1.0], vec![2, 3, 1])?;

    let o = tensor_batch_matmul(&w, &b, 0.0, fma)?;
    assert_eq!(o.shape(), &vec![2, 2, 1]);
    assert_eq!(o.iter().to_vec(), vec![3.0, 12.0, 21.0, 30.0]);
    Ok(())
}

#[test]
fn matmul_error_names_both_shapes() {
    let w = CpuTensor::new(vec![1.0f32, 2.0, 3.0, 4.0, 5.0, 6.0], vec![2, 3]).unwrap();
    let x = CpuTensor::new(vec![1.0f32, 2.0], vec![2]).unwrap();
    let e = tensor_matmul_2d(&w, &x, 0.0, fma).unwrap_err();
    assert_eq!(e.kind, ErrorKind::TensorShape);
    assert_eq!(e.left, vec![2, 3]);
    assert_eq!(e.right, vec![2]);
    // wrong ranks and a strided left operand name both shapes too
    let x3 = CpuTensor::new(vec![1.0f32; 6], vec![1, 2, 3]).unwrap();
    let e = tensor_matmul_2d(&w, &x3, 0.0, fma).unwrap_err();
    assert_eq!((e.left, e.right), (vec![2, 3], vec![1, 2, 3]));
    let e = tensor_matmul_2d(&x3, &w, 0.0, fma).unwrap_err();
    assert_eq!((e.left, e.right), (vec![1, 2, 3], vec![2, 3]));
    // with fitting inner extents there is no error
    let x = CpuTensor::new(vec![1.0f32; 3], vec![3]).unwrap();
    assert!(tensor_matmul_2d(&w, &x, 0.0, fma).is_ok());
}

#[test]
fn errors_name_the_operands() {
    let a = CpuTensor::new(vec![1.0f32; 6], vec![2, 3]).unwrap();
    let b = CpuTensor::new(vec![1.0f32; 6], vec![3, 2]).unwrap();
    let e = tensor_add_inplace(a, &b, |x: f32, y: f32| x + y).unwrap_err();
    assert_eq!((e.left, e.right), (vec![2, 3], vec![3, 2]));
    let w = CpuTensor::new(vec![1.0f32; 12], vec![3, 2, 2]).unwrap();
    let x = CpuTensor::new(vec![1.0f32; 8], vec![2, 2, 2]).unwrap();
    let e = tensor_batch_matmul(&w, &x, 0.0, fma).unwrap_err();
    assert_eq!((e.left, e.right), (vec![3, 2, 2], vec![2, 2, 2]));
    let m = CpuTensor::new(vec![1.0f32; 4], vec![2, 2]).unwrap();
    let e = tensor_silu_inplace(m, |n: f32| n).map(|_| ()).err();
    assert!(e.is_none());
    let data = [1.0f32; 4];
    let strider = TensorStrider::new(vec![2, 2]).unwrap();
    let lent = CpuTensor::with_strider(CpuTensorBuf::from_slice(&data), strider).unwrap();
    let e = tensor_silu_inplace(lent, |n: f32| n).unwrap_err();
    assert_eq!((e.left, e.right), (vec![2, 2], vec![]));
    let e = CpuTensor::new(vec![1.0f32; 5], vec![2, 3]).unwrap_err();
    assert_eq!((e.left, e.right), (vec![2, 3], vec![]));
}

#[test]
fn matmul_rejects_mismatched_inner_extent() {
    let w = CpuTensor::new(vec![1.0f32; 6], vec![2, 3]).unwrap();
    let x = CpuTensor::new(vec![1.0f32; 4], vec![4]).unwrap();
    let e = tensor_matmul_2d(&w, &x, 0.0, fma).unwrap_err();
    assert_eq!(e.kind, ErrorKind::TensorShape);
    let x3 = CpuTensor::new(vec![1.0f32; 6], vec![1, 2, 3]).unwrap();
    assert!(tensor_matmul_2d(&w, &x3, 0.0, fma).is_err());
    assert!(tensor_matmul_2d(&x3, &w, 0.0, fma).is_err());
}

#[test]
fn matmul_rejects_strided_weights() {
    // a 2x3 view of a 3x2 buffer, read column by column
    let strider = TensorStrider::with_strides(vec![2, 3], vec![1, 2]).unwrap();
    let w = CpuTensor::with_strider(CpuTensorBuf::from_vec(vec![1.0f32; 6]), strider).unwrap();
    let x = CpuTensor::new(vec![1.0f32; 3], vec![3]).unwrap();
    let e = tensor_matmul_2d(&w, &x, 0.0, fma).unwrap_err();
    assert_eq!(e.kind, ErrorKind::TensorShape);
}

#[test]
fn matmul_reads_strided_right_operand() {
    let w = CpuTensor::new(vec![1.0f32, 2.0, 3.0, 4.0, 5.0, 6.0], vec![2, 3]).unwrap();
    // x is a (3, 2) view of a (2, 3) buffer: x[k][j] = buf[j * 3 + k]
    let strider = TensorStrider::with_strides(vec![3, 2], vec![1, 3]).unwrap();
    let x = CpuTensor::with_strider(
        CpuTensorBuf::from_vec(vec![1.0f32, 2.0, 3.0, 10.0, 20.0, 30.0]),
        strider,
    )
    .unwrap();
    let out = tensor_matmul_2d(&w, &x, 0.0, fma).unwrap();
    assert_eq!(out.shape(), &vec![2, 2]);
    assert_eq!(out.iter().to_vec(), vec![14.0, 140.0, 32.0, 320.0]);
    // a strided vector: every second element of a buffer
    let strider = TensorStrider::with_strides(vec![3], vec![2]).unwrap();
    let v = CpuTensor::with_strider(
        CpuTensorBuf::from_vec(vec![1.0f32, 0.0, 2.0, 0.0, 3.0]),
        strider,
    )
    .unwrap();
    let out = tensor_matmul_2d(&w, &v, 0.0, fma).unwrap();
    assert_eq!(out.iter().to_vec(), vec![14.0, 32.0]);
}

#[test]
fn specialized_matmul_matches_general() {
    let w = CpuTensor::new(vec![1.0f32, 2.0, 3.0, 4.0, 5.0, 6.0], vec![2, 3]).unwrap();
    let x = CpuTensor::new(vec![1.0f32, 2.0, 3.0], vec![3]).unwrap();
    let out = tensor_matmul_specialized_2d_1d(&w, &x, 0.0, fma).unwrap();
    assert_eq!(out.iter().to_vec(), vec![14.0, 32.0]);
    assert_eq!(out.shape(), &vec![2]);
}

#[test]
fn batch_matmul_broadcasts_right_operand() {
    // a_batch = 4, b_batch = 2: batches 2 and 3 of the output use batches 0 and 1 of b again
    let w = CpuTensor::new((0..24).map(|v| v as f32).collect(), vec![4, 2, 3]).unwrap();
    let b = CpuTensor::new(vec![1.0f32, 1.0, 1.0, 2.0, 2.0, 2.0], vec![2, 3, 1]).unwrap();
    let o = tensor_batch_matmul(&w, &b, 0.0, fma).unwrap();
    assert_eq!(o.shape(), &vec![4, 2, 1]);
    assert_eq!(
        o.iter().to_vec(),
        vec![3.0, 12.0, 42.0, 60.0, 39.0, 48.0, 114.0, 132.0]
    );
    // a batch count that is no multiple is rejected
    let w3 = CpuTensor::new(vec![0.0f32; 18], vec![3, 2, 3]).unwrap();
    let e = tensor_batch_matmul(&w3, &b, 0.0, fma).unwrap_err();
    assert_eq!(e.kind, ErrorKind::TensorShape);
}

#[test]
fn batch_matmul_of_vectors() {
    let w = CpuTensor::new((0..12).map(|v| v as f32).collect(), vec![2, 2, 3]).unwrap();
    let b = CpuTensor::new(vec![1.0f32, 1.0, 1.0, 1.0, 0.0, 0.0], vec![2, 3]).unwrap();
    let o = tensor_batch_matmul(&w, &b, 0.0, fma).unwrap();
    assert_eq!(o.shape(), &vec![2, 2]);
    assert_eq!(o.iter().to_vec(), vec![3.0, 12.0, 6.0, 9.0]);
}

#[test]
fn test_rope() {
    let freq_base = 10000.0f32;
    let freq_scale = 1.0f32;
    let rotate = move |v0: f32, v1: f32, head_dim: usize, head_size: usize, pos: usize| {
        let freq = freq_base / freq_scale.powf(head_dim as f32 / head_size as f32);
        let val = pos as f32 * freq;
        let fcr = val.cos();
        let fci = val.sin();
        (v0 * fcr - v1 * fci, v0 * fci + v1 * fcr)
    };
    let q = CpuTensor::new(vec![1.0f32, 0.0], vec![1, 2]).unwrap();
    let k = CpuTensor::new(vec![1.0f32, 0.0], vec![1, 2]).unwrap();
    let (q, k) = tensor_rope_inplace(q, k, 1, rotate).unwrap();
    let expect = [10000.0f32.cos(), 10000.0f32.sin()];
    for (got, want) in q.iter().iter().zip(expect.iter()) {
        assert!((got - want).abs() < 1e-5);
    }
    for (got, want) in k.iter().iter().zip(expect.iter()) {
        assert!((got - want).abs() < 1e-5);
    }
}

#[test]
fn rope_rejects_odd_element_counts() {
    let rotate = |a: f32, b: f32, _d: usize, _h: usize, _p: usize| (a, b);
    let q = CpuTensor::new(vec![1.0f32; 4], vec![2, 2]).unwrap();
    let k = CpuTensor::new(vec![1.0f32; 3], vec![1, 3]).unwrap();
    let e = tensor_rope_inplace(q, k, 0, rotate).unwrap_err();
    assert_eq!(e.kind, ErrorKind::TensorShape);
    assert_eq!((e.left, e.right), (vec![2, 2], vec![1, 3]));
    let q = CpuTensor::new(vec![1.0f32; 3], vec![3, 1]).unwrap();
    let k = CpuTensor::new(vec![1.0f32; 2], vec![1, 2]).unwrap();
    assert!(tensor_rope_inplace(q, k, 0, rotate).is_err());
    // more keys than queries is no reason to reject
    let q = CpuTensor::new(vec![1.0f32; 2], vec![1, 2]).unwrap();
    let k = CpuTensor::new(vec![1.0f32; 4], vec![2, 2]).unwrap();
    assert!(tensor_rope_inplace(q, k, 0, rotate).is_ok());
    let q = CpuTensor::new(vec![1.0f32; 4], vec![4]).unwrap();
    let k = CpuTensor::new(vec![1.0f32; 4], vec![2, 2]).unwrap();
    assert!(tensor_rope_inplace(q, k, 0, rotate).is_err());
}

#[test]
fn rope_rotates_every_pair_of_both_tensors() {
    // rotation by a quarter turn: (a, b) -> (-b, a)
    let rotate = |a: f32, b: f32, _d: usize, _h: usize, _p: usize| (-b, a);
    let q = CpuTensor::new(vec![1.0f32, 2.0, 3.0, 4.0], vec![2, 2]).unwrap();
    let k = CpuTensor::new(vec![5.0f32, 6.0], vec![1, 2]).unwrap();
    let (q, k) = tensor_rope_inplace(q, k, 3, rotate).unwrap();
    assert_eq!(q.iter().to_vec(), vec![-2.0, 1.0, -4.0, 3.0]);
    assert_eq!(k.iter().to_vec(), vec![-6.0, 5.0]);
    // fewer query heads than key heads
    let q = CpuTensor::new(vec![1.0f32, 2.0], vec![1, 2]).unwrap();
    let k = CpuTensor::new(vec![5.0f32, 6.0, 7.0, 8.0], vec![2, 2]).unwrap();
    let (q, k) = tensor_rope_inplace(q, k, 3, rotate).unwrap();
    assert_eq!(q.iter().to_vec(), vec![-2.0, 1.0]);
    assert_eq!(k.iter().to_vec(), vec![-6.0, 5.0, -8.0, 7.0]);
}

#[test]
fn rope_rotates_query_heads_beyond_the_key_heads() {
    let rotate = |v0: f32, v1: f32, head_dim: usize, head_size: usize, pos: usize| {
        let freq = 10000.0f32 / 1.0f32.powf(head_dim as f32 / head_size as f32);
        let val = pos as f32 * freq;
        (v0 * val.cos() - v1 * val.sin(), v0 * val.sin() + v1 * val.cos())
    };
    let q = CpuTensor::new(vec![1.0f32, 0.0, 1.0, 0.0], vec![2, 2]).unwrap();
    let k = CpuTensor::new(vec![1.0f32, 0.0], vec![1, 2]).unwrap();
    let (q, k) = tensor_rope_inplace(q, k, 1, rotate).unwrap();
    let (c, s) = (10000.0f32.cos(), 10000.0f32.sin());
    for (got, want) in q.iter().iter().zip([c, s, c, s].iter()) {
        assert!((got - want).abs() < 1e-5);
    }
    for (got, want) in k.iter().iter().zip([c, s].iter()) {
        assert!((got - want).abs() < 1e-5);
    }
}

#[test]
fn rope_uses_the_coordinate_within_the_head() {
    // record the coordinate and the head size the rotation is given
    let rotate = |_a: f32, _b: f32, d: usize, h: usize, p: usize| (d as f32, (h * 100 + p) as f32);
    let q = CpuTensor::new(vec![0.0f32; 8], vec![2, 4]).unwrap();
    let k = CpuTensor::new(vec![0.0f32; 4], vec![1, 4]).unwrap();
    let (q, k) = tensor_rope_inplace(q, k, 7, rotate).unwrap();
    assert_eq!(q.iter().to_vec(), vec![0.0, 407.0, 2.0, 407.0, 0.0, 407.0, 2.0, 407.0]);
    assert_eq!(k.iter().to_vec(), vec![0.0, 407.0, 2.0, 407.0]);
}

fn softmax(v: Vec<f32>, limit: usize) -> Vec<f32> {
    let n = v.len();
    let mut t = CpuTensor::new(v, vec![n]).unwrap();
    tensor_softmax_inplace(
        &mut t,
        limit,
        f32::NAN,
        0.0,
        |a: f32, b: f32| a.max(b),
        |v: f32, max: f32| (v - max).exp(),
        |a: f32, b: f32| a + b,
        |v: f32, sum: f32| v / sum,
    )
    .unwrap();
    t.iter().to_vec()
}

#[test]
fn softmax_sums_to_one_below_limit() {
    let out = softmax(vec![1.0, 2.0, 3.0, 100.0], 3);
    let sum: f32 = out[..3].iter().sum();
    assert!((sum - 1.0).abs() < 1e-6);
    assert!(out[0] < out[1] && out[1] < out[2]);
    assert!(out[..3].iter().all(|v| *v >= 0.0 && *v <= 1.0));
    // beyond the limit nothing is touched
    assert_eq!(out[3], 100.0);
    let e0 = (1.0f32 - 3.0).exp();
    let e1 = (2.0f32 - 3.0).exp();
    let e2 = 1.0f32;
    let s = e0 + e1 + e2;
    assert_eq!(out[..3], [e0 / s, e1 / s, e2 / s]);
}

#[test]
fn softmax_is_shift_invariant() {
    let a = softmax(vec![0.5, 1.5, -2.0], 3);
    let b = softmax(vec![10.5, 11.5, 8.0], 3);
    for (x, y) in a.iter().zip(b.iter()) {
        assert!((x - y).abs() < 1e-6);
    }
}

#[test]
fn softmax_limit_beyond_length_covers_all() {
    let out = softmax(vec![0.0, 0.0], 10);
    assert_eq!(out, vec![0.5, 0.5]);
    let out = softmax(vec![7.0, 9.0], 0);
    assert_eq!(out, vec![7.0, 9.0]);
}

#[test]
fn softmax_rejects_matrix_and_borrowed() {
    let mut t = CpuTensor::new(vec![1.0f32; 4], vec![2, 2]).unwrap();
    let id = |a: f32, _b: f32| a;
    let r = tensor_softmax_inplace(&mut t, 2, 0.0, 0.0, id, id, id, id);
    assert_eq!(r.unwrap_err().kind, ErrorKind::TensorShape);
    assert_eq!(t.iter().to_vec(), vec![1.0; 4]);
    let data = [1.0f32, 2.0];
    let strider = TensorStrider::new(vec![2]).unwrap();
    let mut t = CpuTensor::with_strider(CpuTensorBuf::from_slice(&data), strider).unwrap();
    assert!(tensor_softmax_inplace(&mut t, 2, 0.0, 0.0, id, id, id, id).is_err());
}

#[test]
fn add_and_silu_in_place() {
    let a = CpuTensor::new(vec![1.0f32, 2.0, 3.0], vec![3]).unwrap();
    let b = CpuTensor::new(vec![10.0f32, 20.0, 30.0], vec![3]).unwrap();
    let a = tensor_add_inplace(a, &b, |x: f32, y: f32| x + y).unwrap();
    assert_eq!(a.iter().to_vec(), vec![11.0, 22.0, 33.0]);
    let c = CpuTensor::new(vec![1.0f32; 4], vec![4]).unwrap();
    assert_eq!(
        tensor_add_inplace(a, &c, |x: f32, y: f32| x + y).unwrap_err().kind,
        ErrorKind::TensorShape
    );
    let x = CpuTensor::new(vec![0.0f32, 1.0, -1.0], vec![3]).unwrap();
    let x = tensor_silu_inplace(x, |n: f32| n / (1.0 + (-n).exp())).unwrap();
    let got = x.iter().to_vec();
    assert_eq!(got[0], 0.0);
    assert!((got[1] - 0.7310586).abs() < 1e-6);
    assert!((got[2] + 0.26894143).abs() < 1e-6);
}

#[test]
fn rms_norm_rejects_matrix() {
    let x = CpuTensor::new(vec![1.0f32; 4], vec![2, 2]).unwrap();
    let r = tensor_rms_norm_inplace(
        x,
        0.0,
        0.0,
        |s: f32, n: f32| s + n * n,
        |s: f32, _len: usize, _eps: f32| s,
        |n: f32, rms: f32| n / rms,
    );
    assert_eq!(r.unwrap_err().kind, ErrorKind::TensorShape);
}

#[test]
fn mul_in_place_reads_any_layout() {
    let a = CpuTensor::new(vec![1.0f32, 2.0, 3.0, 4.0, 5.0, 6.0], vec![2, 3]).unwrap();
    let b = CpuTensor::new(vec![2.0f32; 6], vec![2, 3]).unwrap();
    let a = crabml_core::tensor::arithmetic::tensor_mul_inplace(a, &b, |x: f32, y: f32| x * y)
        .unwrap();
    assert_eq!(a.iter().to_vec(), vec![2.0, 4.0, 6.0, 8.0, 10.0, 12.0]);
    // b as a (2, 3) view of a (3, 2) buffer
    let strider = TensorStrider::with_strides(vec![2, 3], vec![1, 2]).unwrap();
    let b = CpuTensor::with_strider(
        CpuTensorBuf::from_vec(vec![1.0f32, 10.0, 2.0, 20.0, 3.0, 30.0]),
        strider,
    )
    .unwrap();
    let a = crabml_core::tensor::arithmetic::tensor_mul_inplace(a, &b, |x: f32, y: f32| x * y)
        .unwrap();
    assert_eq!(a.iter().to_vec(), vec![2.0, 8.0, 18.0, 80.0, 200.0, 360.0]);
    let c = CpuTensor::new(vec![1.0f32; 6], vec![3, 2]).unwrap();
    let e = crabml_core::tensor::arithmetic::tensor_mul_inplace(a, &c, |x: f32, y: f32| x * y)
        .unwrap_err();
    assert_eq!(e.kind, ErrorKind::TensorShape);
}

#[test]
fn matmul_with_identity_returns_the_vector() {
    let n = 5;
    let mut id = vec![0.0f32; n * n];
    for i in 0..n {
        id[i * n + i] = 1.0;
    }
    let w = CpuTensor::new(id, vec![n, n]).unwrap();
    let values = vec![0.5f32, -3.0, 7.25, 1e-3, 42.0];
    let x = CpuTensor::new(values.clone(), vec![n]).unwrap();
    let out = tensor_matmul_2d(&w, &x, 0.0, fma).unwrap();
    assert_eq!(out.iter().to_vec(), values);
    // one column at a time
    let x2 = CpuTensor::new(values.clone(), vec![n, 1]).unwrap();
    let out = tensor_matmul_2d(&w, &x2, 0.0, fma).unwrap();
    assert_eq!(out.shape(), &vec![n, 1]);
    assert_eq!(out.iter().to_vec(), values);
}

#[test]
fn dot_products_do_not_depend_on_the_order_of_the_operands() {
    let a = CpuTensor::new(vec![0.1f32, 0.7, -1.3], vec![1, 3]).unwrap();
    let b = CpuTensor::new(vec![2.5f32, -0.4, 0.9], vec![1, 3]).unwrap();
    let av = CpuTensor::new(vec![0.1f32, 0.7, -1.3], vec![3]).unwrap();
    let bv = CpuTensor::new(vec![2.5f32, -0.4, 0.9], vec![3]).unwrap();
    let ab = tensor_matmul_2d(&a, &bv, 0.0, fma).unwrap();
    let ba = tensor_matmul_2d(&b, &av, 0.0, fma).unwrap();
    assert_eq!(ab.iter(), ba.iter());
}

#[test]
fn batch_broadcast_is_a_concatenation() {
    // a_batch = 4 = 2 * b_batch: the product is that of the first two batches of A followed by
    // that of the last two, each against all of B
    let a: Vec<f32> = (0..24).map(|v| v as f32 * 0.5).collect();
    let b = CpuTensor::new((0..12).map(|v| 1.0 - v as f32).collect(), vec![2, 3, 2]).unwrap();
    let whole = CpuTensor::new(a.clone(), vec![4, 2, 3]).unwrap();
    let first = CpuTensor::new(a[..12].to_vec(), vec![2, 2, 3]).unwrap();
    let second = CpuTensor::new(a[12..].to_vec(), vec![2, 2, 3]).unwrap();
    let out = tensor_batch_matmul(&whole, &b, 0.0, fma).unwrap();
    let mut want = tensor_batch_matmul(&first, &b, 0.0, fma).unwrap().iter().to_vec();
    want.extend_from_slice(tensor_batch_matmul(&second, &b, 0.0, fma).unwrap().iter());
    assert_eq!(out.shape(), &vec![4, 2, 2]);
    assert_eq!(out.iter().to_vec(), want);
}

#[test]
fn rope_forth_and_back() {
    let turn = |sign: f32| {
        move |v0: f32, v1: f32, head_dim: usize, head_size: usize, pos: usize| {
            let freq = 10000.0f32 / 1.0f32.powf(head_dim as f32 / head_size as f32);
            let val = sign * pos as f32 * freq * 1e-4;
            (v0 * val.cos() - v1 * val.sin(), v0 * val.sin() + v1 * val.cos())
        }
    };
    let values = vec![1.0f32, 2.0, -3.0, 0.5];
    let q = CpuTensor::new(values.clone(), vec![1, 4]).unwrap();
    let k = CpuTensor::new(values.clone(), vec![1, 4]).unwrap();
    let (q, k) = tensor_rope_inplace(q, k, 3, turn(1.0)).unwrap();
    assert!((q.iter()[0] - values[0]).abs() > 0.1);
    let (q, k) = tensor_rope_inplace(q, k, 3, turn(-1.0)).unwrap();
    for i in 0..4 {
        assert!((q.iter()[i] - values[i]).abs() < 1e-5);
        assert!((k.iter()[i] - values[i]).abs() < 1e-5);
    }
}

#[test]
fn numeric_edge_cases_pass_through() {
    // a NaN among the scores ends up in every probability
    let out = softmax(vec![1.0, f32::NAN, 2.0], 3);
    assert!(out.iter().all(|v| v.is_nan()));
    // beyond the limit it is not even read
    let out = softmax(vec![1.0, 2.0, f32::NAN], 2);
    assert!(!out[0].is_nan() && !out[1].is_nan() && out[2].is_nan());
    // a vector of zeros without an epsilon has no root mean square to divide by
    let out = rms_norm(vec![0.0, 0.0], 0.0);
    assert!(out.iter().all(|v| v.is_nan()));
    let out = rms_norm(vec![0.0, 0.0], 1e-5);
    assert_eq!(out, vec![0.0, 0.0]);
}
