use crabml_core::backends::cpu::buf::api::{decode_words16, decode_words32, Scalars};
use crabml_core::backends::cpu::buf::CpuTensorBuf;
use crabml_core::backends::cpu::primitives::matmul_vec;
use crabml_core::error::ErrorKind;
use crabml_core::gguf::GGMLType;
use half::f16;

fn h(v: f32) -> [u8; 2] {
    f16::from_f32(v).to_bits().to_le_bytes()
}

fn bits(values: &[f32]) -> Vec<u32> {
    values.iter().map(|v| v.to_bits()).collect()
}

fn floats(bits: &[u32]) -> Vec<f32> {
    bits.iter().map(|b| f32::from_bits(*b)).collect()
}

fn deq(q: i8, d: u16) -> u32 {
    (q as f32 * f16::from_bits(d).to_f32()).to_bits()
}

fn deq_min(q: i8, d: u16, m: u16) -> u32 {
    (q as f32 * f16::from_bits(d).to_f32() + f16::from_bits(m).to_f32()).to_bits()
}

fn narrow(x: u32) -> u16 {
    f16::from_f32(f32::from_bits(x)).to_bits()
}

fn header_of(chunk: &[u32], t: GGMLType) -> (u16, u16) {
    let xs: Vec<f32> = chunk.iter().map(|x| f32::from_bits(*x)).collect();
    let max = xs.iter().cloned().fold(f32::MIN, f32::max);
    let min = xs.iter().cloned().fold(f32::MAX, f32::min);
    match t {
        GGMLType::Q4_0 => (f16::from_f32(max / 7.0).to_bits(), 0),
        GGMLType::Q4_1 => (f16::from_f32((max - min) / 15.0).to_bits(), f16::from_f32(min).to_bits()),
        _ => (f16::from_f32(max / 127.0).to_bits(), f16::from_f32(0.0).to_bits()),
    }
}

fn quant(x: u32, d: u16, aux: u16, t: GGMLType) -> i8 {
    let x = f32::from_bits(x);
    let d = f16::from_bits(d).to_f32();
    match t {
        GGMLType::Q4_1 => ((x - f16::from_bits(aux).to_f32()) / d).round() as i8,
        _ => (x / d).round() as i8,
    }
}

fn q8_0_bytes(blocks: usize) -> Vec<u8> {
    let mut raw = Vec::new();
    for b in 0..blocks {
        raw.extend_from_slice(&h(0.5));
        raw.extend((0..32).map(|j| (j + b) as u8));
    }
    raw
}

#[test]
fn words_are_little_endian() {
    assert_eq!(decode_words32(&[0x78, 0x56, 0x34, 0x12, 0xff, 0xff, 0xff, 0xff]), vec![
        0x1234_5678,
        0xffff_ffff
    ]);
    assert_eq!(decode_words16(&[0x34, 0x12, 0x00, 0x80]), vec![0x1234, 0x8000]);
    assert!(decode_words32(&[]).is_empty());
    let values = [1.5f32, -2.0, 0.0];
    let raw: Vec<u8> = values.iter().flat_map(|v| v.to_le_bytes()).collect();
    assert_eq!(floats(&decode_words32(&raw)), values);
}

#[test]
fn from_raw_bytes_counts_elements() {
    let values = [1.5f32, -2.0, 0.25];
    let raw: Vec<u8> = values.iter().flat_map(|v| v.to_le_bytes()).collect();
    let b = CpuTensorBuf::from_raw_bytes(&raw, GGMLType::F32).unwrap();
    assert_eq!(b.dtype(), GGMLType::F32);
    assert_eq!(b.len(), 3);
    assert!(!b.is_owned());
    assert!(!b.is_quantized());
    assert!(!b.is_empty());
    assert_eq!(floats(b.as_f32_ref()), values);
    assert_eq!(floats(b.iter_f32()), values);

    let raw16: Vec<u8> = [1.0f32, 2.0].iter().flat_map(|v| h(*v)).collect();
    let b = CpuTensorBuf::from_raw_bytes(&raw16, GGMLType::F16).unwrap();
    assert_eq!((b.dtype(), b.len()), (GGMLType::F16, 2));

    for (t, size) in [
        (GGMLType::Q8_0, 34),
        (GGMLType::Q8_1, 36),
        (GGMLType::Q4_0, 18),
        (GGMLType::Q4_1, 20),
    ] {
        let raw = vec![0u8; 3 * size];
        let b = CpuTensorBuf::from_raw_bytes(&raw, t).unwrap();
        assert_eq!(b.dtype(), t);
        assert_eq!(b.len(), 96);
        assert!(b.is_quantized());
        assert!(!b.is_owned());
        let e = CpuTensorBuf::from_raw_bytes(&raw[1..], t).unwrap_err();
        assert_eq!(e.kind, ErrorKind::TensorAlignment);
        let b = CpuTensorBuf::from_raw_bytes(&[], t).unwrap();
        assert!(b.is_empty());
    }
    let e = CpuTensorBuf::from_raw_bytes(&raw[..5], GGMLType::F32).unwrap_err();
    assert_eq!(e.kind, ErrorKind::TensorAlignment);
    let e = CpuTensorBuf::from_raw_bytes(&raw16[..3], GGMLType::F16).unwrap_err();
    assert_eq!(e.kind, ErrorKind::TensorAlignment);
}

#[test]
fn companion_format_of_a_buffer() {
    let table = [
        (GGMLType::F32, 4, GGMLType::F32),
        (GGMLType::Q8_0, 34, GGMLType::Q8_0),
        (GGMLType::Q8_1, 36, GGMLType::Q8_1),
        (GGMLType::Q4_0, 18, GGMLType::Q8_0),
        (GGMLType::Q4_1, 20, GGMLType::Q8_1),
    ];
    for (t, size, rhs) in table {
        let raw = vec![0u8; size];
        let b = CpuTensorBuf::from_raw_bytes(&raw, t).unwrap();
        assert_eq!(b.vec_dot_rhs_dtype(), rhs);
    }
}

#[test]
fn owned_buffers_grow_and_clone() {
    let mut b = CpuTensorBuf::from_vec(bits(&[1.0, 2.0]));
    assert!(b.is_owned());
    b.extend(&bits(&[3.0]));
    assert_eq!(floats(b.as_f32_ref()), [1.0, 2.0, 3.0]);
    b.as_f32_mut()[0] = 9.0f32.to_bits();
    b.iter_f32_mut()[1] = 8.0f32.to_bits();
    let c = b.clone();
    assert!(c.is_owned());
    assert_eq!(floats(c.as_f32_ref()), [9.0, 8.0, 3.0]);
    let data = bits(&[4.0, 5.0]);
    let lent = CpuTensorBuf::from_slice(&data);
    assert!(!lent.is_owned());
    assert!(!lent.clone().is_owned());
    assert_eq!(lent.len(), 2);
    let s: Scalars<u32> = Scalars::Borrowed(&data);
    assert!(s.to_owned_copy().is_owned());
    assert_eq!(s.duplicate().as_slice(), &data[..]);
}

#[test]
fn dequantize_targets() {
    let raw = q8_0_bytes(2);
    let b = CpuTensorBuf::from_raw_bytes(&raw, GGMLType::Q8_0).unwrap();
    let f = b.clone().dequantize(GGMLType::F32, &deq, &deq_min).unwrap();
    assert!(f.is_owned());
    assert_eq!(f.dtype(), GGMLType::F32);
    assert_eq!(f.len(), 64);
    let values = floats(f.as_f32_ref());
    assert_eq!(values[0], 0.0);
    assert_eq!(values[31], 15.5);
    assert_eq!(values[32], 0.5);
    assert_eq!(values[63], 16.0);
    // an F32 buffer comes back as an owned copy, for either plain target
    let g = f.clone().dequantize(GGMLType::F16, &deq, &deq_min).unwrap();
    assert_eq!(g.dtype(), GGMLType::F32);
    assert_eq!(floats(g.as_f32_ref()), values);
    // block formats are no targets, and F16 is none for a block source
    for t in [GGMLType::Q8_0, GGMLType::Q8_1, GGMLType::Q4_0, GGMLType::Q4_1] {
        let e = f.clone().dequantize(t, &deq, &deq_min).unwrap_err();
        assert_eq!(e.kind, ErrorKind::TensorDtype);
    }
    let e = b.dequantize(GGMLType::F16, &deq, &deq_min).unwrap_err();
    assert_eq!(e.kind, ErrorKind::TensorDtype);
    // Q4_1 goes through the codec with a minimum
    let mut q41 = h(2.0).to_vec();
    q41.extend_from_slice(&h(1.0));
    q41.extend(std::iter::repeat(0x30u8).take(16));
    let b = CpuTensorBuf::from_raw_bytes(&q41, GGMLType::Q4_1).unwrap();
    let f = b.dequantize(GGMLType::F32, &deq, &deq_min).unwrap();
    let values = floats(f.as_f32_ref());
    assert_eq!(values[0], 1.0);
    assert_eq!(values[16], 7.0);
}

#[test]
fn quantize_targets() {
    let data: Vec<f32> = (0..64).map(|v| v as f32 * 0.5).collect();
    let f = CpuTensorBuf::from_vec(bits(&data));
    for t in [GGMLType::Q8_0, GGMLType::Q8_1, GGMLType::Q4_0, GGMLType::Q4_1] {
        let q = f.quantize(t, &narrow, &header_of, &quant).unwrap();
        assert_eq!(q.dtype(), t);
        assert_eq!(q.len(), 64);
        assert!(!q.is_owned());
        let back = q.dequantize(GGMLType::F32, &deq, &deq_min).unwrap();
        let tolerance = if t.is_packed() { 31.5 / 7.0 } else { 31.5 / 127.0 };
        for (got, want) in floats(back.as_f32_ref()).iter().zip(data.iter()) {
            assert!((got - want).abs() <= tolerance, "{:?}: {} against {}", t, got, want);
        }
    }
    let same = f.quantize(GGMLType::F32, &narrow, &header_of, &quant).unwrap();
    assert!(same.is_owned());
    assert_eq!(floats(same.as_f32_ref()), data);
    let half = f.quantize(GGMLType::F16, &narrow, &header_of, &quant).unwrap();
    assert_eq!((half.dtype(), half.len()), (GGMLType::F16, 64));
    // a ragged tail cannot be put into blocks
    let ragged = CpuTensorBuf::from_vec(bits(&data[..40]));
    let e = ragged.quantize(GGMLType::Q8_0, &narrow, &header_of, &quant).unwrap_err();
    assert_eq!(e.kind, ErrorKind::TensorAlignment);
    assert!(ragged.quantize(GGMLType::F16, &narrow, &header_of, &quant).is_ok());
}

fn step(acc: u32, a: u32, b: u32) -> u32 {
    (f32::from_bits(acc) + f32::from_bits(a) * f32::from_bits(b)).to_bits()
}

fn scale(sum: u32, dot: i32, heads: (u16, u16, u16, u16)) -> u32 {
    let da = f16::from_bits(heads.0).to_f32();
    let db = f16::from_bits(heads.2).to_f32();
    (f32::from_bits(sum) + dot as f32 * da * db).to_bits()
}

#[test]
fn vec_dot_dispatch() {
    let zero = 0.0f32.to_bits();
    let a = CpuTensorBuf::from_vec(bits(&[1.0, 2.0, 3.0, 4.0]));
    let b = CpuTensorBuf::from_vec(bits(&[10.0, 20.0, 30.0]));
    assert_eq!(f32::from_bits(a.vec_dot(1, &b, 0, 3, zero, &step, &scale)), 20.0 + 60.0 + 120.0);
    assert_eq!(f32::from_bits(a.vec_dot(0, &b, 2, 1, zero, &step, &scale)), 30.0);
    assert_eq!(a.vec_dot(4, &b, 3, 0, zero, &step, &scale), zero);
    // dot(a, b) == dot(b, a)
    assert_eq!(
        a.vec_dot(0, &b, 0, 3, zero, &step, &scale),
        b.vec_dot(0, &a, 0, 3, zero, &step, &scale)
    );
    let raw = q8_0_bytes(2);
    let q = CpuTensorBuf::from_raw_bytes(&raw, GGMLType::Q8_0).unwrap();
    // block 1 with block 0: sum of (j + 1) * j for j < 32
    let want: i32 = (0..32).map(|j| (j + 1) * j).sum();
    let got = f32::from_bits(q.vec_dot(32, &q, 0, 32, zero, &step, &scale));
    assert_eq!(got, want as f32 * 0.25);
    let mut q4 = h(1.0).to_vec();
    q4.extend(std::iter::repeat(0x99u8).take(16));
    let a4 = CpuTensorBuf::from_raw_bytes(&q4, GGMLType::Q4_0).unwrap();
    // every stored integer is 9 - 8 = 1
    let want: i32 = (0..32).sum();
    let got = f32::from_bits(a4.vec_dot(0, &q, 0, 32, zero, &step, &scale));
    assert_eq!(got, want as f32 * 0.5);
}

#[test]
fn copy_from_sources() {
    let src = CpuTensorBuf::from_vec(bits(&[1.0, 2.0, 3.0, 4.0, 5.0]));
    let mut dst = CpuTensorBuf::from_vec(bits(&[0.0; 4]));
    dst.copy_from(&src, 1, 2, &deq, &deq_min).unwrap();
    assert_eq!(floats(dst.as_f32_ref()), [2.0, 3.0, 0.0, 0.0]);
    // no more than the destination holds
    dst.copy_from(&src, 0, 100, &deq, &deq_min).unwrap();
    assert_eq!(floats(dst.as_f32_ref()), [1.0, 2.0, 3.0, 4.0]);
    // no more than the source holds from the offset on
    dst.copy_from(&src, 4, 3, &deq, &deq_min).unwrap();
    assert_eq!(floats(dst.as_f32_ref()), [5.0, 2.0, 3.0, 4.0]);
    dst.copy_from(&src, 9, 3, &deq, &deq_min).unwrap();
    assert_eq!(floats(dst.as_f32_ref()), [5.0, 2.0, 3.0, 4.0]);

    let raw = q8_0_bytes(2);
    let q = CpuTensorBuf::from_raw_bytes(&raw, GGMLType::Q8_0).unwrap();
    dst.copy_from(&q, 32, 3, &deq, &deq_min).unwrap();
    assert_eq!(floats(dst.as_f32_ref()), [0.5, 1.0, 1.5, 4.0]);
    let e = dst.copy_from(&q, 5, 3, &deq, &deq_min).unwrap_err();
    assert_eq!(e.kind, ErrorKind::TensorAlignment);
    assert_eq!(floats(dst.as_f32_ref()), [0.5, 1.0, 1.5, 4.0]);
    dst.copy_from(&q, 64, 3, &deq, &deq_min).unwrap();
    assert_eq!(floats(dst.as_f32_ref()), [0.5, 1.0, 1.5, 4.0]);

    let raw16: Vec<u8> = [1.0f32, 2.0].iter().flat_map(|v| h(*v)).collect();
    let half = CpuTensorBuf::from_raw_bytes(&raw16, GGMLType::F16).unwrap();
    let e = dst.copy_from(&half, 0, 1, &deq, &deq_min).unwrap_err();
    assert_eq!(e.kind, ErrorKind::TensorDtype);
}

fn codec_header(chunk: &[u32], t: GGMLType) -> (u16, u16) {
    let xs: Vec<f32> = chunk.iter().map(|x| f32::from_bits(*x)).collect();
    let max = xs.iter().cloned().fold(f32::MIN, f32::max);
    let min = xs.iter().cloned().fold(f32::MAX, f32::min);
    let absmax = xs.iter().cloned().fold(0.0f32, |a, b| a.max(b.abs()));
    match t {
        GGMLType::Q4_0 => (f16::from_f32(absmax / 7.0).to_bits(), 0),
        GGMLType::Q4_1 => (
            f16::from_f32((max - min) / 15.0).to_bits(),
            f16::from_f32(min).to_bits(),
        ),
        GGMLType::Q8_1 => {
            let d = f16::from_f32(absmax / 127.0);
            let sum: f32 = xs.iter().map(|x| (x / d.to_f32()).round()).sum();
            (d.to_bits(), f16::from_f32(sum * d.to_f32()).to_bits())
        }
        _ => (f16::from_f32(absmax / 127.0).to_bits(), 0),
    }
}

fn scale_min(sum: u32, dot: i32, heads: (u16, u16, u16, u16)) -> u32 {
    let da = f16::from_bits(heads.0).to_f32();
    let ma = f16::from_bits(heads.1).to_f32();
    let db = f16::from_bits(heads.2).to_f32();
    let sb = f16::from_bits(heads.3).to_f32();
    (f32::from_bits(sum) + dot as f32 * da * db + ma * sb).to_bits()
}

#[test]
fn identity_weights_return_the_vector_in_every_format() {
    let n = 32;
    let mut id = vec![0.0f32; n * n];
    for i in 0..n {
        id[i * n + i] = 1.0;
    }
    let x: Vec<f32> = (0..n).map(|i| (i as f32 - 10.0) * 0.25).collect();
    let zero = 0.0f32.to_bits();
    let w32 = CpuTensorBuf::from_vec(bits(&id));
    let x32 = CpuTensorBuf::from_vec(bits(&x));
    for i in 0..n {
        let got = f32::from_bits(w32.vec_dot(i * n, &x32, 0, n, zero, &step, &scale));
        assert_eq!(got, x[i]);
    }
    for t in [GGMLType::Q8_0, GGMLType::Q8_1, GGMLType::Q4_0, GGMLType::Q4_1] {
        let w = w32.quantize(t, &narrow, &codec_header, &quant).unwrap();
        let xq = x32.quantize(w.vec_dot_rhs_dtype(), &narrow, &codec_header, &quant).unwrap();
        // the right operand alone is off by at most one step of its grid
        let bound = 5.25 / 127.0 * 1.01;
        for i in 0..n {
            let got = if t == GGMLType::Q4_1 {
                w.vec_dot(i * n, &xq, 0, n, zero, &step, &scale_min)
            } else {
                w.vec_dot(i * n, &xq, 0, n, zero, &step, &scale)
            };
            let got = f32::from_bits(got);
            assert!((got - x[i]).abs() <= bound, "{:?} row {}: {} against {}", t, i, got, x[i]);
        }
    }
}

#[test]
fn matrix_vector_product_in_every_format() {
    let rows = 3;
    let cols = 32;
    let weights: Vec<f32> = (0..rows * cols).map(|v| ((v % 7) as f32 - 3.0) * 0.5).collect();
    let x: Vec<f32> = (0..cols).map(|v| (v % 5) as f32 - 2.0).collect();
    let want: Vec<f32> = (0..rows)
        .map(|i| (0..cols).fold(0.0f32, |acc, k| acc + weights[i * cols + k] * x[k]))
        .collect();
    let zero = 0.0f32.to_bits();
    let w32 = CpuTensorBuf::from_vec(bits(&weights));
    let xb = CpuTensorBuf::from_vec(bits(&x));
    let mut out = CpuTensorBuf::from_vec(bits(&[9.0; 3]));
    matmul_vec(
        &w32, &xb, &mut out, rows, cols, zero, &step, &scale, &narrow, &codec_header, &quant,
    )
    .unwrap();
    assert_eq!(floats(out.as_f32_ref()), want);
    for t in [GGMLType::Q8_0, GGMLType::Q8_1, GGMLType::Q4_0] {
        let w = w32.quantize(t, &narrow, &codec_header, &quant).unwrap();
        let mut out = CpuTensorBuf::from_vec(bits(&[9.0; 3]));
        matmul_vec(
            &w, &xb, &mut out, rows, cols, zero, &step, &scale, &narrow, &codec_header, &quant,
        )
        .unwrap();
        // the same product, formed from the stored values of both operands
        let wv = floats(w.clone().dequantize(GGMLType::F32, &deq, &deq_min).unwrap().as_f32_ref());
        let xq = xb.quantize(w.vec_dot_rhs_dtype(), &narrow, &codec_header, &quant).unwrap();
        let xv = floats(xq.dequantize(GGMLType::F32, &deq, &deq_min).unwrap().as_f32_ref());
        for i in 0..rows {
            let exact = (0..cols).fold(0.0f32, |acc, k| acc + wv[i * cols + k] * xv[k]);
            let got = f32::from_bits(out.as_f32_ref()[i]);
            assert!((got - exact).abs() < 1e-3, "{:?} row {}: {} against {}", t, i, got, exact);
            assert!((got - want[i]).abs() < 3.0);
        }
    }
    // what does not fit
    let mut out = CpuTensorBuf::from_vec(bits(&[9.0; 3]));
    let call = |w: &CpuTensorBuf, x: &CpuTensorBuf, out: &mut CpuTensorBuf, rows, cols| {
        matmul_vec(
            w, x, out, rows, cols, zero, &step, &scale, &narrow, &codec_header, &quant,
        )
    };
    assert_eq!(call(&w32, &xb, &mut out, 4, 32).unwrap_err().kind, ErrorKind::TensorShape);
    assert_eq!(call(&w32, &xb, &mut out, 3, 31).unwrap_err().kind, ErrorKind::TensorShape);
    let q = w32.quantize(GGMLType::Q8_0, &narrow, &codec_header, &quant).unwrap();
    assert_eq!(call(&q, &xb, &mut out, 6, 16).unwrap_err().kind, ErrorKind::TensorAlignment);
    assert_eq!(call(&w32, &q, &mut out, 3, 32).unwrap_err().kind, ErrorKind::TensorDtype);
    let half = w32.quantize(GGMLType::F16, &narrow, &codec_header, &quant).unwrap();
    assert_eq!(call(&half, &xb, &mut out, 3, 32).unwrap_err().kind, ErrorKind::TensorDtype);
    assert_eq!(floats(out.as_f32_ref()), [9.0; 3]);
    let data = bits(&[0.0; 3]);
    let mut lent = CpuTensorBuf::from_slice(&data);
    assert_eq!(call(&w32, &xb, &mut lent, 3, 32).unwrap_err().kind, ErrorKind::TensorShape);
}

#[test]
fn hand_made_buffers_can_be_checked() {
    let raw = vec![0u8; 36];
    let made = CpuTensorBuf::from_raw_bytes(&raw, GGMLType::Q8_1).unwrap();
    assert!(made.is_consistent());
    let odd = CpuTensorBuf::Q4_0(crabml_core::backends::cpu::buf::QuantBuf::from_bytes(
        &raw,
        GGMLType::Q8_1,
    ));
    assert!(!odd.is_consistent());
    assert!(CpuTensorBuf::from_vec(vec![1, 2]).is_consistent());
}
