use crabml_core::backends::cpu::buf::buf_quant::QuantBuf;
use crabml_core::gguf::GGMLType;
use half::f16;

fn h(v: f32) -> [u8; 2] {
    f16::from_f32(v).to_bits().to_le_bytes()
}

fn deq(q: i8, d: u16) -> u32 {
    (q as f32 * f16::from_bits(d).to_f32()).to_bits()
}

fn deq_min(q: i8, d: u16, m: u16) -> u32 {
    (q as f32 * f16::from_bits(d).to_f32() + f16::from_bits(m).to_f32()).to_bits()
}

fn floats(bits: Vec<u32>) -> Vec<f32> {
    bits.into_iter().map(f32::from_bits).collect()
}

fn bits(values: &[f32]) -> Vec<u32> {
    values.iter().map(|v| v.to_bits()).collect()
}

fn q4_0_block() -> Vec<u8> {
    let mut raw = h(2.0).to_vec();
    // byte k: low half = element k, high half = element k + 16
    for k in 0..16u8 {
        raw.push(k | ((15 - k) << 4));
    }
    raw
}

#[test]
fn block_sizes() {
    assert_eq!(GGMLType::F32.block_bytes(), 4);
    assert_eq!(GGMLType::F16.block_bytes(), 2);
    assert_eq!(GGMLType::Q8_0.block_bytes(), 34);
    assert_eq!(GGMLType::Q8_1.block_bytes(), 36);
    assert_eq!(GGMLType::Q4_0.block_bytes(), 18);
    assert_eq!(GGMLType::Q4_1.block_bytes(), 20);
    for t in [GGMLType::Q8_0, GGMLType::Q8_1, GGMLType::Q4_0, GGMLType::Q4_1] {
        assert!(t.is_quantized());
        assert_eq!(t.block_elems(), 32);
        let quants = if t.is_packed() { 16 } else { 32 };
        assert_eq!(t.block_bytes(), 2 * t.header_words() + quants);
    }
    for t in [GGMLType::F32, GGMLType::F16] {
        assert!(!t.is_quantized());
        assert_eq!(t.block_elems(), 1);
        assert_eq!(t.header_words(), 0);
    }
}

#[test]
fn companion_formats() {
    assert_eq!(GGMLType::F32.vec_dot_rhs(), GGMLType::F32);
    assert_eq!(GGMLType::F16.vec_dot_rhs(), GGMLType::F16);
    assert_eq!(GGMLType::Q8_0.vec_dot_rhs(), GGMLType::Q8_0);
    assert_eq!(GGMLType::Q8_1.vec_dot_rhs(), GGMLType::Q8_1);
    assert_eq!(GGMLType::Q4_0.vec_dot_rhs(), GGMLType::Q8_0);
    assert_eq!(GGMLType::Q4_1.vec_dot_rhs(), GGMLType::Q8_1);
}

#[test]
fn q4_0_layout() {
    let raw = q4_0_block();
    let b = QuantBuf::from_bytes(&raw, GGMLType::Q4_0);
    assert_eq!(b.len(), 32);
    assert_eq!(b.num_blocks(), 1);
    assert_eq!(b.dtype(), GGMLType::Q4_0);
    assert_eq!(f16::from_bits(b.scale(0)).to_f32(), 2.0);
    assert_eq!(b.aux(0), 0);
    for k in 0..16 {
        assert_eq!(b.quant(k), k as i8 - 8);
        assert_eq!(b.quant(16 + k), 15 - k as i8 - 8);
    }
    let values = floats(b.dequantize(0, &deq, &deq_min));
    assert_eq!(values.len(), 32);
    assert_eq!(values[0], -16.0);
    assert_eq!(values[15], 14.0);
    assert_eq!(values[16], 14.0);
    assert_eq!(values[31], -16.0);
    assert_eq!(floats(b.dequantize(30, &deq, &deq_min)), vec![-14.0, -16.0]);
    assert!(b.dequantize(32, &deq, &deq_min).is_empty());
    assert!(b.dequantize(40, &deq, &deq_min).is_empty());
}

#[test]
fn q4_1_layout() {
    let mut raw = h(0.5).to_vec();
    raw.extend_from_slice(&h(-1.0));
    for k in 0..16u8 {
        raw.push(k | ((15 - k) << 4));
    }
    let b = QuantBuf::from_bytes(&raw, GGMLType::Q4_1);
    assert_eq!(b.len(), 32);
    assert_eq!(f16::from_bits(b.scale(0)).to_f32(), 0.5);
    assert_eq!(f16::from_bits(b.aux(0)).to_f32(), -1.0);
    assert_eq!(b.header(0, 1), b.aux(0));
    for k in 0..16 {
        assert_eq!(b.quant(k), k as i8);
        assert_eq!(b.quant(16 + k), 15 - k as i8);
    }
    let values = floats(b.dequantize_range(14, 18, &deq, &deq_min));
    assert_eq!(values, vec![6.0, 6.5, 6.5, 6.0]);
}

#[test]
fn q8_1_layout() {
    let mut raw = Vec::new();
    for block in 0..2u8 {
        raw.extend_from_slice(&h(0.25));
        raw.extend_from_slice(&h(8.0 + block as f32));
        for j in 0..32u8 {
            raw.push((j as i8 - 16 - block as i8) as u8);
        }
    }
    let b = QuantBuf::from_bytes(&raw, GGMLType::Q8_1);
    assert_eq!(b.len(), 64);
    assert_eq!(b.num_blocks(), 2);
    assert_eq!(f16::from_bits(b.aux(1)).to_f32(), 9.0);
    assert_eq!(b.quant(0), -16);
    assert_eq!(b.quant(31), 15);
    assert_eq!(b.quant(32), -17);
    let values = floats(b.dequantize(62, &deq, &deq_min));
    assert_eq!(values, vec![13.0 * 0.25, 14.0 * 0.25]);
    let owned = QuantBuf::from_vec(raw.clone(), GGMLType::Q8_1);
    assert!(owned.is_owned() && !b.is_owned());
    assert_eq!(owned.clone().raw(), &raw[..]);
}

fn header_of(chunk: &[u32], t: GGMLType) -> (u16, u16) {
    let xs: Vec<f32> = chunk.iter().map(|x| f32::from_bits(*x)).collect();
    let max = xs.iter().cloned().fold(f32::MIN, f32::max);
    let min = xs.iter().cloned().fold(f32::MAX, f32::min);
    let absmax = xs.iter().cloned().fold(0.0f32, |a, b| if b.abs() > a.abs() { b } else { a });
    match t {
        GGMLType::Q8_0 => (f16::from_f32(absmax.abs() / 127.0).to_bits(), 0),
        GGMLType::Q8_1 => {
            let d = absmax.abs() / 127.0;
            let sum: f32 = xs.iter().map(|x| (x / d).round()).sum();
            (f16::from_f32(d).to_bits(), f16::from_f32(sum * d).to_bits())
        }
        GGMLType::Q4_0 => (f16::from_f32(absmax / -8.0).to_bits(), 0),
        _ => (f16::from_f32((max - min) / 15.0).to_bits(), f16::from_f32(min).to_bits()),
    }
}

fn quant(x: u32, d: u16, aux: u16, t: GGMLType) -> i8 {
    let x = f32::from_bits(x);
    let d = f16::from_bits(d).to_f32();
    match t {
        GGMLType::Q4_1 => ((x - f16::from_bits(aux).to_f32()) / d).round() as i8,
        _ => (x / d).round() as i8,
    }
}

#[test]
fn quantize_round_trips_within_scale() {
    let data: Vec<f32> = (0..64).map(|v| (v as f32 - 20.0) * 0.37).collect();
    for t in [GGMLType::Q8_0, GGMLType::Q8_1, GGMLType::Q4_0, GGMLType::Q4_1] {
        let b: QuantBuf = QuantBuf::quantize(&bits(&data), t, &header_of, &quant);
        assert!(b.is_owned());
        assert_eq!(b.dtype(), t);
        assert_eq!(b.len(), 64);
        assert_eq!(b.raw().len(), 2 * t.block_bytes());
        let back = floats(b.dequantize(0, &deq, &deq_min));
        for block in 0..2 {
            let d = f16::from_bits(b.scale(block)).to_f32().abs();
            for j in 0..32 {
                let i = block * 32 + j;
                assert!(
                    (back[i] - data[i]).abs() <= d * 1.01,
                    "{:?} element {}: {} against {}",
                    t,
                    i,
                    back[i],
                    data[i]
                );
            }
        }
    }
}

#[test]
fn quantize_clamps_to_the_grid() {
    let data = bits(&vec![1.0f32; 32]);
    // a codec that asks for integers off the four-bit grids
    let header = |_c: &[u32], _t: GGMLType| (f16::from_f32(1.0).to_bits(), 0u16);
    let wild = |x: u32, _d: u16, _a: u16, _t: GGMLType| if x == 0 { 0i8 } else { 100i8 };
    let b: QuantBuf = QuantBuf::quantize(&data, GGMLType::Q4_0, &header, &wild);
    assert_eq!(b.quant(0), 7);
    assert_eq!(b.raw()[2], 0xff);
    let b: QuantBuf = QuantBuf::quantize(&data, GGMLType::Q4_1, &header, &wild);
    assert_eq!(b.quant(31), 15);
    let low = |_x: u32, _d: u16, _a: u16, _t: GGMLType| -100i8;
    let b: QuantBuf = QuantBuf::quantize(&data, GGMLType::Q4_0, &header, &low);
    assert_eq!(b.quant(3), -8);
    assert_eq!(b.raw()[2], 0x00);
    let b: QuantBuf = QuantBuf::quantize(&data, GGMLType::Q4_1, &header, &low);
    assert_eq!(b.quant(3), 0);
    let b: QuantBuf = QuantBuf::quantize(&data, GGMLType::Q8_0, &header, &low);
    assert_eq!(b.quant(3), -100);
    assert_eq!(b.raw()[2 + 3], 156);
    // nothing to quantize
    let b: QuantBuf = QuantBuf::quantize(&[], GGMLType::Q8_1, &header, &low);
    assert_eq!(b.len(), 0);
}

#[test]
fn block_pair_dots() {
    let q4 = q4_0_block();
    let a = QuantBuf::from_bytes(&q4, GGMLType::Q4_0);
    let mut q8 = h(0.5).to_vec();
    q8.extend((0..32).map(|j| (j as i8 - 16) as u8));
    let b = QuantBuf::from_bytes(&q8, GGMLType::Q8_0);
    let mut want = 0i32;
    for j in 0..32 {
        want += a.quant(j) as i32 * b.quant(j) as i32;
    }
    assert_eq!(a.block_int_dot(0, &b, 0), want);
    assert_eq!(want, 8);
    let scale = |sum: u32, dot: i32, heads: (u16, u16, u16, u16)| {
        let da = f16::from_bits(heads.0).to_f32();
        let db = f16::from_bits(heads.2).to_f32();
        let ma = f16::from_bits(heads.1).to_f32();
        let sb = f16::from_bits(heads.3).to_f32();
        (f32::from_bits(sum) + dot as f32 * da * db + ma * sb).to_bits()
    };
    let zero = 0.0f32.to_bits();
    let got = f32::from_bits(a.vec_dot(0, &b, 0, 32, zero, &scale));
    assert_eq!(got, 8.0 * 2.0 * 0.5);
    assert_eq!(a.vec_dot(0, &b, 0, 0, zero, &scale), zero);
    // two blocks of Q4_1 against two blocks of Q8_1, second pair only
    let mut q41 = Vec::new();
    let mut q81 = Vec::new();
    for block in 0..2u8 {
        q41.extend_from_slice(&h(1.0));
        q41.extend_from_slice(&h(block as f32));
        q41.extend(std::iter::repeat(0x21u8).take(16));
        q81.extend_from_slice(&h(2.0));
        q81.extend_from_slice(&h(3.0));
        q81.extend(std::iter::repeat(block + 1).take(32));
    }
    let a = QuantBuf::from_bytes(&q41, GGMLType::Q4_1);
    let b = QuantBuf::from_bytes(&q81, GGMLType::Q8_1);
    // 16 ones and 16 twos against 32 twos: 96
    assert_eq!(a.block_int_dot(1, &b, 1), 96);
    let got = f32::from_bits(a.vec_dot(32, &b, 32, 32, zero, &scale));
    assert_eq!(got, 96.0 * 1.0 * 2.0 + 1.0 * 3.0);
    let got = f32::from_bits(a.vec_dot(0, &b, 0, 64, zero, &scale));
    assert_eq!(got, 48.0 * 2.0 + 0.0 + 96.0 * 2.0 + 3.0);
}
