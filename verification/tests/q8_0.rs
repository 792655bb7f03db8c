use crabml_core::backends::cpu::buf::buf_q8_0::{
    block_int_dot, vec_dot_blocks, vec_dot_q8_0_f16, vec_dot_q8_0_q8_0,
};
use crabml_core::backends::cpu::buf::{BlockQ8_0, QuantBufQ8_0};
use half::f16;

fn deq(q: i8, d: u16) -> u32 {
    (q as f32 * f16::from_bits(d).to_f32()).to_bits()
}

fn floats(bits: Vec<u32>) -> Vec<f32> {
    bits.into_iter().map(f32::from_bits).collect()
}

fn bits(values: &[f32]) -> Vec<u32> {
    values.iter().map(|v| v.to_bits()).collect()
}

fn scale_of(chunk: &[u32]) -> u16 {
    let mut max = f32::MIN;
    for x in chunk {
        let x = f32::from_bits(*x);
        if x > max {
            max = x;
        }
    }
    f16::from_f32(max / 127.0).to_bits()
}

fn quant(x: u32, d: u16) -> i8 {
    (f32::from_bits(x) / f16::from_bits(d).to_f32()).round() as i8
}

fn two_blocks() -> [u8; 68] {
    let mut buf: [u8; 68] = [0x1; 68];
    let d = f16::from_f32(3.0).to_bits().to_le_bytes();
    buf[0] = d[0];
    buf[1] = d[1];
    buf[2] = 2;
    buf[3] = 3;
    buf[4] = 4;
    buf[2 + 31] = 7;
    buf[34] = d[0];
    buf[35] = d[1];
    buf[66] = 9;
    buf[67] = 9;
    buf
}

#[test]
fn test_q80_block() {
    let buf = two_blocks();

    let blocks = BlockQ8_0::from_bytes(&buf[0..34]);
    assert_eq!(f16::from_bits(blocks[0].d).to_f32(), 3.0);
    assert_eq!(blocks[0].qs, [
        2, 3, 4, 1, 1, 1, 1, 1, 1, 1, 1, 1, 1, 1, 1, 1, 1, 1, 1, 1, 1, 1, 1, 1, 1, 1, 1, 1, 1,
        1, 1, 7
    ]);

    let bf = QuantBufQ8_0::from_bytes(&buf);
    assert_eq!(bf.len(), 64);
    assert_eq!(floats(bf.iter_range(0, bf.len(), 1, deq).into_vec()), vec![
        6.0, 9.0, 12.0, 3.0, 3.0, 3.0, 3.0, 3.0, 3.0, 3.0, 3.0, 3.0, 3.0, 3.0, 3.0, 3.0, 3.0,
        3.0, 3.0, 3.0, 3.0, 3.0, 3.0, 3.0, 3.0, 3.0, 3.0, 3.0, 3.0, 3.0, 3.0, 21.0, 3.0, 3.0,
        3.0, 3.0, 3.0, 3.0, 3.0, 3.0, 3.0, 3.0, 3.0, 3.0, 3.0, 3.0, 3.0, 3.0, 3.0, 3.0, 3.0,
        3.0, 3.0, 3.0, 3.0, 3.0, 3.0, 3.0, 3.0, 3.0, 3.0, 3.0, 27.0, 27.0
    ]);
    assert_eq!(bf.iter_range(10, bf.len(), 1, deq).into_vec().len(), 54);
}

#[test]
fn q80_block_round_trip_within_scale() {
    let mut chunk = vec![1.0f32; 32];
    chunk[0] = 2.0;
    chunk[1] = 3.0;
    chunk[2] = 4.0;
    chunk[31] = 7.0;
    let blocks = BlockQ8_0::quantize(&bits(&chunk), &scale_of, &quant);
    assert_eq!(blocks.len(), 1);
    let d = f16::from_bits(blocks[0].d).to_f32();
    assert!((d - 7.0 / 127.0).abs() < 1e-4);
    assert_eq!(blocks[0].qs[31], 127);
    let mut out = [0u32; 32];
    blocks[0].dequantize(&mut out, &deq);
    for (got, want) in out.iter().zip(chunk.iter()) {
        assert!((f32::from_bits(*got) - want).abs() <= d);
    }
}

#[test]
fn q80_dequantize_leaves_tail_alone() {
    let blocks = BlockQ8_0::from_bytes(&two_blocks());
    let mut out = vec![77u32; 40];
    blocks[1].dequantize(&mut out, &deq);
    assert_eq!(f32::from_bits(out[0]), 3.0);
    assert_eq!(f32::from_bits(out[30]), 27.0);
    assert_eq!(f32::from_bits(out[31]), 27.0);
    assert_eq!(&out[32..], &[77u32; 8]);
}

#[test]
fn q80_bytes_round_trip() {
    let buf = two_blocks();
    let blocks = BlockQ8_0::from_bytes(&buf);
    assert_eq!(blocks.len(), 2);
    assert_eq!(BlockQ8_0::to_bytes(&blocks), buf.to_vec());
    // negative quants are stored in two's complement
    let mut b = blocks[0];
    b.qs[5] = -1;
    b.qs[6] = -128;
    let raw = BlockQ8_0::to_bytes(&[b]);
    assert_eq!(raw[2 + 5], 0xff);
    assert_eq!(raw[2 + 6], 0x80);
    let back = BlockQ8_0::from_bytes(&raw);
    assert_eq!(back[0].qs, b.qs);
    assert_eq!(back[0].d, b.d);
}

#[test]
fn q80_buffer_blocks_and_ranges() {
    let buf = two_blocks();
    let bf = QuantBufQ8_0::from_bytes(&buf);
    assert!(!bf.is_owned());
    assert_eq!(bf.blocks().len(), 2);
    let row = bf.blocks_range(32, 64);
    assert_eq!(row.len(), 1);
    assert_eq!(row[0].qs[31], 9);
    assert_eq!(bf.blocks_range(0, 31).len(), 0);
    let empty = QuantBufQ8_0::from_bytes(&[]);
    assert_eq!(empty.len(), 0);
    let owned = QuantBufQ8_0::from_vec(buf.to_vec());
    assert!(owned.is_owned());
    assert_eq!(owned.clone().raw(), &buf[..]);
}

#[test]
fn q80_walk_with_step() {
    let buf = two_blocks();
    let bf = QuantBufQ8_0::from_bytes(&buf);
    // every 31st element: 0, 31, 62
    let got = floats(bf.iter_range(0, 64, 31, deq).into_vec());
    assert_eq!(got, vec![6.0, 21.0, 27.0]);
    // an empty range
    assert!(bf.iter_range(5, 5, 1, deq).into_vec().is_empty());
    assert!(bf.iter_range(9, 3, 0, deq).into_vec().is_empty());
    // one element at a time
    let mut it = bf.iter_range(30, 33, 1, deq);
    assert_eq!(it.next().map(f32::from_bits), Some(3.0));
    assert_eq!(it.next().map(f32::from_bits), Some(21.0));
    assert_eq!(it.next().map(f32::from_bits), Some(3.0));
    assert_eq!(it.next(), None);
    assert_eq!(it.next(), None);
    // from an offset to the end
    assert_eq!(bf.dequantize(60, deq).into_vec().len(), 4);
}

#[test]
fn q80_quantize_buffer() {
    let data: Vec<f32> = (0..64).map(|v| v as f32).collect();
    let bf = QuantBufQ8_0::quantize(&bits(&data), &scale_of, &quant);
    assert!(bf.is_owned());
    assert_eq!(bf.len(), 64);
    assert_eq!(bf.raw().len(), 68);
    let back = floats(bf.iter_range(0, 64, 1, deq).into_vec());
    let d0 = 31.0 / 127.0;
    let d1 = 63.0 / 127.0;
    for i in 0..32 {
        assert!((back[i] - data[i]).abs() <= d0);
        assert!((back[32 + i] - data[32 + i]).abs() <= d1);
    }
}

#[test]
fn q80_integer_block_dot() {
    let blocks = BlockQ8_0::from_bytes(&two_blocks());
    // 2*1 + 3*1 + 4*1 + 27*1 + 1*9 + 7*9
    assert_eq!(block_int_dot(&blocks[0], &blocks[1]), 2 + 3 + 4 + 27 + 9 + 63);
    let mut lo = blocks[0];
    lo.qs = [-128; 32];
    assert_eq!(block_int_dot(&lo, &lo), 32 * 128 * 128);
    let mut hi = blocks[0];
    hi.qs = [127; 32];
    assert_eq!(block_int_dot(&lo, &hi), -32 * 128 * 127);
}

#[test]
fn q80_dot_q80() {
    let blocks = BlockQ8_0::from_bytes(&two_blocks());
    let scale = |sum: u32, dot: i32, d: (u16, u16)| {
        (f32::from_bits(sum)
            + dot as f32 * f16::from_bits(d.0).to_f32() * f16::from_bits(d.1).to_f32())
        .to_bits()
    };
    let zero = 0.0f32.to_bits();
    // block 0 with itself: 4 + 9 + 16 + 28 + 49 = 106, block 1 with itself: 30 + 81 + 81 = 192
    let got = f32::from_bits(vec_dot_q8_0_q8_0(&blocks, &blocks, zero, &scale));
    assert_eq!(got, (106.0 + 192.0) * 9.0);
    // the shorter operand decides
    let got = f32::from_bits(vec_dot_q8_0_q8_0(&blocks, &blocks[..1], zero, &scale));
    assert_eq!(got, 106.0 * 9.0);
    assert_eq!(vec_dot_q8_0_q8_0(&blocks[..0], &blocks, zero, &scale), zero);
}

#[test]
fn q80_dot_plain_scalars() {
    let buf = two_blocks();
    let blocks = BlockQ8_0::from_bytes(&buf);
    let zero = 0.0f32.to_bits();
    let scale = |sum: u32, block: u32, d: u16| {
        (f32::from_bits(sum) + f32::from_bits(block) * f16::from_bits(d).to_f32()).to_bits()
    };
    // against half-precision ones
    let lane16 = |acc: u32, q: i8, x: u16| {
        (f32::from_bits(acc) + q as f32 * f16::from_bits(x).to_f32()).to_bits()
    };
    let ones16 = vec![f16::from_f32(1.0).to_bits(); 64];
    let got = f32::from_bits(vec_dot_q8_0_f16(&blocks, &ones16, zero, &lane16, &scale));
    assert_eq!(got, (2.0 + 3.0 + 4.0 + 28.0 + 7.0) * 3.0 + (30.0 + 18.0) * 3.0);
    // more scalars than blocks: the extra chunk takes no part
    let got = f32::from_bits(vec_dot_q8_0_f16(&blocks[..1], &ones16, zero, &lane16, &scale));
    assert_eq!(got, 44.0 * 3.0);
    // against single-precision scalars, from an offset
    let lane32 = |acc: u32, q: i8, x: u32| {
        (f32::from_bits(acc) + q as f32 * f32::from_bits(x)).to_bits()
    };
    let bf = QuantBufQ8_0::from_bytes(&buf);
    let x = bits(&vec![2.0f32; 32]);
    let got = f32::from_bits(bf.vec_dot_f32(32, &x, zero, &lane32, &scale));
    assert_eq!(got, 48.0 * 2.0 * 3.0);
    let x = bits(&vec![0.5f32; 64]);
    let got = f32::from_bits(bf.vec_dot_f32(0, &x, zero, &lane32, &scale));
    assert_eq!(got, (44.0 + 48.0) * 0.5 * 3.0);
    let got = f32::from_bits(vec_dot_blocks(&blocks, &x[..32], zero, &lane32, &scale));
    assert_eq!(got, 44.0 * 0.5 * 3.0);
}
