//! Bit patterns, Rice codes and the weight container.

use npearl::blob::{parse, BlobError, Weight, MAGIC, N_CHANNELS, RAW_K};
use npearl::ieee::f16_to_f32;
use npearl::rice::{rice_decode, unzigzag, BitReader};

/// Write one code the way an encoder would.
fn put_code(bits: &mut Vec<bool>, v: u32, k: u32) {
    let q = v >> k;
    if q >= 24 {
        for _ in 0..24 {
            bits.push(false);
        }
        for i in (0..32).rev() {
            bits.push((v >> i) & 1 == 1);
        }
    } else {
        for _ in 0..q {
            bits.push(false);
        }
        bits.push(true);
        for i in (0..k).rev() {
            bits.push((v >> i) & 1 == 1);
        }
    }
}

fn pack_bits(bits: &[bool]) -> Vec<u8> {
    let mut out: Vec<u8> = Vec::new();
    for (i, b) in bits.iter().enumerate() {
        if i % 8 == 0 {
            out.push(0);
        }
        if *b {
            let last = out.len() - 1;
            out[last] |= 0x80 >> (i % 8);
        }
    }
    out
}

fn zigzag(v: i32) -> u32 {
    ((v << 1) ^ (v >> 31)) as u32
}

fn fan_in(ch: usize) -> usize {
    let widths = [6usize, 32, 32, 32, 48, 64, 80, 16];
    let mut at = 0;
    for l in 0..7 {
        at += widths[l + 1];
        if ch < at {
            return widths[l];
        }
    }
    0
}

/// The parts of a container, to be put together or spoilt.
struct Parts {
    magic: u32,
    channels: Vec<(u16, u8)>,
    halves: Vec<u16>,
    floats: Vec<u32>,
    payload: Vec<u8>,
}

fn put(p: &Parts) -> Vec<u8> {
    let mut d: Vec<u8> = Vec::new();
    d.extend_from_slice(&p.magic.to_le_bytes());
    d.extend_from_slice(&(p.channels.len() as u32).to_le_bytes());
    for (scale, k) in &p.channels {
        d.extend_from_slice(&scale.to_le_bytes());
        d.push(*k);
    }
    d.extend_from_slice(&(p.halves.len() as u32).to_le_bytes());
    for h in &p.halves {
        d.extend_from_slice(&h.to_le_bytes());
    }
    d.extend_from_slice(&(p.floats.len() as u32).to_le_bytes());
    for x in &p.floats {
        d.extend_from_slice(&x.to_le_bytes());
    }
    d.extend_from_slice(&p.payload);
    d
}

/// The value of the weight with which a channel feeds from one of its inputs.
fn steps(ch: usize, i: usize) -> i32 {
    ((ch * 7 + i * 13) % 41) as i32 - 20
}

/// A network in which every tenth channel is raw and the others use all Rice parameters below 8.
fn sample_parts() -> Parts {
    let mut channels = Vec::new();
    let mut halves = Vec::new();
    let mut bits = Vec::new();
    for ch in 0..N_CHANNELS {
        halves.push(0x2000 + ch as u16);
        if ch % 10 == 3 {
            channels.push((0x3c00, RAW_K));
        } else {
            channels.push((0x2400 + ch as u16, (ch % 8) as u8));
        }
    }
    for ch in 0..N_CHANNELS {
        let (_, k) = channels[ch];
        for i in 0..fan_in(ch) {
            if k == RAW_K {
                halves.push(0x3000 + (ch + i) as u16);
            } else {
                put_code(&mut bits, zigzag(steps(ch, i)), k as u32);
            }
        }
    }
    let mut floats = Vec::new();
    for i in 0..12 {
        floats.push((1.0f32 + i as f32).to_bits());
    }
    Parts { magic: MAGIC, channels, halves, floats, payload: pack_bits(&bits) }
}

#[test]
fn zigzag_order() {
    assert_eq!(unzigzag(0), 0);
    assert_eq!(unzigzag(1), -1);
    assert_eq!(unzigzag(2), 1);
    assert_eq!(unzigzag(3), -2);
    assert_eq!(unzigzag(u32::MAX), i32::MIN);
    assert_eq!(unzigzag(u32::MAX - 1), i32::MAX);
}

#[test]
fn zigzag_inverse() {
    for v in [0, 1, -1, 2, -2, 1000, -1000, i32::MAX, i32::MIN] {
        assert_eq!(unzigzag(zigzag(v)), v);
    }
}

#[test]
fn halves_widen_exactly() {
    for h in 0..=u16::MAX {
        let exp = (h >> 10) & 0x1f;
        if exp == 0x1f {
            continue;
        }
        let mant = (h & 0x3ff) as f64;
        let mag = if exp == 0 { mant * 2f64.powi(-24) } else { (1024.0 + mant) * 2f64.powi(exp as i32 - 25) };
        let want = if h & 0x8000 != 0 { -mag } else { mag };
        assert_eq!(f16_to_f32(h), (want as f32).to_bits(), "half {h:#06x}");
    }
}

#[test]
fn known_halves() {
    assert_eq!(f16_to_f32(0x0000), 0.0f32.to_bits());
    assert_eq!(f16_to_f32(0x8000), (-0.0f32).to_bits());
    assert_eq!(f16_to_f32(0x3c00), 1.0f32.to_bits());
    assert_eq!(f16_to_f32(0xc000), (-2.0f32).to_bits());
    assert_eq!(f16_to_f32(0x7bff), 65504.0f32.to_bits());
    assert_eq!(f16_to_f32(0x0001), 2f32.powi(-24).to_bits());
    assert_eq!(f16_to_f32(0x03ff), (1023.0 * 2f32.powi(-24)).to_bits());
}

#[test]
fn bits_come_most_significant_first() {
    let data = [0b1010_0000u8, 0b0000_0001];
    let mut br = BitReader::new(&data);
    assert_eq!(br.remaining(), 16);
    assert_eq!(br.get_bit(), 1);
    assert_eq!(br.get_bit(), 0);
    assert_eq!(br.get_bits(3), 0b100);
    assert_eq!(br.get_bits(0), 0);
    assert_eq!(br.get_bits(11), 1);
    assert_eq!(br.remaining(), 0);
}

#[test]
fn rice_known_codes() {
    // quotient 2, low bits 01 with k = 2, then quotient 0 with k = 0
    let data = [0b0010_1100u8];
    let mut br = BitReader::new(&data);
    assert!(br.has_code(2));
    assert_eq!(rice_decode(&mut br, 2), 9);
    assert!(br.has_code(0));
    assert_eq!(rice_decode(&mut br, 0), 0);
    assert!(!br.has_code(0));
}

#[test]
fn rice_round_trip() {
    let values = [0u32, 1, 2, 3, 7, 8, 23, 24, 25, 100, 1000, 65535, 1 << 20, u32::MAX];
    for k in 0..32 {
        let mut bits = Vec::new();
        for v in values {
            put_code(&mut bits, v, k);
        }
        let data = pack_bits(&bits);
        let mut br = BitReader::new(&data);
        for v in values {
            assert!(br.has_code(k));
            assert_eq!(rice_decode(&mut br, k), v, "k {k}");
        }
    }
}

#[test]
fn rice_escape_is_raw() {
    let mut bits = vec![false; 24];
    for i in (0..32).rev() {
        bits.push((0xDEAD_BEEFu32 >> i) & 1 == 1);
    }
    let data = pack_bits(&bits);
    let mut br = BitReader::new(&data);
    assert_eq!(rice_decode(&mut br, 3), 0xDEAD_BEEF);
    assert_eq!(br.remaining(), 0);
    let mut br = BitReader::new(&data);
    assert!(br.has_code(200));
    assert_eq!(rice_decode(&mut br, 200), 0xDEAD_BEEF);
    // one byte short of the raw value
    let br = BitReader::new(&data[..6]);
    assert!(!br.has_code(3));
}

#[test]
fn container_round_trip() {
    let p = sample_parts();
    let net = parse(&put(&p)).unwrap();
    assert_eq!(net.rows.len(), N_CHANNELS);
    assert_eq!(net.biases, p.halves[..N_CHANNELS].to_vec());
    assert_eq!(net.floats, p.floats);
    for ch in 0..N_CHANNELS {
        assert_eq!(net.rows[ch].len(), fan_in(ch));
        for i in 0..fan_in(ch) {
            let want = if ch % 10 == 3 {
                Weight::Raw(0x3000 + (ch + i) as u16)
            } else {
                Weight::Steps(steps(ch, i), 0x2400 + ch as u16)
            };
            assert_eq!(net.rows[ch][i], want);
        }
    }
}

#[test]
fn container_wrong_magic() {
    let mut p = sample_parts();
    p.magic = MAGIC + 1;
    assert_eq!(parse(&put(&p)).unwrap_err(), BlobError::BadMagic);
    assert_eq!(parse(&[]).unwrap_err(), BlobError::BadMagic);
    assert_eq!(parse(&MAGIC.to_le_bytes()[..3]).unwrap_err(), BlobError::BadMagic);
}

#[test]
fn container_cut_short() {
    let d = put(&sample_parts());
    for n in [4, 7, 8, 100, 919, 923, 924, 1000, 3000, d.len() - 1] {
        assert_eq!(parse(&d[..n]).unwrap_err(), BlobError::Malformed, "length {n}");
    }
    let mut longer = d.clone();
    longer.push(0xAA);
    assert!(parse(&longer).is_ok());
}

#[test]
fn container_channel_count() {
    let mut p = sample_parts();
    p.channels.push((0x3c00, 0));
    assert_eq!(parse(&put(&p)).unwrap_err(), BlobError::Malformed);
    p.channels.truncate(N_CHANNELS - 1);
    assert_eq!(parse(&put(&p)).unwrap_err(), BlobError::Malformed);
}

#[test]
fn container_rice_parameter_too_large() {
    // a plain code has no more low bits than a value
    let mut p = sample_parts();
    p.channels[0].1 = 32;
    assert_eq!(parse(&put(&p)).unwrap_err(), BlobError::Malformed);
}

#[test]
fn container_escapes_do_not_depend_on_the_parameter() {
    let mut p = sample_parts();
    let mut bits = Vec::new();
    for ch in 0..N_CHANNELS {
        if p.channels[ch].1 == RAW_K {
            continue;
        }
        if ch == 0 || ch == 200 {
            p.channels[ch].1 = if ch == 0 { 32 } else { 254 };
        }
        let k = p.channels[ch].1 as u32;
        for i in 0..fan_in(ch) {
            let z = zigzag(steps(ch, i));
            if k >= 32 {
                for _ in 0..24 {
                    bits.push(false);
                }
                for j in (0..32).rev() {
                    bits.push((z >> j) & 1 == 1);
                }
            } else {
                put_code(&mut bits, z, k);
            }
        }
    }
    p.payload = pack_bits(&bits);
    let net = parse(&put(&p)).unwrap();
    assert_eq!(net.rows[0][5], Weight::Steps(steps(0, 5), 0x2400));
    assert_eq!(net.rows[200][40], Weight::Steps(steps(200, 40), 0x2400 + 200));
    assert_eq!(net.rows[303][0], Weight::Raw(0x3000 + 303));
}

#[test]
fn container_infinite_half() {
    let mut p = sample_parts();
    p.channels[5].0 = 0x7c00;
    assert_eq!(parse(&put(&p)).unwrap_err(), BlobError::Malformed);
    let mut p = sample_parts();
    p.halves[17] = 0xfe00;
    assert_eq!(parse(&put(&p)).unwrap_err(), BlobError::Malformed);
}

#[test]
fn container_halves_must_be_used_up() {
    let mut p = sample_parts();
    p.halves.push(0x3c00);
    assert_eq!(parse(&put(&p)).unwrap_err(), BlobError::Malformed);
    p.halves.pop();
    p.halves.pop();
    assert_eq!(parse(&put(&p)).unwrap_err(), BlobError::Malformed);
}

#[test]
fn container_statistics_missing() {
    let mut p = sample_parts();
    p.floats.pop();
    assert_eq!(parse(&put(&p)).unwrap_err(), BlobError::Malformed);
}
