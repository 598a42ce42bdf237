use hpcrypt_mldsa::packing::{pack_bits, unpack_bits};
use hpcrypt_mldsa::poly::Poly;
use hpcrypt_mldsa::serialize::{
    decode_poly_eta, decode_poly_t0, decode_poly_t1, decode_poly_z, encode_poly_eta,
    encode_poly_t0, encode_poly_t1, encode_poly_w1, encode_poly_z,
};

#[test]
fn pack_unpack_roundtrip_various_widths() {
    for &c in &[3usize, 4, 6, 10, 13, 18, 20] {
        let vals: Vec<u32> = (0..256u32).map(|i| (i * 2654435761u32) & ((1u32 << c) - 1)).collect();
        let bytes = pack_bits(&vals, c);
        assert_eq!(bytes.len(), 256 * c / 8);
        let back = unpack_bits(&bytes, c, 256);
        assert_eq!(back, vals);
    }
}

#[test]
fn pack_bits_exact_bytes() {
    // 10-bit fields 1 and 2: bits 1 | 2 << 10 in little-endian order.
    let bytes = pack_bits(&[1, 2, 0, 0], 10);
    assert_eq!(bytes, vec![0x01, 0x08, 0x00, 0x00, 0x00]);
}

#[test]
fn poly_encodings_roundtrip() {
    let mut t1 = Poly::new();
    let mut t0 = Poly::new();
    let mut s = Poly::new();
    let mut z = Poly::new();
    for i in 0..256 {
        t1.coeffs[i] = (i as i32 * 37) % 1024;
        t0.coeffs[i] = (i as i32 * 71) % 8192 - 4095;
        s.coeffs[i] = (i as i32 % 9) - 4;
        z.coeffs[i] = (i as i32 * 4099) % 262143 - 131071;
    }
    assert_eq!(decode_poly_t1(&encode_poly_t1(&t1)), t1);
    assert_eq!(decode_poly_t0(&encode_poly_t0(&t0)), t0);
    assert_eq!(decode_poly_eta(&encode_poly_eta(&s, 4), 4), s);
    assert_eq!(decode_poly_z(&encode_poly_z(&z, 131072), 131072), z);
    let mut w1 = Poly::new();
    for i in 0..256 {
        w1.coeffs[i] = (i as i32) % 44;
    }
    assert_eq!(encode_poly_w1(&w1, 6).len(), 192);
}
