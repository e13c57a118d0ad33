use xenon_tunnel::magic::{encode_magic, read_magic, u128_from_le, u128_to_le, write_magic, FRESHNESS_NANOS, MAGIC_INITIALIZER};

const NOW: u128 = 1_700_000_000_000_000_000;

fn keys(n: usize) -> (Vec<u8>, Vec<u8>) {
    let ek: Vec<u8> = (0..16u8).map(|i| i.wrapping_mul(37).wrapping_add(5)).collect();
    let mk: Vec<u8> = (0..n).map(|i| (i as u8).wrapping_mul(91).wrapping_add(13)).collect();
    (ek, mk)
}

#[test]
fn le_bytes_round_trip() {
    let v: u128 = 0x0102_0304_0506_0708_090a_0b0c_0d0e_0f10;
    let b = u128_to_le(v);
    assert_eq!(b, v.to_le_bytes().to_vec());
    assert_eq!(u128_from_le(&b), v);
}

#[test]
fn magic_accepts_fresh_timestamps() {
    let token = MAGIC_INITIALIZER.as_bytes();
    let (ek, mk) = keys(token.len());
    for age in [0u128, 1, 2_500_000_000, FRESHNESS_NANOS] {
        let wire = encode_magic(token, NOW - age, &ek, &mk);
        assert_eq!(wire.len(), 32 + 2 * token.len());
        assert!(read_magic(token, &wire, NOW), "age {}", age);
    }
}

#[test]
fn magic_with_random_keys_round_trips() {
    let token = MAGIC_INITIALIZER.as_bytes();
    let wire = write_magic(token, NOW);
    assert!(read_magic(token, &wire, NOW + 1_000_000_000));
    let other = write_magic(token, NOW);
    assert_ne!(wire, other);
}

#[test]
fn magic_rejects_stale_timestamp() {
    let token = MAGIC_INITIALIZER.as_bytes();
    let (ek, mk) = keys(token.len());
    let wire = encode_magic(token, NOW - 6_000_000_000, &ek, &mk);
    assert!(!read_magic(token, &wire, NOW));
    let wire = encode_magic(token, NOW - FRESHNESS_NANOS - 1, &ek, &mk);
    assert!(!read_magic(token, &wire, NOW));
}

#[test]
fn magic_rejects_any_tampered_byte() {
    let token = MAGIC_INITIALIZER.as_bytes();
    let (ek, mk) = keys(token.len());
    let wire = encode_magic(token, NOW, &ek, &mk);
    for pos in 0..wire.len() {
        for bit in 0..8 {
            let mut t = wire.clone();
            t[pos] ^= 1 << bit;
            assert!(!read_magic(token, &t, NOW), "byte {} bit {}", pos, bit);
        }
    }
}

#[test]
fn magic_rejects_wrong_token_and_length() {
    let token = MAGIC_INITIALIZER.as_bytes();
    let (ek, mk) = keys(token.len());
    let wire = encode_magic(token, NOW, &ek, &mk);
    let mut other = token.to_vec();
    other[0] ^= 0xff;
    assert!(!read_magic(&other, &wire, NOW));
    assert!(!read_magic(token, &wire[..wire.len() - 1], NOW));
    assert!(!read_magic(token, &[], NOW));
}

#[test]
fn magic_wire_layout() {
    let token = b"AB";
    let ek: Vec<u8> = (1..=16).collect();
    let mk = vec![0x0f, 0xf0];
    let epoch: u128 = 0x0102;
    let wire = encode_magic(token, epoch, &ek, &mk);
    let e = epoch.to_le_bytes();
    // The epoch key, reversed, each byte under 42.
    for i in 0..16 {
        assert_eq!(wire[i], (ek[15 - i] ^ 42).reverse_bits());
    }
    for i in 0..16 {
        assert_eq!(wire[16 + i], (e[15 - i] ^ ek[15 - i]).reverse_bits());
    }
    assert_eq!(wire[32], (mk[1] ^ e[1]).reverse_bits());
    assert_eq!(wire[33], (mk[0] ^ e[0]).reverse_bits());
    assert_eq!(wire[34], (b'A' ^ mk[0]).reverse_bits());
    assert_eq!(wire[35], (b'B' ^ mk[1]).reverse_bits());
}
