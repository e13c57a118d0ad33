use xenon_tunnel::bits::{deobfuscate, obfuscate, reverse_bits};
use xenon_tunnel::codec::{open_record, seal_record, split_frame, FrameSplit, frame_ciphertext, CodecError};
use xenon_tunnel::net::{read_msg, recv_size, send_size, write_msg, MessageRead, SizeRead};

#[test]
fn bit_reversal() {
    assert_eq!(reverse_bits(0b0000_0001), 0b1000_0000);
    assert_eq!(reverse_bits(0b1100_1010), 0b0101_0011);
    for b in 0..=255u8 {
        assert_eq!(reverse_bits(b), b.reverse_bits());
        for k in [0u8, 42, 255] {
            assert_eq!(obfuscate(b, k), (b ^ k).reverse_bits());
            assert_eq!(deobfuscate(obfuscate(b, k), k), b);
        }
    }
}

#[test]
fn size_header_values() {
    // 300 is 0xac 0x02 in LEB128; each byte is XORed with 42 and bit-reversed.
    let h = send_size(300).unwrap();
    assert_eq!(h, vec![(0xacu8 ^ 42).reverse_bits(), (0x02u8 ^ 42).reverse_bits()]);
    assert_eq!(send_size(65535).unwrap().len(), 3);
    assert_eq!(send_size(65536), None);
}

#[test]
fn size_header_round_trip() {
    for size in [1usize, 127, 128, 300, 16383, 16384, 65535] {
        let h = send_size(size).unwrap();
        for m in 0..h.len() {
            assert_eq!(recv_size(&h[..m]), SizeRead::NeedMore);
        }
        assert_eq!(recv_size(&h), SizeRead::Size(size, h.len()));
        let mut more = h.clone();
        more.extend_from_slice(&[1, 2, 3]);
        assert_eq!(recv_size(&more), SizeRead::Size(size, h.len()));
    }
}

#[test]
fn size_header_rejects_zero_and_oversize() {
    assert_eq!(recv_size(&send_size(0).unwrap()), SizeRead::Invalid);
    // 65536 as LEB128 is 0x80 0x80 0x04.
    let h: Vec<u8> = [0x80u8, 0x80, 0x04].iter().map(|b| obfuscate(*b, 42)).collect();
    assert_eq!(recv_size(&h), SizeRead::Invalid);
    // Eight bytes that all ask for more.
    let h: Vec<u8> = [0x80u8; 8].iter().map(|b| obfuscate(*b, 42)).collect();
    assert_eq!(recv_size(&h[..7]), SizeRead::NeedMore);
    assert_eq!(recv_size(&h), SizeRead::Invalid);
}

#[test]
fn message_round_trip() {
    let msg: Vec<u8> = (0..200u8).collect();
    let w = write_msg(&msg).unwrap();
    assert_eq!(w.len(), 2 + 200);
    assert_eq!(read_msg(&w), MessageRead::Message(msg.clone(), w.len()));
    assert_eq!(read_msg(&w[..w.len() - 1]), MessageRead::NeedMore);
    assert_eq!(read_msg(&w[..1]), MessageRead::NeedMore);
    assert_eq!(write_msg(&vec![0u8; 65536]), None);
}

#[test]
fn record_round_trip() {
    for p in [vec![7u8], vec![b'a'; 500], (0..=255u8).cycle().take(4000).collect::<Vec<u8>>()] {
        let r = seal_record(&p);
        assert_eq!(open_record(&r), Ok(p.clone()));
    }
    let r = seal_record(&vec![b'x'; 1000]);
    // The declared length comes first: 1000 is 0xe8 0x07.
    assert_eq!(&r[..2], &[0xe8, 0x07]);
    assert!(r.len() < 100);
}

#[test]
fn record_rejects_bad_length() {
    let mut r = seal_record(&vec![b'x'; 1000]);
    r[0] = 0xe9;
    assert_eq!(open_record(&r), Err(CodecError::InvalidRecord));
    assert_eq!(open_record(&[0x80]), Err(CodecError::InvalidRecord));
    assert_eq!(open_record(&[0x80, 0x80, 0x04, 0x00]), Err(CodecError::InvalidRecord));
}

#[test]
fn frame_split_cases() {
    let ct: Vec<u8> = (0..300u16).map(|i| i as u8).collect();
    let mut f = Vec::new();
    frame_ciphertext(&ct, &mut f);
    assert_eq!(f.len(), 302);
    assert_eq!(split_frame(&f), FrameSplit::Frame(2, 300));
    for m in 0..f.len() {
        assert_eq!(split_frame(&f[..m]), FrameSplit::NeedMore);
    }
    assert_eq!(split_frame(&[0x00]), FrameSplit::Invalid);
    // 65535 and 65536 as LEB128.
    assert_eq!(split_frame(&[0xff, 0xff, 0x03]), FrameSplit::Invalid);
    assert_eq!(split_frame(&[0x80, 0x80, 0x04]), FrameSplit::Invalid);
    assert_eq!(split_frame(&[0xfe, 0xff, 0x03]), FrameSplit::NeedMore);
    // A value past 64 bits.
    assert_eq!(split_frame(&[0xff; 10]), FrameSplit::Invalid);
}
