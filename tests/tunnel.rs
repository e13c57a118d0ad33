use xenon_tunnel::codec::{CodecError, Decoded, SnowfallStream};
use xenon_tunnel::exchange::{generate_keypair, handshake_payload, ExchangeError, KeyExchange, Role, Step, LIVENESS_TAG};
use xenon_tunnel::net::{read_msg, MessageRead};

fn body(wire: &[u8]) -> Vec<u8> {
    match read_msg(wire) {
        MessageRead::Message(m, used) => {
            assert_eq!(used, wire.len());
            m
        }
        other => panic!("not a whole message: {:?}", other),
    }
}

fn exchange(expected_responder_key: Option<Vec<u8>>) -> Result<(SnowfallStream, SnowfallStream), ExchangeError> {
    let ki = generate_keypair().unwrap();
    let kr = generate_keypair().unwrap();
    let expected = expected_responder_key.unwrap_or(kr.public.clone());
    let mut i = KeyExchange::initiator(&ki.private, &expected)?;
    let mut r = KeyExchange::responder(&kr.private)?;
    assert_eq!(i.next_step(), Step::Send);
    assert_eq!(r.next_step(), Step::Receive);
    let m1 = i.write_message()?;
    r.read_message(&body(&m1))?;
    assert_eq!(r.next_step(), Step::Send);
    let m2 = r.write_message()?;
    i.read_message(&body(&m2))?;
    let m3 = i.write_message()?;
    r.read_message(&body(&m3))?;
    assert_eq!(i.next_step(), Step::Done);
    assert_eq!(r.next_step(), Step::Done);
    Ok((i.into_transport()?, r.into_transport()?))
}

fn decode_all(rx: &mut SnowfallStream, buf: &mut Vec<u8>) -> Result<Vec<Vec<u8>>, CodecError> {
    let mut out = Vec::new();
    loop {
        match rx.decode(buf)? {
            Decoded::Message(m, used) => {
                buf.drain(..used);
                out.push(m);
            }
            Decoded::NeedMore => return Ok(out),
        }
    }
}

#[test]
fn keypair_lengths() {
    let k = generate_keypair().unwrap();
    assert_eq!(k.public.len(), 32);
    assert_eq!(k.private.len(), 32);
}

#[test]
fn frame_round_trip_idempotent() {
    let (mut tx, mut rx) = exchange(None).unwrap();
    let mut seed: u32 = 12345;
    let random: Vec<u8> = (0..60000)
        .map(|_| {
            seed = seed.wrapping_mul(1103515245).wrapping_add(12345);
            (seed >> 16) as u8
        })
        .collect();
    let payloads = vec![vec![1u8], vec![0u8; 65535], vec![b'z'; 1000], random[..1000].to_vec(), random.clone()];
    for p in payloads {
        let mut wire = Vec::new();
        tx.encode(&p, &mut wire).unwrap();
        let got = decode_all(&mut rx, &mut wire).unwrap();
        assert_eq!(got, vec![p]);
        assert!(wire.is_empty());
    }
}

#[test]
fn incompressible_maximum_payload_is_refused() {
    let (mut tx, _rx) = exchange(None).unwrap();
    let mut seed: u32 = 99;
    let random: Vec<u8> = (0..65535)
        .map(|_| {
            seed = seed.wrapping_mul(1103515245).wrapping_add(12345);
            (seed >> 16) as u8
        })
        .collect();
    let mut wire = vec![9u8];
    assert_eq!(tx.encode(&random, &mut wire), Err(CodecError::TooLarge));
    assert_eq!(wire, vec![9u8]);
    assert_eq!(tx.encode(&vec![0u8; 65536], &mut wire), Err(CodecError::TooLarge));
}

#[test]
fn incremental_decode_matches_whole() {
    let (mut tx, mut rx) = exchange(None).unwrap();
    let messages: Vec<Vec<u8>> = vec![b"hello".to_vec(), vec![3u8; 700], (0..=255u8).collect(), b"x".to_vec()];
    let mut wire = Vec::new();
    for m in &messages {
        tx.encode(m, &mut wire).unwrap();
    }
    let mut buf = Vec::new();
    let mut got = Vec::new();
    for b in &wire {
        buf.push(*b);
        got.extend(decode_all(&mut rx, &mut buf).unwrap());
    }
    assert_eq!(got, messages);
    assert!(buf.is_empty());
}

#[test]
fn chunked_decode_in_odd_sizes() {
    let (mut tx, mut rx) = exchange(None).unwrap();
    let messages: Vec<Vec<u8>> = (1..20usize).map(|n| vec![n as u8; n * 37]).collect();
    let mut wire = Vec::new();
    for m in &messages {
        tx.encode(m, &mut wire).unwrap();
    }
    let mut buf = Vec::new();
    let mut got = Vec::new();
    for chunk in wire.chunks(7) {
        buf.extend_from_slice(chunk);
        got.extend(decode_all(&mut rx, &mut buf).unwrap());
    }
    assert_eq!(got, messages);
}

#[test]
fn tampered_frame_fails_authentication() {
    let msg = b"some request bytes".to_vec();
    let (mut tx, _) = exchange(None).unwrap();
    let mut wire = Vec::new();
    tx.encode(&msg, &mut wire).unwrap();
    let header = 1;
    for pos in header..wire.len() {
        for bit in 0..8 {
            let (mut tx, mut rx) = exchange(None).unwrap();
            let mut w = Vec::new();
            tx.encode(&msg, &mut w).unwrap();
            w[pos] ^= 1 << bit;
            assert_eq!(rx.decode(&w), Err(CodecError::Crypto), "byte {} bit {}", pos, bit);
            if pos > 4 {
                break;
            }
        }
    }
}

#[test]
fn oversize_length_rejected_without_decryption() {
    let (mut tx, mut rx) = exchange(None).unwrap();
    assert_eq!(rx.decode(&[0xff, 0xff, 0x03]), Err(CodecError::InvalidLength));
    assert_eq!(rx.decode(&[0x80, 0x80, 0x04, 1, 2, 3]), Err(CodecError::InvalidLength));
    assert_eq!(rx.decode(&[0x00]), Err(CodecError::InvalidLength));
    // Nothing was decrypted: the next real frame still opens.
    let mut wire = Vec::new();
    tx.encode(b"still fine", &mut wire).unwrap();
    assert_eq!(decode_all(&mut rx, &mut wire).unwrap(), vec![b"still fine".to_vec()]);
}

#[test]
fn end_to_end_scenario() {
    let (mut client, mut server) = exchange(None).unwrap();
    let request = b"GET / \r\n\r\n".to_vec();
    let mut wire = Vec::new();
    client.encode(&request, &mut wire).unwrap();
    assert_eq!(decode_all(&mut server, &mut wire).unwrap(), vec![request]);
    let reply: Vec<u8> = b"<d:response><d:href>/</d:href></d:response>\n".iter().cycle().take(500).cloned().collect();
    let mut wire = Vec::new();
    server.encode(&reply, &mut wire).unwrap();
    assert!(wire.len() < 100, "{} bytes on the wire", wire.len());
    assert_eq!(decode_all(&mut client, &mut wire).unwrap(), vec![reply]);
}

#[test]
fn mismatched_static_key_fails() {
    for _ in 0..3 {
        let wrong = generate_keypair().unwrap().public;
        assert_eq!(exchange(Some(wrong)).err(), Some(ExchangeError::Crypto));
    }
}

#[test]
fn exchange_rejects_out_of_turn_and_bad_keys() {
    let k = generate_keypair().unwrap();
    assert_eq!(KeyExchange::initiator(&k.private[..31], &k.public).err(), Some(ExchangeError::BadKey));
    assert_eq!(KeyExchange::responder(&[]).err(), Some(ExchangeError::BadKey));
    let mut r = KeyExchange::responder(&k.private).unwrap();
    assert_eq!(r.write_message().err(), Some(ExchangeError::OutOfTurn));
    assert_eq!(r.next_step(), Step::Receive);
    assert_eq!(r.read_message(&[1, 2, 3]), Err(ExchangeError::Crypto));
    assert_eq!(r.next_step(), Step::Failed);
    let i = KeyExchange::initiator(&k.private, &k.public).unwrap();
    assert_eq!(i.into_transport().err(), Some(ExchangeError::OutOfTurn));
}

#[test]
fn handshake_payloads() {
    assert_eq!(handshake_payload(Role::Initiator), Vec::<u8>::new());
    assert_eq!(handshake_payload(Role::Responder), vec![LIVENESS_TAG]);
}

#[test]
fn oversize_handshake_message_is_refused() {
    let k = generate_keypair().unwrap();
    let mut r = KeyExchange::responder(&k.private).unwrap();
    assert_eq!(r.read_message(&vec![0u8; 65536]), Err(ExchangeError::TooLarge));
    assert_eq!(r.next_step(), Step::Failed);
}
