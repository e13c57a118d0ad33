use xenon_tunnel::codec::{Decoded, SnowfallStream};
use xenon_tunnel::exchange::generate_keypair;
use xenon_tunnel::magic::{encode_magic, MAGIC_INITIALIZER};
use xenon_tunnel::session::{Action, Connection, Phase};

const NOW: u128 = 1_700_000_000_000_000_000;

fn step(conn: &mut Connection, inbox: &mut Vec<u8>, outbox: &mut Vec<u8>, now: u128) -> bool {
    match conn.next_action(now) {
        Action::Send(bytes) => {
            outbox.extend_from_slice(&bytes);
            true
        }
        Action::Receive(n) => {
            if inbox.len() >= n {
                let bytes: Vec<u8> = inbox.drain(..n).collect();
                conn.receive(&bytes, now);
                true
            } else {
                false
            }
        }
        Action::Established | Action::Close => false,
    }
}

/// Runs both sides against each other over two in-memory pipes, with the
/// responder's clock `skew` nanoseconds ahead.
fn run(client: &mut Connection, server: &mut Connection, skew: u128) -> (Phase, Phase) {
    let mut to_server: Vec<u8> = Vec::new();
    let mut to_client: Vec<u8> = Vec::new();
    for _ in 0..10_000 {
        let a = step(client, &mut to_client, &mut to_server, NOW);
        let b = step(server, &mut to_server, &mut to_client, NOW + skew);
        if !a && !b {
            break;
        }
    }
    (client.current_phase(), server.current_phase())
}

fn decode_one(rx: &mut SnowfallStream, wire: &[u8]) -> Vec<u8> {
    match rx.decode(wire).unwrap() {
        Decoded::Message(m, used) => {
            assert_eq!(used, wire.len());
            m
        }
        Decoded::NeedMore => panic!("incomplete frame"),
    }
}

#[test]
fn sessions_establish_a_tunnel() {
    let kc = generate_keypair().unwrap();
    let ks = generate_keypair().unwrap();
    let mut client = Connection::initiator(&kc.private, &ks.public).unwrap();
    let mut server = Connection::responder(&ks.private).unwrap();
    assert_eq!(run(&mut client, &mut server, 1_000_000_000), (Phase::Established, Phase::Established));
    let mut c = client.into_transport().unwrap();
    let mut s = server.into_transport().unwrap();
    let request = b"GET / \r\n\r\n".to_vec();
    let mut wire = Vec::new();
    c.encode(&request, &mut wire).unwrap();
    assert_eq!(decode_one(&mut s, &wire), request);
    let reply: Vec<u8> = (0..500).map(|i| b"0123456789"[i % 10]).collect();
    let mut wire = Vec::new();
    s.encode(&reply, &mut wire).unwrap();
    assert!(wire.len() < 100);
    assert_eq!(decode_one(&mut c, &wire), reply);
}

#[test]
fn session_with_stale_magic_closes() {
    let kc = generate_keypair().unwrap();
    let ks = generate_keypair().unwrap();
    let mut client = Connection::initiator(&kc.private, &ks.public).unwrap();
    let mut server = Connection::responder(&ks.private).unwrap();
    let (_, s) = run(&mut client, &mut server, 6_000_000_000);
    assert_eq!(s, Phase::Closed);
}

#[test]
fn session_with_wrong_expected_key_never_connects() {
    let kc = generate_keypair().unwrap();
    let ks = generate_keypair().unwrap();
    let other = generate_keypair().unwrap();
    let mut client = Connection::initiator(&kc.private, &other.public).unwrap();
    let mut server = Connection::responder(&ks.private).unwrap();
    let (c, s) = run(&mut client, &mut server, 0);
    assert_eq!(s, Phase::Closed);
    assert_ne!(c, Phase::Established);
    assert!(client.into_transport().is_err());
}

#[test]
fn responder_rejects_bad_magic_and_bad_header() {
    let ks = generate_keypair().unwrap();
    let mut server = Connection::responder(&ks.private).unwrap();
    let token = MAGIC_INITIALIZER.as_bytes();
    assert_eq!(server.next_action(NOW), Action::Receive(32 + 2 * token.len()));
    let mut wire = encode_magic(token, NOW, &[7u8; 16], &vec![9u8; token.len()]);
    wire[40] ^= 1;
    server.receive(&wire, NOW);
    assert_eq!(server.current_phase(), Phase::Closed);
    assert_eq!(server.next_action(NOW), Action::Close);

    let mut server = Connection::responder(&ks.private).unwrap();
    let wire = encode_magic(token, NOW, &[7u8; 16], &vec![9u8; token.len()]);
    server.receive(&wire, NOW);
    assert_eq!(server.current_phase(), Phase::KeyExchange);
    assert_eq!(server.next_action(NOW), Action::Receive(1));
    // A zero length header: 0 under 42 is 42 bit-reversed.
    server.receive(&[42u8.reverse_bits()], NOW);
    assert_eq!(server.current_phase(), Phase::Closed);
}
