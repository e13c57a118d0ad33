//! One connection's way from a fresh socket to an established tunnel, as a
//! state machine that never touches the socket: it says what to send or
//! how many bytes to read next, and is handed what was read.
//!
//! The initiator sends the magic exchange, the responder checks it; then
//! both run the key exchange, reading each message's length header one
//! byte at a time. Any failure closes the connection without a word to
//! the peer.
use vstd::prelude::*;
use crate::codec::SnowfallStream;
use crate::exchange::{payload_spec, ExchangeError, KeyExchange, Role, Step};
use crate::magic::{
    lemma_magic_token_len, magic_accepts, magic_token, magic_wire, magic_wire_len, read_magic,
    write_magic, EPOCH_LEN, MAGIC_INITIALIZER,
};
use crate::net::{recv_size, size_read, SizeRead, MAX_HEADER_LEN};

verus! {

/// Where a connection stands.
#[derive(Clone, Copy, Debug, PartialEq, Eq, Structural)]
pub enum Phase {
    AwaitMagic,
    KeyExchange,
    Established,
    Closed,
}

/// What the caller does next with the socket.
#[derive(Debug, PartialEq, Eq)]
pub enum Action {
    /// Write these bytes.
    Send(Vec<u8>),
    /// Read exactly this many bytes and hand them to `receive`.
    Receive(usize),
    /// The tunnel is up: take its codec with `into_transport`.
    Established,
    /// Drop the connection.
    Close,
}

/// A connection on its way to an established tunnel.
pub struct Connection {
    role: Role,
    phase: Phase,
    exchange: KeyExchange,
    header: Vec<u8>,
    body_len: Option<usize>,
}

impl Connection {
    pub closed spec fn role(&self) -> Role {
        self.role
    }

    pub closed spec fn phase(&self) -> Phase {
        self.phase
    }

    /// The key exchange this connection runs.
    pub closed spec fn exchange(&self) -> KeyExchange {
        self.exchange
    }

    /// The length header bytes of the next key-exchange message read so far.
    pub closed spec fn header(&self) -> Seq<u8> {
        self.header@
    }

    /// The length of the next key-exchange message, once its header is read.
    pub closed spec fn body_len(&self) -> Option<usize> {
        self.body_len
    }

    pub closed spec fn inv(&self) -> bool {
        &&& self.exchange.inv()
        &&& self.exchange.role() == self.role
        &&& self.header@.len() < MAX_HEADER_LEN
        &&& size_read(self.header@) is NeedMore
        &&& self.body_len is Some ==> self.header@.len() == 0
        &&& self.phase == Phase::Established ==> self.exchange.step() == Step::Done
    }

    fn start(role: Role, exchange: KeyExchange) -> (r: Connection)
        requires
            exchange.inv(),
            exchange.role() == role,
        ensures
            r.inv(),
            r.role() == role,
            r.phase() == Phase::AwaitMagic,
            r.exchange() == exchange,
            r.header().len() == 0,
            r.body_len() is None,
    {
        let c = Connection { role, phase: Phase::AwaitMagic, exchange, header: Vec::new(), body_len: None };
        assert(c.header@ =~= Seq::<u8>::empty());
        c
    }

    /// The dialling side, with its static private key and the responder's
    /// static public key it expects.
    pub fn initiator(local_private: &[u8], remote_public: &[u8]) -> (r: Result<Connection, ExchangeError>)
        ensures
            r matches Ok(c) ==> c.inv() && c.role() == Role::Initiator && c.phase() == Phase::AwaitMagic
                && c.exchange().step() == Step::Send,
            (r == Err::<Connection, ExchangeError>(ExchangeError::BadKey)) <==> (local_private@.len()
                != 32 || remote_public@.len() != 32),
            r matches Ok(c) ==> c.exchange().sent_payloads().len() == 0,
    {
        match KeyExchange::initiator(local_private, remote_public) {
            Ok(k) => Ok(Connection::start(Role::Initiator, k)),
            Err(e) => Err(e),
        }
    }

    /// The accepting side, with its static private key.
    pub fn responder(local_private: &[u8]) -> (r: Result<Connection, ExchangeError>)
        ensures
            r matches Ok(c) ==> c.inv() && c.role() == Role::Responder && c.phase() == Phase::AwaitMagic
                && c.exchange().step() == Step::Receive,
            (r == Err::<Connection, ExchangeError>(ExchangeError::BadKey)) <==> local_private@.len()
                != 32,
            r matches Ok(c) ==> c.exchange().sent_payloads().len() == 0,
    {
        match KeyExchange::responder(local_private) {
            Ok(k) => Ok(Connection::start(Role::Responder, k)),
            Err(e) => Err(e),
        }
    }

    /// Where the connection stands.
    pub fn current_phase(&self) -> (r: Phase)
        ensures
            r == self.phase(),
    {
        self.phase
    }

    /// What to do next; `now` is local time in nanoseconds since the Unix
    /// epoch.
    pub fn next_action(&mut self, now: u128) -> (r: Action)
        requires
            old(self).inv(),
        ensures
            final(self).inv(),
            final(self).role() == old(self).role(),
            old(self).phase() == Phase::AwaitMagic ==> final(self).exchange() == old(self).exchange(),
            old(self).phase() == Phase::Closed ==> r == Action::Close && final(self).phase() == Phase::Closed,
            old(self).phase() == Phase::Established ==> r == Action::Established && final(self).phase()
                == Phase::Established,
            old(self).phase() == Phase::AwaitMagic && old(self).role() == Role::Initiator ==> (r matches Action::Send(w)
                && final(self).phase() == Phase::KeyExchange && exists|ek: Seq<u8>, mk: Seq<u8>|
                ek.len() == EPOCH_LEN && mk.len() == magic_token().len() && w@ == magic_wire(
                magic_token(),
                now as nat,
                ek,
                mk,
            )),
            old(self).phase() == Phase::AwaitMagic && old(self).role() == Role::Responder ==> r
                == Action::Receive(magic_wire_len(magic_token().len()) as usize) && final(self).phase()
                == Phase::AwaitMagic,
            old(self).phase() == Phase::KeyExchange ==> {
                let step = old(self).exchange().step();
                &&& step == Step::Send ==> (r is Send && final(self).phase() == Phase::KeyExchange
                    && final(self).exchange().passed() == old(self).exchange().passed() + 1
                    && final(self).exchange().sent_payloads() == old(self).exchange().sent_payloads().push(
                    payload_spec(old(self).role())))
                    || (r == Action::Close && final(self).phase() == Phase::Closed)
                &&& step == Step::Receive ==> *final(self) == *old(self) && r == Action::Receive(
                    match old(self).body_len() {
                        Some(n) => n,
                        None => 1,
                    },
                )
                &&& step == Step::Done ==> r == Action::Established && final(self).phase()
                    == Phase::Established
                &&& step == Step::Failed ==> r == Action::Close && final(self).phase() == Phase::Closed
            },
    {
        match self.phase {
            Phase::Closed => Action::Close,
            Phase::Established => Action::Established,
            Phase::AwaitMagic => {
                let token = MAGIC_INITIALIZER.as_bytes();
                proof {
                    lemma_magic_token_len();
                }
                if self.role == Role::Initiator {
                    self.phase = Phase::KeyExchange;
                    Action::Send(write_magic(token, now))
                } else {
                    Action::Receive(32 + 2 * token.len())
                }
            },
            Phase::KeyExchange => match self.exchange.next_step() {
                Step::Send => match self.exchange.write_message() {
                    Ok(w) => Action::Send(w),
                    Err(_) => {
                        self.phase = Phase::Closed;
                        Action::Close
                    },
                },
                Step::Receive => match self.body_len {
                    Some(n) => Action::Receive(n),
                    None => Action::Receive(1),
                },
                Step::Done => {
                    self.phase = Phase::Established;
                    Action::Established
                },
                Step::Failed => {
                    self.phase = Phase::Closed;
                    Action::Close
                },
            },
        }
    }

    /// Hands over the bytes read for the last `Receive` action. Bytes that
    /// were not asked for close the connection.
    pub fn receive(&mut self, bytes: &[u8], now: u128)
        requires
            old(self).inv(),
        ensures
            final(self).inv(),
            final(self).role() == old(self).role(),
            old(self).phase() == Phase::AwaitMagic ==> final(self).exchange() == old(self).exchange(),
            old(self).phase() == Phase::AwaitMagic && old(self).role() == Role::Responder ==> (
            final(self).phase() == Phase::KeyExchange <==> magic_accepts(
                magic_token(),
                bytes@,
                now as nat,
            )),
            old(self).phase() == Phase::AwaitMagic && old(self).role() == Role::Responder ==> (
            final(self).phase() == Phase::KeyExchange || final(self).phase() == Phase::Closed),
            old(self).phase() == Phase::KeyExchange && old(self).exchange().step() == Step::Receive
                && old(self).body_len() is None ==> {
                let h = old(self).header() + bytes@;
                &&& (bytes@.len() == 1 && size_read(h) is NeedMore) ==> (final(self).phase()
                    == Phase::KeyExchange && final(self).header() == h)
                &&& (bytes@.len() == 1 && size_read(h) is Size) ==> (final(self).phase()
                    == Phase::KeyExchange && final(self).body_len() == Some(
                    size_read(h)->Size_0,
                ) && final(self).header().len() == 0)
                &&& !(bytes@.len() == 1 && (size_read(h) is NeedMore || size_read(h) is Size)) ==> final(self).phase() == Phase::Closed
            },
            old(self).phase() == Phase::KeyExchange && old(self).exchange().step() == Step::Receive
                && old(self).body_len() is Some ==> {
                ||| final(self).phase() == Phase::KeyExchange && bytes@.len() == old(self).body_len()->Some_0
                    && final(self).body_len() is None && final(self).exchange().passed() == old(self).exchange().passed() + 1
                ||| final(self).phase() == Phase::Closed
            },
            !(old(self).phase() == Phase::AwaitMagic && old(self).role() == Role::Responder) && !(old(self).phase() == Phase::KeyExchange && old(self).exchange().step() == Step::Receive)
                ==> final(self).phase() == Phase::Closed,
    {
        match self.phase {
            Phase::AwaitMagic => {
                if self.role == Role::Responder && read_magic(MAGIC_INITIALIZER.as_bytes(), bytes, now) {
                    self.phase = Phase::KeyExchange;
                } else {
                    self.phase = Phase::Closed;
                }
            },
            Phase::KeyExchange => {
                if self.exchange.next_step() != Step::Receive {
                    self.phase = Phase::Closed;
                    return;
                }
                match self.body_len {
                    None => {
                        if bytes.len() != 1 {
                            self.phase = Phase::Closed;
                            return;
                        }
                        self.header.push(bytes[0]);
                        assert(self.header@ =~= old(self).header@ + bytes@);
                        match recv_size(self.header.as_slice()) {
                            SizeRead::NeedMore => {},
                            SizeRead::Invalid => {
                                self.phase = Phase::Closed;
                                self.header.clear();
                                assert(size_read(self.header@) is NeedMore);
                            },
                            SizeRead::Size(n, _) => {
                                self.body_len = Some(n);
                                self.header.clear();
                                assert(size_read(self.header@) is NeedMore);
                            },
                        }
                    },
                    Some(n) => {
                        if bytes.len() != n {
                            self.phase = Phase::Closed;
                            return;
                        }
                        match self.exchange.read_message(bytes) {
                            Ok(()) => {
                                self.body_len = None;
                            },
                            Err(_) => {
                                self.phase = Phase::Closed;
                            },
                        }
                    },
                }
            },
            _ => {
                self.phase = Phase::Closed;
            },
        }
    }

    /// The frame codec of the established tunnel.
    pub fn into_transport(self) -> (r: Result<SnowfallStream, ExchangeError>)
        requires
            self.inv(),
        ensures
            (r == Err::<SnowfallStream, ExchangeError>(ExchangeError::OutOfTurn)) <==> self.phase()
                != Phase::Established,
            r matches Err(e) ==> e == ExchangeError::OutOfTurn || e == ExchangeError::Crypto,
    {
        if self.phase != Phase::Established {
            return Err(ExchangeError::OutOfTurn);
        }
        self.exchange.into_transport()
    }
}

} // verus!
