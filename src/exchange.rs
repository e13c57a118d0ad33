//! The key exchange: three Noise XK messages that authenticate the
//! responder to an initiator that knows its static key in advance, and
//! the initiator to the responder, and leave both with a transport cipher.
//!
//! The initiator sends the first message, reads the second and sends the
//! third; the responder does the reverse. Each message travels with the
//! obfuscated length header of `net`. The responder's message carries one
//! byte that the initiator does not interpret.
use vstd::prelude::*;
use crate::codec::SnowfallStream;
use crate::config::KeypairDef;
use crate::net::{size_header, write_msg};
use crate::codec::zeroed;
use crate::SIZE_LIMIT;

verus! {

/// The Noise protocol that the key exchange runs.
pub const NOISE_PARAMS: &'static str = "Noise_XK_25519_ChaChaPoly_SHA256";

/// Bytes in a Curve25519 key.
pub const KEY_LEN: usize = 32;

/// The payload of the responder's message.
pub const LIVENESS_TAG: u8 = 42;

/// Messages in a key exchange.
pub const EXCHANGE_MESSAGES: usize = 3;

/// Which side of the exchange a party is.
#[derive(Clone, Copy, Debug, PartialEq, Eq, Structural)]
pub enum Role {
    Initiator,
    Responder,
}

/// What a party does next.
#[derive(Clone, Copy, Debug, PartialEq, Eq, Structural)]
pub enum Step {
    Send,
    Receive,
    /// All three messages have passed: the transport can be set up.
    Done,
    /// A step failed: the connection is to be dropped.
    Failed,
}

#[derive(Clone, Copy, Debug, PartialEq, Eq, Structural)]
pub enum ExchangeError {
    /// A key is not 32 bytes long.
    BadKey,
    /// The message asked for is not this party's next step.
    OutOfTurn,
    /// A message is malformed or fails authentication, or the cipher could
    /// not be set up.
    Crypto,
    /// A message is over the size limit.
    TooLarge,
}

/// The step a party of `role` takes once `sent_or_read` messages have passed.
pub open spec fn step_spec(role: Role, sent_or_read: nat) -> Step {
    if sent_or_read >= EXCHANGE_MESSAGES {
        Step::Done
    } else if (sent_or_read % 2 == 0) == (role == Role::Initiator) {
        Step::Send
    } else {
        Step::Receive
    }
}

/// The step a party of `role` takes once `sent_or_read` messages have passed.
pub fn step_for(role: Role, sent_or_read: usize) -> (r: Step)
    ensures
        r == step_spec(role, sent_or_read as nat),
{
    if sent_or_read >= EXCHANGE_MESSAGES {
        Step::Done
    } else if (sent_or_read % 2 == 0) == (role == Role::Initiator) {
        Step::Send
    } else {
        Step::Receive
    }
}

#[verifier::external_type_specification]
#[verifier::external_body]
pub struct ExHandshakeState(snow::HandshakeState);

/// Relies on snow: `NoiseParams::from_str` for the protocol name, then
/// `Builder::new(..).local_private_key(..).remote_public_key(..)
/// .build_initiator()`. The builder copies a private key into 32 bytes and
/// a public key into 56, and panics on longer ones.
#[verifier::external_body]
fn build_initiator(
    pattern: &str,
    local_private: &[u8],
    remote_public: &[u8],
) -> (r: Result<snow::HandshakeState, snow::Error>)
    requires
        local_private@.len() <= KEY_LEN,
        remote_public@.len() <= KEY_LEN,
{
    let params = pattern.parse::<snow::params::NoiseParams>()?;
    snow::Builder::new(params)
        .local_private_key(local_private)?
        .remote_public_key(remote_public)?
        .build_initiator()
}

/// Relies on snow: `NoiseParams::from_str` for the protocol name, then
/// `Builder::new(..).local_private_key(..).build_responder()`. The builder
/// copies a private key into 32 bytes and panics on a longer one.
#[verifier::external_body]
fn build_responder(pattern: &str, local_private: &[u8]) -> (r: Result<
    snow::HandshakeState,
    snow::Error,
>)
    requires
        local_private@.len() <= KEY_LEN,
{
    let params = pattern.parse::<snow::params::NoiseParams>()?;
    snow::Builder::new(params).local_private_key(local_private)?.build_responder()
}

/// Relies on snow's `HandshakeState::write_message`, which returns the
/// number of bytes it wrote into the buffer. A buffer of the largest
/// message size keeps it from copying past the buffer's end, which panics.
#[verifier::external_body]
fn handshake_write(
    hs: &mut snow::HandshakeState,
    payload: &[u8],
    message: &mut Vec<u8>,
) -> (r: Result<usize, snow::Error>)
    requires
        old(message)@.len() >= SIZE_LIMIT,
    ensures
        final(message)@.len() == old(message)@.len(),
        r matches Ok(n) ==> n <= old(message)@.len(),
{
    hs.write_message(payload, message.as_mut_slice())
}

/// Relies on snow's `HandshakeState::read_message`: it refuses a message
/// over 65535 bytes, and returns the number of payload bytes it wrote into
/// the buffer.
#[verifier::external_body]
fn handshake_read(
    hs: &mut snow::HandshakeState,
    message: &[u8],
    payload: &mut Vec<u8>,
) -> (r: Result<usize, snow::Error>)
    ensures
        final(payload)@.len() == old(payload)@.len(),
        r matches Ok(n) ==> n <= old(payload)@.len(),
        message@.len() > SIZE_LIMIT ==> r is Err,
{
    hs.read_message(message, payload.as_mut_slice())
}

/// Relies on snow's `HandshakeState::into_transport_mode`, which splits the
/// finished handshake into the two directional transport keys.
#[verifier::external_body]
fn handshake_into_transport(hs: snow::HandshakeState) -> (r: Result<
    snow::TransportState,
    snow::Error,
>) {
    hs.into_transport_mode()
}

/// Relies on snow: `NoiseParams::from_str` for the protocol name, then
/// `Builder::generate_keypair`, which draws a random keypair whose halves
/// have the lengths of the protocol's curve: 32 bytes each for 25519.
#[verifier::external_body]
fn generate_keypair_for(pattern: &str) -> (r: Result<KeypairDef, snow::Error>)
    ensures
        pattern@ == NOISE_PARAMS@ ==> (r matches Ok(k) ==> k.public@.len() == KEY_LEN
            && k.private@.len() == KEY_LEN),
{
    let params = pattern.parse::<snow::params::NoiseParams>()?;
    let k = snow::Builder::new(params).generate_keypair()?;
    Ok(KeypairDef { public: k.public, private: k.private })
}

/// A fresh random static keypair for the key exchange.
pub fn generate_keypair() -> (r: Result<KeypairDef, ExchangeError>)
    ensures
        r matches Ok(k) ==> k.public@.len() == KEY_LEN && k.private@.len() == KEY_LEN,
        r matches Err(e) ==> e == ExchangeError::Crypto,
{
    match generate_keypair_for(NOISE_PARAMS) {
        Ok(k) => Ok(k),
        Err(_) => Err(ExchangeError::Crypto),
    }
}

/// The payload a party of `role` puts in its handshake messages: none for
/// the initiator, the liveness tag for the responder.
pub open spec fn payload_spec(role: Role) -> Seq<u8> {
    if role == Role::Initiator {
        Seq::empty()
    } else {
        seq![LIVENESS_TAG]
    }
}

/// The payload a party of `role` puts in its handshake messages.
pub fn handshake_payload(role: Role) -> (r: Vec<u8>)
    ensures
        r@ == payload_spec(role),
{
    let mut payload: Vec<u8> = Vec::new();
    if role == Role::Responder {
        payload.push(LIVENESS_TAG);
    }
    assert(payload@ =~= payload_spec(role));
    payload
}

/// One party's side of a key exchange in progress.
pub struct KeyExchange {
    state: snow::HandshakeState,
    role: Role,
    passed: usize,
    failed: bool,
    sent: Ghost<Seq<Seq<u8>>>,
}

impl KeyExchange {
    pub closed spec fn role(&self) -> Role {
        self.role
    }

    /// The number of messages that have passed.
    pub closed spec fn passed(&self) -> nat {
        self.passed as nat
    }

    pub closed spec fn failed(&self) -> bool {
        self.failed
    }

    /// The payloads this party has handed to the handshake for the
    /// messages it sent, in order.
    pub closed spec fn sent_payloads(&self) -> Seq<Seq<u8>> {
        self.sent@
    }

    pub closed spec fn inv(&self) -> bool {
        self.passed <= EXCHANGE_MESSAGES
    }

    /// What this party does next.
    pub open spec fn step(&self) -> Step {
        if self.failed() {
            Step::Failed
        } else {
            step_spec(self.role(), self.passed())
        }
    }

    /// The initiator's side, with its own static private key and the
    /// responder's static public key it expects.
    pub fn initiator(local_private: &[u8], remote_public: &[u8]) -> (r: Result<
        KeyExchange,
        ExchangeError,
    >)
        ensures
            (r == Err::<KeyExchange, ExchangeError>(ExchangeError::BadKey)) <==> (local_private@.len()
                != KEY_LEN || remote_public@.len() != KEY_LEN),
            r matches Ok(k) ==> k.inv() && k.role() == Role::Initiator && k.passed() == 0
                && !k.failed() && k.sent_payloads().len() == 0,
            r matches Err(e) ==> e == ExchangeError::BadKey || e == ExchangeError::Crypto,
    {
        if local_private.len() != KEY_LEN || remote_public.len() != KEY_LEN {
            return Err(ExchangeError::BadKey);
        }
        match build_initiator(NOISE_PARAMS, local_private, remote_public) {
            Ok(state) => Ok(
                KeyExchange {
                    state,
                    role: Role::Initiator,
                    passed: 0,
                    failed: false,
                    sent: Ghost(Seq::empty()),
                },
            ),
            Err(_) => Err(ExchangeError::Crypto),
        }
    }

    /// The responder's side, with its own static private key.
    pub fn responder(local_private: &[u8]) -> (r: Result<KeyExchange, ExchangeError>)
        ensures
            (r == Err::<KeyExchange, ExchangeError>(ExchangeError::BadKey)) <==> local_private@.len()
                != KEY_LEN,
            r matches Ok(k) ==> k.inv() && k.role() == Role::Responder && k.passed() == 0
                && !k.failed() && k.sent_payloads().len() == 0,
            r matches Err(e) ==> e == ExchangeError::BadKey || e == ExchangeError::Crypto,
    {
        if local_private.len() != KEY_LEN {
            return Err(ExchangeError::BadKey);
        }
        match build_responder(NOISE_PARAMS, local_private) {
            Ok(state) => Ok(
                KeyExchange {
                    state,
                    role: Role::Responder,
                    passed: 0,
                    failed: false,
                    sent: Ghost(Seq::empty()),
                },
            ),
            Err(_) => Err(ExchangeError::Crypto),
        }
    }

    /// What this party does next.
    pub fn next_step(&self) -> (r: Step)
        requires
            self.inv(),
        ensures
            r == self.step(),
    {
        if self.failed {
            Step::Failed
        } else {
            step_for(self.role, self.passed)
        }
    }

    /// Writes this party's next message, with its length header, ready for
    /// the wire; its payload is `payload_spec` of the role. Out of turn
    /// nothing changes; a failure ends the exchange.
    pub fn write_message(&mut self) -> (r: Result<Vec<u8>, ExchangeError>)
        requires
            old(self).inv(),
        ensures
            final(self).inv(),
            final(self).role() == old(self).role(),
            (r == Err::<Vec<u8>, ExchangeError>(ExchangeError::OutOfTurn)) <==> old(self).step()
                != Step::Send,
            old(self).step() != Step::Send ==> final(self).passed() == old(self).passed()
                && final(self).failed() == old(self).failed() && final(self).sent_payloads()
                == old(self).sent_payloads(),
            old(self).step() == Step::Send && r is Ok ==> final(self).passed() == old(self).passed()
                + 1 && !final(self).failed() && final(self).sent_payloads() == old(
                self).sent_payloads().push(payload_spec(old(self).role())),
            old(self).step() == Step::Send && r is Err ==> final(self).failed() && r
                == Err::<Vec<u8>, ExchangeError>(ExchangeError::Crypto),
            r matches Ok(w) ==> exists|m: Seq<u8>|
                1 <= m.len() <= SIZE_LIMIT && w@ == size_header(m.len()) + m,
    {
        if self.failed || step_for(self.role, self.passed) != Step::Send {
            return Err(ExchangeError::OutOfTurn);
        }
        let payload = handshake_payload(self.role);
        let mut buf = zeroed(SIZE_LIMIT);
        match handshake_write(&mut self.state, payload.as_slice(), &mut buf) {
            Ok(n) => {
                buf.truncate(n);
                if n == 0 {
                    self.failed = true;
                    return Err(ExchangeError::Crypto);
                }
                match write_msg(buf.as_slice()) {
                    Some(w) => {
                        self.passed = self.passed + 1;
                        self.sent = Ghost(self.sent@.push(payload@));
                        Ok(w)
                    },
                    None => {
                        self.failed = true;
                        Err(ExchangeError::Crypto)
                    },
                }
            },
            Err(_) => {
                self.failed = true;
                Err(ExchangeError::Crypto)
            },
        }
    }

    /// Reads the other party's next message (without its length header).
    /// Out of turn nothing changes; a failure ends the exchange.
    pub fn read_message(&mut self, msg: &[u8]) -> (r: Result<(), ExchangeError>)
        requires
            old(self).inv(),
        ensures
            final(self).inv(),
            final(self).role() == old(self).role(),
            final(self).sent_payloads() == old(self).sent_payloads(),
            (r == Err::<(), ExchangeError>(ExchangeError::OutOfTurn)) <==> old(self).step()
                != Step::Receive,
            (r == Err::<(), ExchangeError>(ExchangeError::TooLarge)) <==> (old(self).step()
                == Step::Receive && msg@.len() > SIZE_LIMIT),
            old(self).step() != Step::Receive ==> final(self).passed() == old(self).passed()
                && final(self).failed() == old(self).failed(),
            old(self).step() == Step::Receive && r is Ok ==> final(self).passed() == old(
                self).passed() + 1 && !final(self).failed(),
            old(self).step() == Step::Receive && r is Err ==> final(self).failed(),
            r matches Err(e) ==> e == ExchangeError::OutOfTurn || e == ExchangeError::TooLarge
                || e == ExchangeError::Crypto,
    {
        if self.failed || step_for(self.role, self.passed) != Step::Receive {
            return Err(ExchangeError::OutOfTurn);
        }
        if msg.len() > SIZE_LIMIT {
            self.failed = true;
            return Err(ExchangeError::TooLarge);
        }
        let mut buf = zeroed(SIZE_LIMIT);
        match handshake_read(&mut self.state, msg, &mut buf) {
            Ok(_) => {
                self.passed = self.passed + 1;
                Ok(())
            },
            Err(_) => {
                self.failed = true;
                Err(ExchangeError::Crypto)
            },
        }
    }

    /// The frame codec of the established tunnel, once all three messages
    /// have passed.
    pub fn into_transport(self) -> (r: Result<SnowfallStream, ExchangeError>)
        requires
            self.inv(),
        ensures
            (r == Err::<SnowfallStream, ExchangeError>(ExchangeError::OutOfTurn)) <==> self.step()
                != Step::Done,
            r matches Err(e) ==> e == ExchangeError::OutOfTurn || e == ExchangeError::Crypto,
    {
        if self.failed || step_for(self.role, self.passed) != Step::Done {
            return Err(ExchangeError::OutOfTurn);
        }
        match handshake_into_transport(self.state) {
            Ok(t) => Ok(SnowfallStream::new(t)),
            Err(_) => Err(ExchangeError::Crypto),
        }
    }
}

} // verus!
