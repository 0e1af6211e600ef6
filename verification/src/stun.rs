//! The public-address prober.
//!
//! A cycle resolves the STUN server, runs one binding check against it and
//! ends in a [`StunOutcome`]. [`run`] takes the outcome, writes the public
//! address and says how long to wait before the next cycle. The STUN wire
//! format is the `stun3489` crate's; this module only decides what happens to
//! a message that cannot be decoded or encoded: it is dropped.

use crate::addr::SocketAddress;
use bytes::BytesMut;
use stun3489::codec::BindRequest;
use stun3489::codec::Request;
use stun3489::codec::Response;
use stun3489::StunCodec;
use vstd::prelude::*;

verus! {

/// How long a cycle waits for each response, in seconds.
pub const RECEIVE_TIMEOUT_SECS: u64 = 1;

/// The wait after a cycle that found a stable public address, in seconds.
pub const STABLE_DELAY_SECS: u64 = 60;

/// The wait after a cycle that succeeded without a stable mapping, in seconds.
pub const UNMAPPED_DELAY_SECS: u64 = 30;

/// The wait after a cycle that failed, in seconds.
pub const FAILURE_DELAY_SECS: u64 = 15;

/// The room set aside for an outgoing STUN message, in bytes.
pub const ENCODE_CAPACITY: u16 = 1024;

/// Why a cycle failed.
#[derive(Clone, Copy, Debug, PartialEq, Eq, Structural)]
pub enum ProbeError {
    /// The server name did not resolve to an address.
    Resolution,
    /// No response came within the receive window.
    Timeout,
    /// A STUN message could not be decoded or encoded.
    Codec,
    /// A socket or a queue failed.
    Io,
}

/// How a cycle ended.
#[derive(Clone, Copy, Debug, PartialEq, Eq, Structural)]
pub enum StunOutcome {
    /// The check found this stable public address.
    Mapped(SocketAddress),
    /// The check succeeded, but the NAT gives no stable mapping.
    Unmapped,
    /// The cycle failed.
    Failed(ProbeError),
}

/// The wait that follows an outcome, in seconds.
pub open spec fn backoff(outcome: StunOutcome) -> u64 {
    match outcome {
        StunOutcome::Mapped(_) => STABLE_DELAY_SECS,
        StunOutcome::Unmapped => UNMAPPED_DELAY_SECS,
        StunOutcome::Failed(_) => FAILURE_DELAY_SECS,
    }
}

/// The public address after an outcome: a successful check replaces it, also
/// by nothing; a failed cycle leaves it as it was.
pub open spec fn published(before: Option<SocketAddress>, outcome: StunOutcome) -> Option<
    SocketAddress,
> {
    match outcome {
        StunOutcome::Mapped(address) => Some(address),
        StunOutcome::Unmapped => None,
        StunOutcome::Failed(_) => before,
    }
}

/// The outcome of a cycle, given what the binding check returned.
pub open spec fn concluded(checked: Result<Option<SocketAddress>, ProbeError>) -> StunOutcome {
    match checked {
        Ok(Some(address)) => StunOutcome::Mapped(address),
        Ok(None) => StunOutcome::Unmapped,
        Err(error) => StunOutcome::Failed(error),
    }
}

/// The kind of a failure: a timeout is a timeout whatever else is said of it;
/// a malformed message is a codec failure; the rest is I/O.
pub open spec fn failure_kind(timed_out: bool, malformed: bool) -> ProbeError {
    if timed_out {
        ProbeError::Timeout
    } else if malformed {
        ProbeError::Codec
    } else {
        ProbeError::Io
    }
}

/// Picks the server address for a cycle: the first one that the name resolved
/// to. A name that resolved to nothing fails the cycle.
pub fn choose_server(resolved: &Vec<SocketAddress>) -> (server: Result<SocketAddress, ProbeError>)
    ensures
        server == if resolved.len() > 0 {
            Ok::<SocketAddress, ProbeError>(resolved[0])
        } else {
            Err::<SocketAddress, ProbeError>(ProbeError::Resolution)
        },
{
    if resolved.len() > 0 {
        Ok(resolved[0])
    } else {
        Err(ProbeError::Resolution)
    }
}

/// Names the kind of a failure. A wait that ran out of time is a timeout and
/// never a codec failure.
pub fn classify_failure(timed_out: bool, malformed: bool) -> (kind: ProbeError)
    ensures
        kind == failure_kind(timed_out, malformed),
        timed_out ==> kind == ProbeError::Timeout,
{
    if timed_out {
        ProbeError::Timeout
    } else if malformed {
        ProbeError::Codec
    } else {
        ProbeError::Io
    }
}

/// Turns what the binding check returned into the outcome of the cycle.
pub fn conclude(checked: Result<Option<SocketAddress>, ProbeError>) -> (outcome: StunOutcome)
    ensures
        outcome == concluded(checked),
{
    match checked {
        Ok(Some(address)) => StunOutcome::Mapped(address),
        Ok(None) => StunOutcome::Unmapped,
        Err(error) => StunOutcome::Failed(error),
    }
}

/// The wait that follows an outcome, in seconds: 60 after a stable address,
/// 30 after a check without a stable mapping, 15 after a failure.
pub fn backoff_secs(outcome: StunOutcome) -> (secs: u64)
    ensures
        secs == backoff(outcome),
        secs == 60 || secs == 30 || secs == 15,
{
    match outcome {
        StunOutcome::Mapped(_) => STABLE_DELAY_SECS,
        StunOutcome::Unmapped => UNMAPPED_DELAY_SECS,
        StunOutcome::Failed(_) => FAILURE_DELAY_SECS,
    }
}

/// Ends one cycle: publishes what the cycle found and returns the seconds to
/// sleep before the next one.
///
/// The wait depends on the outcome alone, not on the address held before.
pub fn run(public_addr: &mut Option<SocketAddress>, outcome: StunOutcome) -> (delay_secs: u64)
    ensures
        *final(public_addr) == published(*old(public_addr), outcome),
        delay_secs == backoff(outcome),
{
    match outcome {
        StunOutcome::Mapped(address) => {
            *public_addr = Some(address);
        },
        StunOutcome::Unmapped => {
            *public_addr = None;
        },
        StunOutcome::Failed(_) => {},
    }
    backoff_secs(outcome)
}

#[verifier::external_type_specification]
#[verifier::external_body]
pub struct ExResponse(Response);

#[verifier::external_type_specification]
#[verifier::external_body]
pub struct ExBindRequest(BindRequest);

#[verifier::external_type_specification]
#[verifier::external_body]
pub struct ExIoError(std::io::Error);

/// The transaction identifier and response that `stun3489` reads from a
/// packet, or `None` for a packet that it does not accept.
pub uninterp spec fn stun_decoding(packet: Seq<u8>) -> Option<(u64, Response)>;

/// The packet that `stun3489` writes for a binding request under a
/// transaction identifier, or `None` for a request that it cannot write.
pub uninterp spec fn stun_encoding(id: u64, request: BindRequest) -> Option<Seq<u8>>;

/// Calls `stun3489::StunCodec::decode_const` on the packet.
///
/// Claimed of it: what it returns is fixed by the bytes of the packet. A
/// message that it returns is the packet's decoding; when it returns no
/// message or an error, the packet has no decoding.
#[verifier::external_body]
fn stun_decode(packet: &Vec<u8>) -> (decoded: Result<Option<(u64, Response)>, std::io::Error>)
    ensures
        match decoded {
            Ok(Some(message)) => stun_decoding(packet@) == Some(message),
            Ok(None) => stun_decoding(packet@) is None,
            Err(_) => stun_decoding(packet@) is None,
        },
{
    StunCodec::decode_const(packet.as_slice())
}

/// Calls `stun3489::StunCodec::encode` on a binding request, with a fresh
/// `bytes::BytesMut` of the given capacity to write into, and copies out what
/// was written.
///
/// Claimed of it: what is written is fixed by the identifier and the request;
/// the buffer grows as needed, so the capacity does not change the bytes. An
/// error means that the request has no encoding. The crate pads a user name
/// with floating-point arithmetic, which is exact for every name shorter than
/// 2^53 bytes; the claim is made of requests that fit in memory.
#[verifier::external_body]
fn stun_encode(id: u64, request: BindRequest, capacity: u16) -> (encoded: Result<
    Vec<u8>,
    std::io::Error,
>)
    ensures
        match encoded {
            Ok(bytes) => stun_encoding(id, request) == Some(bytes@),
            Err(_) => stun_encoding(id, request) is None,
        },
{
    let mut buffer = BytesMut::with_capacity(usize::from(capacity));
    match StunCodec::encode((id, Request::Bind(request)), &mut buffer) {
        Ok(()) => Ok(buffer.to_vec()),
        Err(error) => Err(error),
    }
}

/// What becomes of a decoding attempt: a message is passed on, anything else
/// is a codec failure and the packet is dropped.
pub fn accept_decoded(decoded: Result<Option<(u64, Response)>, std::io::Error>) -> (message: Result<
    (u64, Response),
    ProbeError,
>)
    ensures
        match decoded {
            Ok(Some(found)) => message == Ok::<(u64, Response), ProbeError>(found),
            _ => message == Err::<(u64, Response), ProbeError>(ProbeError::Codec),
        },
{
    match decoded {
        Ok(Some(found)) => Ok(found),
        Ok(None) => Err(ProbeError::Codec),
        Err(_) => Err(ProbeError::Codec),
    }
}

/// Decodes a packet from the public socket as a STUN response. A packet that
/// is none is reported as a codec failure, for the caller to drop.
pub fn decode_response(packet: &Vec<u8>) -> (message: Result<(u64, Response), ProbeError>)
    ensures
        message == match stun_decoding(packet@) {
            Some(found) => Ok::<(u64, Response), ProbeError>(found),
            None => Err::<(u64, Response), ProbeError>(ProbeError::Codec),
        },
{
    accept_decoded(stun_decode(packet))
}

/// What becomes of an encoding attempt: the bytes are passed on, an error is
/// a codec failure and the request is dropped.
pub fn accept_encoded(encoded: Result<Vec<u8>, std::io::Error>) -> (packet: Result<
    Vec<u8>,
    ProbeError,
>)
    ensures
        match encoded {
            Ok(bytes) => packet == Ok::<Vec<u8>, ProbeError>(bytes),
            Err(_) => packet == Err::<Vec<u8>, ProbeError>(ProbeError::Codec),
        },
{
    match encoded {
        Ok(bytes) => Ok(bytes),
        Err(_) => Err(ProbeError::Codec),
    }
}

/// Encodes a binding request for the public socket. A request that cannot be
/// written is reported as a codec failure, for the caller to drop.
pub fn encode_request(id: u64, request: BindRequest) -> (packet: Result<Vec<u8>, ProbeError>)
    ensures
        match stun_encoding(id, request) {
            Some(bytes) => packet is Ok && packet->Ok_0@ == bytes,
            None => packet == Err::<Vec<u8>, ProbeError>(ProbeError::Codec),
        },
{
    accept_encoded(stun_encode(id, request, ENCODE_CAPACITY))
}

} // verus!
