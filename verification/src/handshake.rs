//! The opening handshake: the accept token that answers a client's key, and
//! the response that switches the connection to the WebSocket protocol.

use vstd::prelude::*;
use vstd::slice::slice_to_vec;
use vstd::string::*;

verus! {

/// The longest key for which an accept token is computed. SHA-1 counts the
/// bits of its message in 64 bits, so the key and the 36 bytes that are
/// appended to it must stay below 2^61 bytes.
pub const MAX_KEY_LENGTH: u64 = 0x1fff_ffff_ffff_ffdb;

/// The SHA-1 digest of a message.
pub uninterp spec fn sha1_digest(message: Seq<u8>) -> Seq<u8>;

/// The base64 encoding of a byte string, in the standard alphabet and with
/// padding, as ASCII bytes.
pub uninterp spec fn base64_encoding(data: Seq<u8>) -> Seq<u8>;

/// Calls `Digest::digest` of the `digest` crate for `sha1::Sha1`, which feeds
/// the message to a fresh hasher and finalizes it. Trusted: the result is the
/// SHA-1 digest of the message and is 20 bytes long, the hasher's output
/// size. The message must be shorter than 2^61 bytes, or the hasher's count
/// of bits overflows.
#[verifier::external_body]
fn sha1(message: &[u8]) -> (digest: Vec<u8>)
    requires
        message@.len() < 0x2000_0000_0000_0000,
    ensures
        digest@ == sha1_digest(message@),
        digest@.len() == 20,
{
    <sha1::Sha1 as sha1::Digest>::digest(message).to_vec()
}

/// Calls `Engine::encode` of the `base64` crate on its `STANDARD` engine.
/// Trusted: the result is the base64 encoding of the data, and it is four
/// bytes long for every three bytes of data, the last group filled up by
/// padding: the call makes a buffer of that length and fills all of it. The
/// data must be short enough for that buffer to exist: the call panics where
/// its length cannot be had.
#[verifier::external_body]
fn base64(data: &[u8]) -> (text: Vec<u8>)
    requires
        data@.len() <= usize::MAX / 4,
    ensures
        text@ == base64_encoding(data@),
        text@.len() == 4 * ((data@.len() + 2) / 3),
{
    base64::Engine::encode(&base64::engine::general_purpose::STANDARD, data).into_bytes()
}

/// The fixed string that the protocol appends to a client's key.
pub open spec fn protocol_guid() -> Seq<u8> {
    "258EAFA5-E914-47DA-95CA-C5AB0DC85B11".spec_bytes()
}

/// The accept token for a client's key: the base64 encoding of the SHA-1
/// digest of the key followed by the protocol's fixed string.
pub open spec fn accept_token(key: Seq<u8>) -> Seq<u8> {
    base64_encoding(sha1_digest(key + protocol_guid()))
}

/// The response that accepts an upgrade with the given accept token.
pub open spec fn response_with(token: Seq<u8>) -> Seq<u8> {
    "HTTP/1.1 101 Switching Protocols\r\nUpgrade: websocket\r\nConnection: Upgrade\r\nSec-WebSocket-Accept: ".spec_bytes()
        + token + "\r\n\r\n".spec_bytes()
}

/// Computes the accept token for a client's key. The token is 28 bytes
/// long, the length of the encoding of a digest of 20 bytes.
pub fn accept_key(key: &[u8]) -> (token: Vec<u8>)
    requires
        key@.len() <= MAX_KEY_LENGTH,
    ensures
        token@ == accept_token(key@),
        token@.len() == 28,
{
    let guid: &[u8] = "258EAFA5-E914-47DA-95CA-C5AB0DC85B11".as_bytes();
    proof {
        reveal_strlit("258EAFA5-E914-47DA-95CA-C5AB0DC85B11");
        is_ascii_spec_bytes("258EAFA5-E914-47DA-95CA-C5AB0DC85B11");
    }
    let mut message: Vec<u8> = slice_to_vec(key);
    message.extend_from_slice(guid);
    assert(message@ =~= key@ + protocol_guid());
    let digest: Vec<u8> = sha1(message.as_slice());
    base64(digest.as_slice())
}

/// Builds the response that accepts an upgrade, around an accept token.
pub fn handshake_response(token: &[u8]) -> (response: Vec<u8>)
    ensures
        response@ == response_with(token@),
{
    let mut response: Vec<u8> = slice_to_vec(
        "HTTP/1.1 101 Switching Protocols\r\nUpgrade: websocket\r\nConnection: Upgrade\r\nSec-WebSocket-Accept: ".as_bytes(),
    );
    response.extend_from_slice(token);
    response.extend_from_slice("\r\n\r\n".as_bytes());
    response
}

/// A request for the upgrade: the key that the client sent, taken as an
/// opaque token.
#[derive(Clone, Debug, PartialEq, Eq)]
pub struct HandshakeRequest {
    pub key: Vec<u8>,
}

impl View for HandshakeRequest {
    type V = Seq<u8>;

    open spec fn view(&self) -> Seq<u8> {
        self.key@
    }
}

impl HandshakeRequest {
    /// The key is short enough for an accept token to be computed.
    pub open spec fn wf(&self) -> bool {
        self.key@.len() <= MAX_KEY_LENGTH
    }

    /// Builds the response that accepts the request.
    pub fn response(&self) -> (response: Vec<u8>)
        requires
            self.wf(),
        ensures
            response@ == response_with(accept_token(self@)),
    {
        let token: Vec<u8> = accept_key(self.key.as_slice());
        handshake_response(token.as_slice())
    }
}

} // verus!
