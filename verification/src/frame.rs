//! The frame codec: the wire format of a single frame, decoding of frames
//! that a client sent and encoding of frames that the server sends.

use crate::endian::{
    be_bytes, be_value, lemma_be_bytes_len, lemma_be_bytes_top_bit, lemma_be_value_of_bytes,
    lemma_pow256_values, pow256, push_be, read_be,
};
use vstd::prelude::*;
use vstd::slice::{slice_subrange, slice_to_vec};

verus! {

/// The largest payload length that the 64-bit length field may declare: its
/// most significant bit must be clear.
pub const MAX_PAYLOAD_LENGTH: u64 = 0x7fff_ffff_ffff_ffff;

/// Why a connection ends.
#[derive(Clone, Copy, Debug, PartialEq, Eq, Structural)]
pub enum WsError {
    /// Reading from or writing to the stream failed.
    IoFailure,
    /// The peer closed the stream; the normal end of a session.
    ConnectionClosed,
    /// The peer sent what the protocol or the endpoint's policy forbids.
    ProtocolViolation,
}

/// What a frame is for. `Reserved` carries the four-bit code of an opcode
/// that the protocol has not assigned.
#[derive(Clone, Copy, Debug, PartialEq, Eq, Structural)]
pub enum Opcode {
    Continuation,
    Text,
    Binary,
    Close,
    Ping,
    Pong,
    Reserved(u8),
}

impl Opcode {
    /// The opcode that a four-bit code stands for.
    pub open spec fn of_code(code: nat) -> Opcode {
        if code == 0 {
            Opcode::Continuation
        } else if code == 1 {
            Opcode::Text
        } else if code == 2 {
            Opcode::Binary
        } else if code == 8 {
            Opcode::Close
        } else if code == 9 {
            Opcode::Ping
        } else if code == 10 {
            Opcode::Pong
        } else {
            Opcode::Reserved(code as u8)
        }
    }

    /// The four-bit code of an opcode.
    pub open spec fn code_spec(self) -> nat {
        match self {
            Opcode::Continuation => 0,
            Opcode::Text => 1,
            Opcode::Binary => 2,
            Opcode::Close => 8,
            Opcode::Ping => 9,
            Opcode::Pong => 10,
            Opcode::Reserved(code) => (code % 16) as nat,
        }
    }

    /// A `Reserved` opcode carries a code that has no meaning of its own.
    pub open spec fn wf(self) -> bool {
        match self {
            Opcode::Reserved(code) => 3 <= code <= 7 || 11 <= code <= 15,
            _ => true,
        }
    }

    /// The opcode in the low four bits of the first byte of a frame.
    pub fn from_bits(bits: u8) -> (opcode: Opcode)
        ensures
            opcode == Opcode::of_code((bits % 16) as nat),
            opcode.wf(),
    {
        let code: u8 = bits & 0x0f;
        proof {
            lemma_bit_fields(bits);
        }
        match code {
            0 => Opcode::Continuation,
            1 => Opcode::Text,
            2 => Opcode::Binary,
            8 => Opcode::Close,
            9 => Opcode::Ping,
            10 => Opcode::Pong,
            _ => Opcode::Reserved(code),
        }
    }

    /// The four-bit code of the opcode.
    pub fn code(&self) -> (code: u8)
        ensures
            code == self.code_spec(),
            code < 16,
    {
        match self {
            Opcode::Continuation => 0,
            Opcode::Text => 1,
            Opcode::Binary => 2,
            Opcode::Close => 8,
            Opcode::Ping => 9,
            Opcode::Pong => 10,
            Opcode::Reserved(code) => {
                proof {
                    lemma_bit_fields(*code);
                }
                *code & 0x0f
            },
        }
    }
}

/// Every well-formed opcode is the opcode of its own code, and every
/// four-bit code is the code of its opcode.
pub proof fn lemma_opcode_code(opcode: Opcode, code: nat)
    ensures
        opcode.code_spec() < 16,
        opcode.wf() ==> Opcode::of_code(opcode.code_spec()) == opcode,
        code < 16 ==> Opcode::of_code(code).code_spec() == code && Opcode::of_code(code).wf(),
{
}

/// A decoded frame. The payload is already unmasked and the masking key is
/// gone.
#[derive(Clone, Debug, PartialEq, Eq)]
pub struct Frame {
    /// Whether the frame completes a message.
    pub fin: bool,
    pub opcode: Opcode,
    /// Whether the frame came masked, as every frame of a client must.
    pub masked: bool,
    pub payload_length: u64,
    pub payload: Vec<u8>,
}

/// A frame as a mathematical value.
pub struct FrameView {
    pub fin: bool,
    pub opcode: Opcode,
    pub masked: bool,
    pub payload_length: nat,
    pub payload: Seq<u8>,
}

impl View for Frame {
    type V = FrameView;

    open spec fn view(&self) -> FrameView {
        FrameView {
            fin: self.fin,
            opcode: self.opcode,
            masked: self.masked,
            payload_length: self.payload_length as nat,
            payload: self.payload@,
        }
    }
}

impl FrameView {
    /// The payload has the length that the frame declares.
    pub open spec fn wf(self) -> bool {
        self.payload.len() == self.payload_length && self.opcode.wf()
    }
}

/// `payload` with byte `i` XOR-ed with byte `i mod 4` of the four-byte `key`.
pub open spec fn masked(payload: Seq<u8>, key: Seq<u8>) -> Seq<u8> {
    Seq::new(payload.len(), |i: int| payload[i] ^ key[i % 4])
}

/// Masking twice with one key gives the payload back.
pub proof fn lemma_mask_involutive(payload: Seq<u8>, key: Seq<u8>)
    ensures
        masked(masked(payload, key), key) == payload,
{
    assert forall|i: int| 0 <= i < payload.len() implies masked(masked(payload, key), key)[i]
        == payload[i] by {
        let p: u8 = payload[i];
        let k: u8 = key[i % 4];
        assert((p ^ k) ^ k == p) by (bit_vector);
    }
}

/// Masks or unmasks `payload` in place with `key`.
pub fn apply_mask(payload: &mut Vec<u8>, key: &[u8; 4])
    ensures
        final(payload)@ == masked(old(payload)@, key@),
{
    let ghost before: Seq<u8> = payload@;
    let len: usize = payload.len();
    let mut i: usize = 0;
    while i < len
        invariant
            i <= len,
            payload@.len() == len,
            before.len() == len,
            forall|j: int| 0 <= j < i ==> payload@[j] == before[j] ^ key@[j % 4],
            forall|j: int| i <= j < len ==> payload@[j] == before[j],
        decreases len - i,
    {
        let byte: u8 = payload[i] ^ key[i % 4];
        payload.set(i, byte);
        i += 1;
    }
}

/// The length field of a frame that carries `len` payload bytes and no mask:
/// the length itself up to 125, else 126 and the length in two bytes, else
/// 127 and the length in eight bytes.
pub open spec fn length_field(len: nat) -> Seq<u8> {
    if len <= 125 {
        seq![len as u8]
    } else if len <= 0xffff {
        seq![126u8] + be_bytes(len, 2)
    } else {
        seq![127u8] + be_bytes(len, 8)
    }
}

/// The wire bytes of a single final, unmasked frame: the first byte holds
/// the FIN bit and the opcode, then come the length field and the payload
/// as it is.
pub open spec fn encode_spec(opcode: Opcode, payload: Seq<u8>) -> Seq<u8> {
    seq![(128 + opcode.code_spec()) as u8] + length_field(payload.len()) + payload
}

/// Encodes one final, unmasked frame, as a server sends it. Where the
/// length takes eight bytes and is one that a frame may declare, its top bit
/// is clear.
pub fn encode_frame(opcode: Opcode, payload: &[u8]) -> (wire: Vec<u8>)
    ensures
        wire@ == encode_spec(opcode, payload@),
        0xffff < payload@.len() <= MAX_PAYLOAD_LENGTH ==> wire@[1] == 127 && wire@[2] < 128,
{
    let code: u8 = opcode.code();
    proof {
        lemma_bit_fields(code);
    }
    let mut wire: Vec<u8> = Vec::new();
    wire.push(0x80u8 | code);
    let len: usize = payload.len();
    proof {
        lemma_length_field(opcode, payload@);
    }
    if len <= 125 {
        wire.push(len as u8);
    } else if len <= 0xffff {
        wire.push(126);
        push_be(&mut wire, len as u64, 2);
    } else {
        wire.push(127);
        push_be(&mut wire, len as u64, 8);
    }
    wire.extend_from_slice(payload);
    wire
}

/// The fields of the first two bytes of a frame as numbers: the top bit of a
/// byte is set where the byte is at least 128, its low seven bits are the
/// byte modulo 128, and its low four bits the byte modulo 16.
pub proof fn lemma_bit_fields(b: u8)
    by (bit_vector)
    ensures
        b & 0x80 != 0 <==> b >= 128,
        b & 0x7f == b % 128,
        b & 0x0f == b % 16,
        b < 16 ==> 0x80 | b == 128 + b,
{
}

/// Whether the mask bit of a frame is set: the top bit of its second byte.
/// Speaks of a frame of at least two bytes, as `base_len` does.
pub open spec fn mask_bit(bytes: Seq<u8>) -> bool {
    bytes[1] >= 128
}

/// The seven-bit length in the second byte of a frame.
pub open spec fn base_len(bytes: Seq<u8>) -> int {
    (bytes[1] % 128) as int
}

/// The number of bytes by which the length field extends past the second
/// byte of a frame, given the seven-bit length in that byte.
pub open spec fn extension_len(base: int) -> int {
    if base == 126 {
        2
    } else if base == 127 {
        8
    } else {
        0
    }
}

/// The length of what precedes the masking key: the first two bytes and the
/// extended length. Speaks of a frame of at least two bytes.
pub open spec fn header_len(bytes: Seq<u8>) -> int {
    2 + extension_len(base_len(bytes))
}

/// The payload length that a frame declares: the seven-bit length up to 125,
/// else the big-endian number in the extended length. Speaks of a frame that
/// holds its whole length field.
pub open spec fn declared_len(bytes: Seq<u8>) -> nat {
    if base_len(bytes) <= 125 {
        base_len(bytes) as nat
    } else {
        be_value(bytes.subrange(2, header_len(bytes)))
    }
}

/// The length of the whole frame: header, masking key and payload.
pub open spec fn frame_len(bytes: Seq<u8>) -> int {
    header_len(bytes) + 4 + declared_len(bytes)
}

/// Whether a payload of `len` bytes is accepted under the limit `max`.
pub open spec fn accepts_len(len: nat, max: nat) -> bool {
    len <= max && len <= MAX_PAYLOAD_LENGTH
}

/// Whether the bytes read so far already show that the frame must be
/// rejected: its mask bit is clear, or it declares a payload longer than is
/// accepted.
pub open spec fn violates_protocol(bytes: Seq<u8>, max: nat) -> bool {
    bytes.len() >= 2 && (!mask_bit(bytes) || (bytes.len() >= header_len(bytes) && !accepts_len(
        declared_len(bytes),
        max,
    )))
}

/// How long the prefix of the frame is that the decoder needs for its next
/// decision: the first two bytes, then the extended length, then the masking
/// key, then the payload.
pub open spec fn next_boundary(bytes: Seq<u8>) -> int {
    if bytes.len() < 2 {
        2
    } else if bytes.len() < header_len(bytes) {
        header_len(bytes)
    } else if bytes.len() < header_len(bytes) + 4 {
        header_len(bytes) + 4
    } else {
        frame_len(bytes)
    }
}

/// The frame at the start of `bytes`. Speaks of bytes that hold a whole
/// frame.
pub open spec fn frame_at(bytes: Seq<u8>) -> FrameView {
    let key = bytes.subrange(header_len(bytes), header_len(bytes) + 4);
    let raw = bytes.subrange(header_len(bytes) + 4, frame_len(bytes));
    FrameView {
        fin: bytes[0] >= 128,
        opcode: Opcode::of_code((bytes[0] % 16) as nat),
        masked: mask_bit(bytes),
        payload_length: declared_len(bytes),
        payload: masked(raw, key),
    }
}

/// What decoding the stream that holds `bytes` and then ends gives: the
/// first frame and its length on the wire, or the reason why there is none.
/// A violation is reported as soon as the bytes show it, even if the frame
/// is cut short.
pub open spec fn decode_spec(bytes: Seq<u8>, max: nat) -> Result<(FrameView, int), WsError> {
    if violates_protocol(bytes, max) {
        Err(WsError::ProtocolViolation)
    } else if bytes.len() < next_boundary(bytes) {
        Err(WsError::ConnectionClosed)
    } else {
        Ok((frame_at(bytes), frame_len(bytes)))
    }
}

/// How far the bytes read so far get the decoder.
#[derive(Clone, Copy, Debug, PartialEq, Eq, Structural)]
pub enum Progress {
    /// The decoder needs exactly this many more bytes, at least one, before
    /// it can decide anything new.
    Need(u64),
    /// The bytes start with a whole frame of this length.
    Complete(usize),
    /// The frame is rejected.
    Rejected(WsError),
}

/// Says what the decoder can tell from the first bytes of a frame, and how
/// many bytes it needs next. `max_payload` is the longest payload that the
/// endpoint accepts.
pub fn frame_progress(buf: &[u8], max_payload: u64) -> (progress: Progress)
    ensures
        match progress {
            Progress::Rejected(error) => violates_protocol(buf@, max_payload as nat) && error
                == WsError::ProtocolViolation,
            Progress::Need(count) => !violates_protocol(buf@, max_payload as nat) && buf@.len()
                < next_boundary(buf@) && count == next_boundary(buf@) - buf@.len(),
            Progress::Complete(len) => !violates_protocol(buf@, max_payload as nat) && buf@.len()
                >= next_boundary(buf@) && len == frame_len(buf@),
        },
{
    let have: usize = buf.len();
    if have < 2 {
        return Progress::Need((2 - have) as u64);
    }
    let second: u8 = buf[1];
    proof {
        lemma_bit_fields(second);
    }
    if second & 0x80 == 0 {
        return Progress::Rejected(WsError::ProtocolViolation);
    }
    let base: u8 = second & 0x7f;
    let extension: usize = if base == 126 {
        2
    } else if base == 127 {
        8
    } else {
        0
    };
    if have < 2 + extension {
        return Progress::Need((2 + extension - have) as u64);
    }
    let declared: u64 = if extension == 0 {
        base as u64
    } else {
        read_be(slice_subrange(buf, 2, 2 + extension))
    };
    if declared > max_payload || declared > MAX_PAYLOAD_LENGTH {
        return Progress::Rejected(WsError::ProtocolViolation);
    }
    if have < 2 + extension + 4 {
        return Progress::Need((2 + extension + 4 - have) as u64);
    }
    let total: u64 = declared + (2 + extension + 4) as u64;
    if (have as u64) < total {
        Progress::Need(total - have as u64)
    } else {
        Progress::Complete(total as usize)
    }
}

/// Decodes the frame at the start of `buf`, taking `buf` for all that the
/// stream will ever hold: a frame that is cut short means that the peer
/// closed the stream. Gives the frame and the number of bytes it took.
pub fn decode_frame(buf: &[u8], max_payload: u64) -> (result: Result<(Frame, usize), WsError>)
    ensures
        match decode_spec(buf@, max_payload as nat) {
            Ok((frame, len)) => result matches Ok((decoded, used)) && decoded@ == frame && used
                == len,
            Err(error) => result == Err::<(Frame, usize), WsError>(error),
        },
        result matches Ok((decoded, _)) ==> decoded@.wf(),
{
    match frame_progress(buf, max_payload) {
        Progress::Rejected(error) => Err(error),
        Progress::Need(_) => Err(WsError::ConnectionClosed),
        Progress::Complete(len) => {
            let first: u8 = buf[0];
            let second: u8 = buf[1];
            proof {
                lemma_bit_fields(first);
                lemma_bit_fields(second);
            }
            let base: u8 = second & 0x7f;
            let start: usize = if base == 126 {
                8
            } else if base == 127 {
                14
            } else {
                6
            };
            let key: [u8; 4] = [buf[start - 4], buf[start - 3], buf[start - 2], buf[start - 1]];
            let mut payload: Vec<u8> = slice_to_vec(slice_subrange(buf, start, len));
            apply_mask(&mut payload, &key);
            assert(key@ =~= buf@.subrange(header_len(buf@), header_len(buf@) + 4));
            let frame = Frame {
                fin: first & 0x80 != 0,
                opcode: Opcode::from_bits(first),
                masked: true,
                payload_length: (len - start) as u64,
                payload,
            };
            Ok((frame, len))
        },
    }
}

/// An unmasked frame as a client would send it: the mask bit set, `key`
/// put in after the length field, and the payload masked with `key`.
pub open spec fn with_mask(wire: Seq<u8>, key: Seq<u8>) -> Seq<u8> {
    seq![wire[0], (wire[1] % 128 + 128) as u8] + wire.subrange(2, header_len(wire)) + key + masked(
        wire.skip(header_len(wire)),
        key,
    )
}

/// A frame whose mask bit is clear is rejected as a protocol violation,
/// whatever else it holds and however long it is.
pub proof fn lemma_unmasked_frame_rejected(bytes: Seq<u8>, max: nat)
    requires
        bytes.len() >= 2,
        !mask_bit(bytes),
    ensures
        decode_spec(bytes, max) == Err::<(FrameView, int), WsError>(WsError::ProtocolViolation),
{
}

/// The length field of an encoded frame declares the payload's length, in
/// one byte up to 125, in two more bytes up to 65535, in eight more beyond;
/// and the top bit of an eight-byte length is clear where the length is one
/// that a frame may declare.
pub proof fn lemma_length_field(opcode: Opcode, payload: Seq<u8>)
    requires
        payload.len() < 0x1_0000_0000_0000_0000,
    ensures
        ({
            let wire = encode_spec(opcode, payload);
            &&& wire.len() == header_len(wire) + payload.len()
            &&& wire[0] == 128 + opcode.code_spec()
            &&& !mask_bit(wire)
            &&& declared_len(wire) == payload.len()
            &&& wire.skip(header_len(wire)) == payload
            &&& header_len(wire) == if payload.len() <= 125 {
                2int
            } else if payload.len() <= 0xffff {
                4int
            } else {
                10int
            }
            &&& payload.len() <= 125 ==> wire[1] == payload.len()
            &&& 125 < payload.len() <= 0xffff ==> wire[1] == 126 && wire.subrange(2, 4)
                == be_bytes(payload.len(), 2)
            &&& 0xffff < payload.len() ==> wire[1] == 127 && wire.subrange(2, 10) == be_bytes(
                payload.len(),
                8,
            )
            &&& 0xffff < payload.len() <= MAX_PAYLOAD_LENGTH ==> wire[2] < 128
        }),
{
    let wire = encode_spec(opcode, payload);
    let len = payload.len();
    lemma_pow256_values();
    if len > 0xffff {
        lemma_be_bytes_len(len, 8);
        lemma_be_value_of_bytes(len, 8);
        assert(wire.subrange(2, 10) =~= be_bytes(len, 8));
        if len <= MAX_PAYLOAD_LENGTH {
            assert(pow256(7) == 0x100_0000_0000_0000) by {
                reveal_with_fuel(pow256, 8);
            }
            lemma_be_bytes_top_bit(len, 8);
        }
    } else if len > 125 {
        lemma_be_bytes_len(len, 2);
        lemma_be_value_of_bytes(len, 2);
        assert(wire.subrange(2, 4) =~= be_bytes(len, 2));
    }
}

/// Decoding inverts encoding: an encoded frame, sent with any masking key,
/// decodes to a final frame with the same opcode and the same payload, and
/// the decoder takes all of its bytes. This holds of every payload that is
/// as long as the endpoint accepts.
pub proof fn lemma_decode_inverts_encode(opcode: Opcode, payload: Seq<u8>, key: Seq<u8>, max: nat)
    requires
        opcode.wf(),
        key.len() == 4,
        accepts_len(payload.len(), max),
    ensures
        decode_spec(with_mask(encode_spec(opcode, payload), key), max) == Ok::<
            (FrameView, int),
            WsError,
        >(
            (
                FrameView {
                    fin: true,
                    opcode,
                    masked: true,
                    payload_length: payload.len(),
                    payload,
                },
                (encode_spec(opcode, payload).len() + 4) as int,
            ),
        ),
{
    let wire = encode_spec(opcode, payload);
    let sent = with_mask(wire, key);
    let h = header_len(wire);
    lemma_length_field(opcode, payload);
    lemma_opcode_code(opcode, 0);
    lemma_mask_involutive(payload, key);
    assert(sent.subrange(2, h) =~= wire.subrange(2, h));
    assert(frame_at(sent).payload =~= payload);
}

} // verus!
