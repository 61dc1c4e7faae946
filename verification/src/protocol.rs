//! Frames that multiplex streams over one tunnel connection.

use bytes::Bytes;
use vstd::prelude::*;
use vstd::string::*;
use crate::buffers;
use crate::text;

verus! {

/// What a frame is for.
#[derive(Debug, Clone, Copy, PartialEq, Eq, Structural)]
pub enum Opcode {
    HttpRequest,
    HttpResponse,
    StreamOpen,
    StreamData,
    StreamClose,
    Ping,
    Pong,
    Register,
    RegisterAck,
    Error,
}

/// Why bytes are no frame.
#[derive(Debug, Clone, Copy, PartialEq, Eq, Structural)]
pub enum FrameError {
    /// No opcode has this number.
    UnknownOpcode(u8),
    /// There are only this many bytes, fewer than a frame header.
    TooShort(usize),
    /// The header announces more payload bytes than there are.
    Truncated { expected: usize, got: usize },
}

impl Opcode {
    /// The number of the opcode on the wire.
    pub open spec fn spec_code(self) -> u8 {
        match self {
            Opcode::HttpRequest => 0x01,
            Opcode::HttpResponse => 0x02,
            Opcode::StreamOpen => 0x03,
            Opcode::StreamData => 0x04,
            Opcode::StreamClose => 0x05,
            Opcode::Ping => 0x06,
            Opcode::Pong => 0x07,
            Opcode::Register => 0x08,
            Opcode::RegisterAck => 0x09,
            Opcode::Error => 0xFF,
        }
    }

    /// The number of the opcode on the wire.
    pub fn code(self) -> (c: u8)
        ensures
            c == self.spec_code(),
    {
        match self {
            Opcode::HttpRequest => 0x01,
            Opcode::HttpResponse => 0x02,
            Opcode::StreamOpen => 0x03,
            Opcode::StreamData => 0x04,
            Opcode::StreamClose => 0x05,
            Opcode::Ping => 0x06,
            Opcode::Pong => 0x07,
            Opcode::Register => 0x08,
            Opcode::RegisterAck => 0x09,
            Opcode::Error => 0xFF,
        }
    }
}

/// The opcode with the given number.
pub open spec fn opcode_of(v: u8) -> Result<Opcode, FrameError> {
    if v == 0x01 {
        Ok(Opcode::HttpRequest)
    } else if v == 0x02 {
        Ok(Opcode::HttpResponse)
    } else if v == 0x03 {
        Ok(Opcode::StreamOpen)
    } else if v == 0x04 {
        Ok(Opcode::StreamData)
    } else if v == 0x05 {
        Ok(Opcode::StreamClose)
    } else if v == 0x06 {
        Ok(Opcode::Ping)
    } else if v == 0x07 {
        Ok(Opcode::Pong)
    } else if v == 0x08 {
        Ok(Opcode::Register)
    } else if v == 0x09 {
        Ok(Opcode::RegisterAck)
    } else if v == 0xFF {
        Ok(Opcode::Error)
    } else {
        Err(FrameError::UnknownOpcode(v))
    }
}

impl TryFrom<u8> for Opcode {
    type Error = FrameError;

    fn try_from(v: u8) -> (r: Result<Self, FrameError>) {
        match v {
            0x01 => Ok(Opcode::HttpRequest),
            0x02 => Ok(Opcode::HttpResponse),
            0x03 => Ok(Opcode::StreamOpen),
            0x04 => Ok(Opcode::StreamData),
            0x05 => Ok(Opcode::StreamClose),
            0x06 => Ok(Opcode::Ping),
            0x07 => Ok(Opcode::Pong),
            0x08 => Ok(Opcode::Register),
            0x09 => Ok(Opcode::RegisterAck),
            0xFF => Ok(Opcode::Error),
            other => Err(FrameError::UnknownOpcode(other)),
        }
    }
}

impl vstd::std_specs::convert::TryFromSpecImpl<u8> for Opcode {
    open spec fn obeys_try_from_spec() -> bool {
        true
    }

    open spec fn try_from_spec(v: u8) -> Result<Self, FrameError> {
        opcode_of(v)
    }
}

/// One frame of the tunnel.
#[derive(Debug)]
pub struct TunnelFrame {
    pub opcode: Opcode,
    pub stream_id: u32,
    pub payload: Bytes,
}

impl Clone for TunnelFrame {
    fn clone(&self) -> (r: Self)
        ensures
            r.opcode == self.opcode,
            r.stream_id == self.stream_id,
            buffers::held(r.payload) == buffers::held(self.payload),
    {
        TunnelFrame {
            opcode: self.opcode,
            stream_id: self.stream_id,
            payload: buffers::bytes_clone(&self.payload),
        }
    }
}

/// The bytes of a frame: opcode, stream, payload length and payload. The
/// length takes four bytes: what does not fit is cut off.
pub open spec fn frame_bytes(opcode: Opcode, stream_id: u32, payload: Seq<u8>) -> Seq<u8> {
    seq![opcode.spec_code()] + buffers::be32(stream_id) + buffers::be32(
        (payload.len() % 0x1_0000_0000) as u32,
    ) + payload
}

impl TunnelFrame {
    /// Makes a frame of its parts.
    pub fn new(opcode: Opcode, stream_id: u32, payload: Bytes) -> (f: Self)
        ensures
            f.opcode == opcode,
            f.stream_id == stream_id,
            f.payload == payload,
    {
        TunnelFrame { opcode, stream_id, payload }
    }

    /// Writes the frame down.
    pub fn encode(&self) -> (out: Bytes)
        requires
            9 + buffers::held(self.payload).len() <= isize::MAX,
        ensures
            buffers::held(out) == frame_bytes(
                self.opcode,
                self.stream_id,
                buffers::held(self.payload),
            ),
    {
        let len = buffers::bytes_len(&self.payload);
        let mut buf = buffers::buffer_with_capacity(9 + len);
        buffers::buffer_put_u8(&mut buf, self.opcode.code());
        buffers::buffer_put_u32(&mut buf, self.stream_id);
        buffers::buffer_put_u32(&mut buf, (len as u64 % 0x1_0000_0000) as u32);
        buffers::buffer_put_slice(&mut buf, buffers::bytes_slice(&self.payload));
        assert(buffers::buffered(buf) =~= frame_bytes(
            self.opcode,
            self.stream_id,
            buffers::held(self.payload),
        ));
        buffers::buffer_freeze(buf)
    }

    /// Reads a frame from the start of `data`; what stands behind its payload
    /// is left unread.
    pub fn decode(data: Bytes) -> (r: Result<TunnelFrame, FrameError>)
        ensures
            decoded(buffers::held(data)) == match r {
                Ok(f) => Ok((f.opcode, f.stream_id, buffers::held(f.payload))),
                Err(e) => Err(e),
            },
    {
        let mut data = data;
        let ghost all = buffers::held(data);
        let len = buffers::bytes_len(&data);
        if len < 9 {
            return Err(FrameError::TooShort(len));
        }
        let opcode = match Opcode::try_from(buffers::bytes_get_u8(&mut data)) {
            Ok(opcode) => opcode,
            Err(e) => {
                return Err(e);
            },
        };
        let stream_id = buffers::bytes_get_u32(&mut data);
        let payload_len = buffers::bytes_get_u32(&mut data) as usize;
        let got = buffers::bytes_remaining(&data);
        assert(buffers::held(data) =~= all.skip(9));
        if got < payload_len {
            return Err(FrameError::Truncated { expected: payload_len, got });
        }
        let payload = buffers::bytes_split(&mut data, payload_len);
        assert(buffers::held(payload) =~= all.subrange(9, 9 + payload_len));
        Ok(TunnelFrame { opcode, stream_id, payload })
    }
}

/// The frame at the start of `data`: its opcode, stream and payload.
pub open spec fn decoded(data: Seq<u8>) -> Result<(Opcode, u32, Seq<u8>), FrameError> {
    let expected = buffers::from_be32(data.skip(5));
    if data.len() < 9 {
        Err(FrameError::TooShort(data.len() as usize))
    } else {
        match opcode_of(data[0]) {
            Err(e) => Err(e),
            Ok(opcode) => if data.len() - 9 < expected {
                Err(
                    FrameError::Truncated {
                        expected: expected as usize,
                        got: (data.len() - 9) as usize,
                    },
                )
            } else {
                Ok(
                    (
                        opcode,
                        buffers::from_be32(data.skip(1)),
                        data.subrange(9, 9 + expected),
                    ),
                )
            },
        }
    }
}

impl FrameError {
    /// What the error says.
    pub open spec fn spec_message(self) -> Seq<char> {
        match self {
            FrameError::UnknownOpcode(v) => "Unknown opcode: 0x"@ + text::hex_byte(v),
            FrameError::TooShort(n) => "Frame too short: "@ + text::decimal(n as nat) + " bytes"@,
            FrameError::Truncated { expected, got } => "Truncated payload: expected "@
                + text::decimal(expected as nat) + ", got "@ + text::decimal(got as nat),
        }
    }

    /// What the error says.
    pub fn message(&self) -> (r: String)
        ensures
            r@ == self.spec_message(),
    {
        match *self {
            FrameError::UnknownOpcode(v) => {
                let mut r = "Unknown opcode: 0x".to_string();
                r.append(text::hex_byte_text(v).as_str());
                r
            },
            FrameError::TooShort(n) => {
                let mut r = "Frame too short: ".to_string();
                r.append(text::decimal_text(n as u64).as_str());
                r.append(" bytes");
                r
            },
            FrameError::Truncated { expected, got } => {
                let mut r = "Truncated payload: expected ".to_string();
                r.append(text::decimal_text(expected as u64).as_str());
                r.append(", got ");
                r.append(text::decimal_text(got as u64).as_str());
                r
            },
        }
    }
}

/// An opcode and its number name each other.
pub proof fn law_opcode_numbers(opcode: Opcode, v: u8)
    ensures
        opcode_of(opcode.spec_code()) == Ok::<Opcode, FrameError>(opcode),
        opcode_of(v) matches Ok(o) ==> o.spec_code() == v,
        opcode_of(v) is Err ==> opcode_of(v) == Err::<Opcode, FrameError>(
            FrameError::UnknownOpcode(v),
        ),
{
}

/// The numbers of the opcodes on the wire.
pub proof fn law_opcode_table()
    ensures
        Opcode::HttpRequest.spec_code() == 1,
        Opcode::HttpResponse.spec_code() == 2,
        Opcode::StreamOpen.spec_code() == 3,
        Opcode::StreamData.spec_code() == 4,
        Opcode::StreamClose.spec_code() == 5,
        Opcode::Ping.spec_code() == 6,
        Opcode::Pong.spec_code() == 7,
        Opcode::Register.spec_code() == 8,
        Opcode::RegisterAck.spec_code() == 9,
        Opcode::Error.spec_code() == 255,
{
}

/// Four bytes as a number, the highest byte first.
pub open spec fn number_at(b: Seq<u8>, at: int) -> int {
    b[at] * 0x100_0000 + b[at + 1] * 0x1_0000 + b[at + 2] * 0x100 + b[at + 3]
}

/// How a frame stands on the wire: the number of its opcode in the first byte,
/// the stream in the next four, the length of the payload in the next four, the
/// highest byte first, and then each byte of the payload.
#[verifier::spinoff_prover]
pub proof fn law_frame_layout(opcode: Opcode, stream_id: u32, payload: Seq<u8>)
    ensures
        ({
            let b = frame_bytes(opcode, stream_id, payload);
            &&& b.len() == 9 + payload.len()
            &&& b[0] == opcode.spec_code()
            &&& number_at(b, 1) == stream_id
            &&& number_at(b, 5) == payload.len() % 0x1_0000_0000
            &&& forall|i: int| 0 <= i < payload.len() ==> b[9 + i] == #[trigger] payload[i]
        }),
{
    let len = (payload.len() % 0x1_0000_0000) as u32;
    let b = frame_bytes(opcode, stream_id, payload);
    let s = buffers::be32(stream_id);
    let n = buffers::be32(len);
    assert(b[1] == s[0] && b[2] == s[1] && b[3] == s[2] && b[4] == s[3]);
    assert(b[5] == n[0] && b[6] == n[1] && b[7] == n[2] && b[8] == n[3]);
    lemma_number(stream_id);
    lemma_number(len);
}

/// The bytes of a number, the highest first.
#[verifier::spinoff_prover]
proof fn lemma_number(v: u32)
    ensures
        number_at(buffers::be32(v), 0) == v,
{
    assert(v == (v / 0x100_0000) * 0x100_0000 + (v / 0x1_0000 % 0x100) * 0x1_0000 + (v / 0x100
        % 0x100) * 0x100 + v % 0x100) by (bit_vector);
}

/// What is read at the start of bytes: nothing where they are fewer than nine; an
/// error with the first byte where no opcode has that number; an error with both
/// lengths where less follows than is announced; and else the stream and the
/// payload, byte by byte.
#[verifier::spinoff_prover]
pub proof fn law_decoded(data: Seq<u8>)
    requires
        data.len() <= usize::MAX,
    ensures
        ({
            let announced = number_at(data, 5);
            let known = 1 <= data[0] <= 9 || data[0] == 255;
            match decoded(data) {
                Err(FrameError::TooShort(n)) => data.len() < 9 && n == data.len(),
                Err(FrameError::UnknownOpcode(v)) => data.len() >= 9 && !known && v == data[0],
                Err(FrameError::Truncated { expected, got }) => data.len() >= 9 && known && got + 9
                    == data.len() && expected as int == announced && got < announced,
                Ok((opcode, stream_id, payload)) => {
                    &&& data.len() >= 9 + announced
                    &&& opcode.spec_code() == data[0]
                    &&& stream_id == number_at(data, 1)
                    &&& payload.len() == announced
                    &&& forall|i: int|
                        0 <= i < payload.len() ==> #[trigger] payload[i] == data[9 + i]
                },
            }
        }),
{
    if data.len() >= 9 {
        let s = data.skip(1);
        let n = data.skip(5);
        assert(s[0] == data[1] && s[1] == data[2] && s[2] == data[3] && s[3] == data[4]);
        assert(n[0] == data[5] && n[1] == data[6] && n[2] == data[7] && n[3] == data[8]);
        law_opcode_numbers(Opcode::Ping, data[0]);
    }
}

/// A frame that was written down reads back as it was, whatever stands behind
/// it, as long as the length of its payload fits in four bytes.
#[verifier::spinoff_prover]
#[verifier::rlimit(40)]
pub proof fn law_decode_undoes_encode(
    opcode: Opcode,
    stream_id: u32,
    payload: Seq<u8>,
    rest: Seq<u8>,
)
    requires
        payload.len() <= u32::MAX,
    ensures
        decoded(frame_bytes(opcode, stream_id, payload) + rest) == Ok::<_, FrameError>(
            (opcode, stream_id, payload),
        ),
{
    let len = payload.len() as u32;
    let data = frame_bytes(opcode, stream_id, payload) + rest;
    assert(buffers::from_be32(data.skip(1)) == stream_id) by {
        assert(data.subrange(1, 5) =~= buffers::be32(stream_id));
        buffers::lemma_be32_at(data, 1, stream_id);
    }
    assert(buffers::from_be32(data.skip(5)) == len) by {
        assert(data.subrange(5, 9) =~= buffers::be32(len));
        buffers::lemma_be32_at(data, 5, len);
    }
    assert(data[0] == opcode.spec_code());
    law_opcode_numbers(opcode, 0);
    assert(data.subrange(9, 9 + len) =~= payload);
}

/// What reads as a frame is how that frame is written down, and the rest.
#[verifier::spinoff_prover]
pub proof fn law_encode_undoes_decode(data: Seq<u8>)
    requires
        decoded(data) is Ok,
    ensures
        ({
            let (opcode, stream_id, payload) = decoded(data)->Ok_0;
            frame_bytes(opcode, stream_id, payload) == data.take(9 + payload.len() as int)
        }),
{
    let (opcode, stream_id, payload) = decoded(data)->Ok_0;
    law_opcode_numbers(opcode, data[0]);
    buffers::lemma_from_be32(data.skip(1));
    buffers::lemma_from_be32(data.skip(5));
    assert(frame_bytes(opcode, stream_id, payload) =~= data.take(9 + payload.len() as int));
}

/// What describes a proxied request.
#[derive(Debug, Clone)]
pub struct HttpRequestMeta {
    pub method: String,
    pub url: String,
    pub headers: Vec<(String, String)>,
}

/// What describes the answer to a proxied request.
#[derive(Debug, Clone)]
pub struct HttpResponseMeta {
    pub status: u16,
    pub headers: Vec<(String, String)>,
}

/// What a connector tells about itself.
#[derive(Debug, Clone)]
pub struct RegistrationPayload {
    pub connector_id: String,
    pub tunnel_token: Option<String>,
    pub version: String,
    pub arch: String,
    pub features: Vec<String>,
}

impl RegistrationPayload {
    /// The payload of this version of the connector on the architecture `arch`.
    pub fn new(connector_id: String, tunnel_token: Option<String>, arch: String) -> (p: Self)
        ensures
            p.connector_id == connector_id,
            p.tunnel_token == tunnel_token,
            p.version@ == "mini-cloudflared/0.1.0"@,
            p.arch == arch,
            p.features@.len() == 2,
            p.features@[0]@ == "http2"@,
            p.features@[1]@ == "quic"@,
    {
        RegistrationPayload {
            connector_id,
            tunnel_token,
            version: "mini-cloudflared/0.1.0".to_string(),
            arch,
            features: vec!["http2".to_string(), "quic".to_string()],
        }
    }
}

} // verus!
