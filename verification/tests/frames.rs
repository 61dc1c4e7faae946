//! Frames of the tunnel protocol.

use bytes::Bytes;
use mini_cloudflared::protocol::{
    FrameError, HttpRequestMeta, HttpResponseMeta, Opcode, RegistrationPayload, TunnelFrame,
};

const OPCODES: [(Opcode, u8); 10] = [
    (Opcode::HttpRequest, 0x01),
    (Opcode::HttpResponse, 0x02),
    (Opcode::StreamOpen, 0x03),
    (Opcode::StreamData, 0x04),
    (Opcode::StreamClose, 0x05),
    (Opcode::Ping, 0x06),
    (Opcode::Pong, 0x07),
    (Opcode::Register, 0x08),
    (Opcode::RegisterAck, 0x09),
    (Opcode::Error, 0xff),
];

#[test]
fn opcodes_have_their_numbers() {
    for (opcode, number) in OPCODES {
        assert_eq!(opcode.code(), number);
        assert_eq!(Opcode::try_from(number).unwrap(), opcode);
    }
    for number in 0..=255u8 {
        let known = OPCODES.iter().any(|o| o.1 == number);
        assert_eq!(Opcode::try_from(number).is_ok(), known);
    }
    let e = Opcode::try_from(0x0a).unwrap_err();
    assert_eq!(e.message(), "Unknown opcode: 0x0a");
}

#[test]
fn frame_bytes_are_big_endian() {
    let f = TunnelFrame::new(Opcode::StreamData, 0x0102_0304, Bytes::from_static(b"abc"));
    assert_eq!(&f.encode()[..], &[4, 1, 2, 3, 4, 0, 0, 0, 3, b'a', b'b', b'c']);
}

#[test]
fn decoding_undoes_encoding() {
    for (opcode, _) in OPCODES {
        for payload in [&b""[..], b"x", &[0xff; 300]] {
            let f = TunnelFrame::new(opcode, 0xffff_fffe, Bytes::copy_from_slice(payload));
            let g = TunnelFrame::decode(f.clone().encode()).unwrap();
            assert_eq!(g.opcode, opcode);
            assert_eq!(g.stream_id, 0xffff_fffe);
            assert_eq!(&g.payload[..], payload);
        }
    }
}

#[test]
fn bytes_behind_the_payload_are_dropped() {
    let data = Bytes::from_static(&[6, 0, 0, 0, 1, 0, 0, 0, 1, 42, 43, 44]);
    let f = TunnelFrame::decode(data).unwrap();
    assert_eq!(f.opcode, Opcode::Ping);
    assert_eq!(f.stream_id, 1);
    assert_eq!(&f.payload[..], &[42]);
    assert_eq!(&f.encode()[..], &[6, 0, 0, 0, 1, 0, 0, 0, 1, 42]);
}

#[test]
fn frames_that_are_none() {
    let e = TunnelFrame::decode(Bytes::from_static(&[1; 8])).unwrap_err();
    assert_eq!(e.message(), "Frame too short: 8 bytes");
    assert!(matches!(e, FrameError::TooShort(8)));
    let e = TunnelFrame::decode(Bytes::from_static(&[0x10; 9])).unwrap_err();
    assert_eq!(e.message(), "Unknown opcode: 0x10");
    let e = TunnelFrame::decode(Bytes::from_static(&[1, 0, 0, 0, 0, 0, 0, 1, 0, 7])).unwrap_err();
    assert_eq!(e.message(), "Truncated payload: expected 256, got 1");
}

#[test]
fn registration_payload_values() {
    let p = RegistrationPayload::new("id".to_string(), None, "x86_64".to_string());
    assert_eq!(p.connector_id, "id");
    assert_eq!(p.tunnel_token, None);
    assert_eq!(p.version, "mini-cloudflared/0.1.0");
    assert_eq!(p.arch, "x86_64");
    assert_eq!(p.features, ["http2", "quic"]);
    let p = RegistrationPayload::new(String::new(), Some("t".to_string()), String::new());
    assert_eq!(p.tunnel_token.as_deref(), Some("t"));
}

#[test]
fn metadata_is_plain_data() {
    let q = HttpRequestMeta {
        method: "GET".to_string(),
        url: "/".to_string(),
        headers: vec![("a".to_string(), "b".to_string())],
    };
    assert_eq!(q.clone().headers, q.headers);
    let r = HttpResponseMeta { status: 200, headers: vec![] };
    assert_eq!(r.clone().status, 200);
}
