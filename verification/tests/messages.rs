//! Cap'n Proto messages.

use mini_cloudflared::capnp_params::{fill_register_connection, PointerValue, StructValue};
use mini_cloudflared::capnp_rpc::{
    build_bootstrap_msg, build_call_msg, decode_connection_response, encode_register_connection,
    strip_framing, ResponseError, METHOD_REGISTER, METHOD_UNREGISTER, METHOD_UPDATE_CONFIG,
    REGISTRATION_SERVER_ID,
};
use mini_cloudflared::segment::SegBuilder;

fn bytes_of(words: &[u64]) -> Vec<u8> {
    words.iter().flat_map(|w| w.to_le_bytes()).collect()
}

fn words_of(bytes: &[u8]) -> Vec<u64> {
    bytes.chunks_exact(8).map(|c| u64::from_le_bytes(c.try_into().unwrap())).collect()
}

fn target(words: &[u64], at: usize) -> usize {
    let distance = ((words[at] as i32) >> 2) as i64;
    (at as i64 + 1 + distance) as usize
}

fn list(words: &[u64], at: usize) -> Vec<u8> {
    assert_eq!(words[at] & 3, 1);
    assert_eq!((words[at] >> 32) & 7, 2);
    let count = (words[at] >> 35) as usize;
    bytes_of(&words[target(words, at)..])[..count].to_vec()
}

#[test]
fn bootstrap_message_bytes() {
    let mut expected = vec![0, 0, 0, 0, 5, 0, 0, 0];
    expected.extend([0, 0, 0, 0, 1, 0, 1, 0]);
    expected.extend([8, 0, 0, 0, 0, 0, 0, 0]);
    expected.extend([0, 0, 0, 0, 1, 0, 1, 0]);
    expected.extend([0x04, 0x03, 0x02, 0x01, 0, 0, 0, 0]);
    expected.extend([0; 8]);
    assert_eq!(build_bootstrap_msg(0x0102_0304), expected);
}

#[test]
fn register_message_reads_back() {
    let secret: Vec<u8> = (0..33).collect();
    let id = [7u8; 16];
    let client = [9u8; 16];
    let features = ["ha-origin", "serialized-headers", ""];
    let msg = encode_register_connection(
        "account", &secret, &id, 3, &client, "2024.11.1", "linux-x86_64", &features,
    );
    let all = words_of(&msg);
    assert_eq!(msg.len(), 8 * all.len());
    assert_eq!(all[0] as u32, 0);
    assert_eq!((all[0] >> 32) as usize, all.len() - 1);
    assert_eq!(all[1], 0x0003_0001_0000_0000);
    let w = &all[2..];
    assert_eq!(w[0], 3);
    let auth = target(w, 1);
    assert_eq!(w[1] >> 32, 0x0002_0000);
    assert_eq!(list(w, auth), b"account\0");
    assert_eq!(list(w, auth + 1), secret);
    assert_eq!(list(w, 2), id);
    let options = target(w, 3);
    assert_eq!(w[3] >> 32, 0x0002_0001);
    assert_eq!(w[options], 0);
    assert_eq!(w[options + 2], 0);
    let info = target(w, options + 1);
    assert_eq!(w[options + 1] >> 32, 0x0004_0000);
    assert_eq!(list(w, info), client);
    assert_eq!(list(w, info + 2), b"2024.11.1\0");
    assert_eq!(list(w, info + 3), b"linux-x86_64\0");
    assert_eq!(w[info + 1] & 3, 1);
    assert_eq!((w[info + 1] >> 32) & 7, 6);
    assert_eq!(w[info + 1] >> 35, 3);
    let at = target(w, info + 1);
    assert_eq!(list(w, at), b"ha-origin\0");
    assert_eq!(list(w, at + 1), b"serialized-headers\0");
    assert_eq!(list(w, at + 2), b"\0");
}

#[test]
fn register_message_without_anything() {
    let msg = encode_register_connection("", &[], &[0; 16], 0, &[0; 16], "", "", &[]);
    let w = &words_of(&msg)[2..];
    let auth = target(w, 1);
    assert_eq!(list(w, auth), b"\0");
    assert_eq!(list(w, auth + 1), b"");
    let info = target(w, target(w, 3) + 1);
    assert_eq!(w[info + 1] >> 35, 0);
    assert_eq!(w.last(), Some(&0));
}

#[test]
fn stripping_undoes_framing() {
    let mut seg = SegBuilder::new();
    let at = seg.alloc_raw(&[1, 2, 0xffff_ffff_ffff_ffff]);
    assert_eq!(at, 0);
    let msg = seg.finish(0, 1, 2);
    assert_eq!(strip_framing(&msg), vec![1, 2, 0xffff_ffff_ffff_ffff]);
}

#[test]
fn stripping_short_messages() {
    assert_eq!(strip_framing(&[]), Vec::<u64>::new());
    assert_eq!(strip_framing(&[0; 15]), Vec::<u64>::new());
    assert_eq!(strip_framing(&[0; 16]), Vec::<u64>::new());
    assert_eq!(strip_framing(&[0; 23]), Vec::<u64>::new());
    assert_eq!(strip_framing(&[0; 25]), vec![0]);
    // Two segments: the header has two words.
    let mut two = bytes_of(&[1, 0, 0, 42]);
    assert_eq!(strip_framing(&two), vec![42]);
    two.truncate(24);
    assert_eq!(strip_framing(&two), Vec::<u64>::new());
    assert_eq!(strip_framing(&[0xff; 64]), Vec::<u64>::new());
}

#[test]
fn call_message_carries_parameters() {
    let params = encode_register_connection("a", b"s", &[1; 16], 0, &[2; 16], "v", "x", &["f"]);
    let body = strip_framing(&params);
    let msg = build_call_msg(5, &params);
    let w = &words_of(&msg)[2..];
    assert_eq!(w[0], 2);
    let call = target(w, 1);
    assert_eq!(call, 2);
    assert_eq!(w[call] as u32, 5);
    assert_eq!((w[call] >> 32) as u16, METHOD_REGISTER);
    assert_eq!(w[call + 1], REGISTRATION_SERVER_ID);
    assert_eq!(w[call + 2], 0);
    let goal = target(w, call + 3);
    assert_eq!(w[goal], 0);
    let payload = target(w, call + 4);
    let content = target(w, payload);
    assert_eq!(w[payload] >> 32, 0x0003_0001);
    assert_eq!(&w[content..content + body.len()], &body[..]);
    assert_eq!(target(w, goal + 1), goal + 2);
    assert_eq!(METHOD_UNREGISTER, 1);
    assert_eq!(METHOD_UPDATE_CONFIG, 2);
}

fn response(variant: u64, slot: usize, pointer: u64, tail: &[u8]) -> Vec<u8> {
    let mut words = vec![0, 0x0002_0001_0000_0000, variant, 0, 0];
    words[3 + slot] = pointer;
    let mut msg = bytes_of(&words);
    msg.extend_from_slice(tail);
    msg
}

fn byte_list(distance: i64, count: u64) -> u64 {
    (((distance << 2) | 1) as u32 as u64) | (count << 35) | (2 << 32)
}

#[test]
fn response_with_location() {
    let msg = bytes_of(&[
        0x0000_0005_0000_0000,
        0x0002_0001_0000_0000,
        1,
        0,
        0x0000_0012_0000_0001,
        0x4c,
    ]);
    assert_eq!(decode_connection_response(&msg).unwrap(), "L");
    let msg = response(1, 1, byte_list(1, 4), b"........LHR\0....");
    assert_eq!(decode_connection_response(&msg).unwrap(), "LHR");
    let msg = response(1, 1, byte_list(0, 6), "\u{e9}t\u{e9}\0...".as_bytes());
    assert_eq!(decode_connection_response(&msg).unwrap(), "\u{e9}t\u{e9}");
    let msg = response(1, 1, byte_list(0, 3), b"\xff\xfe\0");
    assert_eq!(decode_connection_response(&msg).unwrap(), "\u{fffd}\u{fffd}");
    let msg = response(1, 1, 0, b"");
    assert_eq!(decode_connection_response(&msg).unwrap(), "");
    let msg = response(1, 1, byte_list(0, 0), b"");
    assert_eq!(decode_connection_response(&msg).unwrap(), "");
}

#[test]
fn response_with_unreadable_location() {
    for pointer in [byte_list(0, 4), byte_list(-9, 1), 4, 1 | (3 << 32)] {
        let msg = response(1, 1, pointer, b"");
        assert_eq!(decode_connection_response(&msg).unwrap(), "unknown");
    }
}

#[test]
fn response_with_rejection() {
    let msg = response(0, 0, byte_list(1, 7), b"no way\0");
    let e = decode_connection_response(&msg).unwrap_err();
    assert_eq!(e.message(), "Edge rejected connection: no way");
    assert!(matches!(e, ResponseError::Rejected(_)));
    let e = decode_connection_response(&response(0, 0, 2, b"")).unwrap_err();
    assert_eq!(e.message(), "Edge rejected connection: unknown error");
}

#[test]
fn response_that_was_built_is_read() {
    let mut seg = SegBuilder::new();
    let filler = seg.alloc_struct(1, 1);
    let s = seg.alloc_struct(1, 2);
    let t = seg.alloc_text("Lisbon");
    seg.set_u16(s.data_w, 0, 1);
    seg.set_text_ptr(s.ptr_w, 1, t, 7);
    assert_eq!((filler.data_w, s.data_w), (0, 2));
    let msg = seg.finish(s.data_w, 1, 2);
    assert_eq!(words_of(&msg)[1], 0x0002_0001_0000_0008);
    assert_eq!(decode_connection_response(&msg).unwrap(), "Lisbon");
}

#[test]
fn response_that_is_none() {
    let e = decode_connection_response(&[0; 23]).unwrap_err();
    assert_eq!(e.message(), "ConnectionResponse too short: 23 bytes");
    let e = decode_connection_response(&bytes_of(&[0, 3, 0])).unwrap_err();
    assert_eq!(e.message(), "Root is not a struct pointer: type=3");
    let e = decode_connection_response(&bytes_of(&[0, 0x0002_0001_0000_0000, 0])).unwrap_err();
    assert_eq!(e.message(), "ConnectionResponse struct out of bounds");
    let e = decode_connection_response(&bytes_of(&[0, 0xffff_fff0, 0])).unwrap_err();
    assert_eq!(e.message(), "ConnectionResponse struct out of bounds");
    let e = decode_connection_response(&response(700, 0, 0, b"")).unwrap_err();
    assert_eq!(e.message(), "Unknown ConnectionResponse discriminant: 700");
}

fn pointers(p: &PointerValue) -> &StructValue {
    match p {
        PointerValue::Struct(s) => s,
        other => panic!("{:?}", other),
    }
}

fn text(p: &PointerValue) -> &str {
    match p {
        PointerValue::Text(t) => t,
        other => panic!("{:?}", other),
    }
}

fn data(p: &PointerValue) -> &[u8] {
    match p {
        PointerValue::Data(d) => d,
        other => panic!("{:?}", other),
    }
}

#[test]
fn parameters_stand_in_their_slots() {
    let p = fill_register_connection(
        "account", b"secret", &[1; 16], 4, &[2; 16], "v1", "linux-arm", &["a", "b"],
    );
    assert_eq!(p.data, [4, 0, 0, 0, 0, 0, 0, 0]);
    assert_eq!(p.pointers.len(), 3);
    let auth = pointers(&p.pointers[0]);
    assert!(auth.data.is_empty());
    assert_eq!(auth.pointers.len(), 2);
    assert_eq!(text(&auth.pointers[0]), "account");
    assert_eq!(data(&auth.pointers[1]), b"secret");
    assert_eq!(data(&p.pointers[1]), [1; 16]);
    let options = pointers(&p.pointers[2]);
    assert_eq!(options.data, [0; 8]);
    assert_eq!(options.pointers.len(), 2);
    assert!(matches!(options.pointers[1], PointerValue::Null));
    let client = pointers(&options.pointers[0]);
    assert!(client.data.is_empty());
    assert_eq!(client.pointers.len(), 4);
    assert_eq!(data(&client.pointers[0]), [2; 16]);
    match &client.pointers[1] {
        PointerValue::Texts(list) => assert_eq!(list, &["a", "b"]),
        other => panic!("{:?}", other),
    }
    assert_eq!(text(&client.pointers[2]), "v1");
    assert_eq!(text(&client.pointers[3]), "linux-arm");
}

#[test]
fn segment_values_stand_in_their_bytes() {
    let mut seg = SegBuilder::new();
    let s = seg.alloc_struct(2, 1);
    assert_eq!((s.data_w, s.ptr_w), (0, 2));
    seg.set_u8(0, 7, 0xab);
    seg.set_u16(0, 2, 0x1234);
    seg.set_u32(1, 4, 0xdead_beef);
    let t = seg.alloc_text("eight...");
    assert_eq!(t, 3);
    seg.set_text_ptr(2, 0, t, 9);
    seg.set_u64(4, 0x0102_0304_0506_0708);
    assert_eq!(seg.alloc_ptr_list(0), 5);
    assert_eq!(seg.alloc_data(&[1, 2, 3]), 6);
    let w = words_of(&seg.finish(0, 2, 1));
    assert_eq!(w[2], 0xab00_0000_1234_0000);
    assert_eq!(w[3], 0xdead_beef_0000_0000);
    assert_eq!(w[4], byte_list(0, 9));
    assert_eq!(w[5], u64::from_le_bytes(*b"eight..."));
    assert_eq!(w[6], 0x0102_0304_0506_0708);
    assert_eq!(w[7], 0);
    assert_eq!(w[8], 0x03_02_01);
}
