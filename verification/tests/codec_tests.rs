use replicated_kv::codec::{
    decode_cmd, decode_msg, decode_reply, encode_cmd, encode_frame, encode_msg, encode_reply,
    FrameBuffer, FrameStep,
};
use replicated_kv::message::{ClientCommand, Message, NetReply};

fn bytes(s: &str) -> Vec<u8> {
    s.as_bytes().to_vec()
}

#[test]
fn cmd_get_round_trips() {
    let c = ClientCommand::Get { key: bytes("k1") };
    let enc = encode_cmd(&c);
    assert_eq!(decode_cmd(&enc), Some(c));
}

#[test]
fn cmd_put_round_trips() {
    let c = ClientCommand::Put { key: bytes("k1"), value: bytes("v1") };
    let enc = encode_cmd(&c);
    assert_eq!(decode_cmd(&enc), Some(c));
}

#[test]
fn cmd_put_empty_fields_round_trips() {
    let c = ClientCommand::Put { key: Vec::new(), value: Vec::new() };
    let enc = encode_cmd(&c);
    assert_eq!(decode_cmd(&enc), Some(c));
}

#[test]
fn every_message_variant_round_trips() {
    let msgs = vec![
        Message::Subscribe { backup_addr: bytes("127.0.0.1:6785") },
        Message::Replicate { key: bytes("K"), value: bytes("V") },
        Message::Forward { cmd: ClientCommand::Get { key: bytes("k") } },
        Message::Forward { cmd: ClientCommand::Put { key: bytes("K2"), value: bytes("V2") } },
        Message::Heartbeat { primary_addr: bytes("127.0.0.1:6783") },
        Message::PrimaryAddress,
    ];
    for m in msgs {
        let enc = encode_msg(&m);
        assert_eq!(decode_msg(&enc), Some(m));
    }
}

#[test]
fn every_reply_variant_round_trips() {
    let replies = vec![
        NetReply::Empty,
        NetReply::Value { value: None },
        NetReply::Value { value: Some(bytes("VALUE")) },
        NetReply::Address { addr: bytes("127.0.0.1:6200") },
    ];
    for r in replies {
        let enc = encode_reply(&r);
        assert_eq!(decode_reply(&enc), Some(r));
    }
}

#[test]
fn trailing_bytes_are_refused() {
    let c = ClientCommand::Get { key: bytes("k1") };
    let mut enc = encode_cmd(&c);
    enc.push(0);
    assert_eq!(decode_cmd(&enc), None);
}

#[test]
fn unknown_tag_is_refused() {
    assert_eq!(decode_cmd(&vec![250u8, 0, 0, 0, 0]), None);
    assert_eq!(decode_msg(&vec![251u8]), None);
    assert_eq!(decode_reply(&vec![252u8]), None);
    assert_eq!(decode_cmd(&Vec::new()), None);
}

#[test]
fn frame_has_big_endian_length_prefix() {
    let payload = vec![0xABu8];
    let framed = encode_frame(&payload);
    assert_eq!(framed, vec![0u8, 0, 0, 1, 0xAB]);
}

#[test]
fn frames_round_trip_through_a_chunked_stream() {
    let first = encode_frame(&bytes("hello"));
    let second = encode_frame(&bytes("world!"));
    let mut stream: Vec<u8> = Vec::new();
    stream.extend_from_slice(&first);
    stream.extend_from_slice(&second);

    let mut buf = FrameBuffer::new();
    // Feed in small chunks: no frame is complete until its last byte arrives.
    let (head, tail) = stream.split_at(3);
    buf.feed(&head.to_vec());
    assert!(matches!(buf.next_frame(), FrameStep::Incomplete));
    buf.feed(&tail.to_vec());
    match buf.next_frame() {
        FrameStep::Frame(p) => assert_eq!(p, bytes("hello")),
        _ => panic!("expected first frame"),
    }
    match buf.next_frame() {
        FrameStep::Frame(p) => assert_eq!(p, bytes("world!")),
        _ => panic!("expected second frame"),
    }
    assert!(matches!(buf.next_frame(), FrameStep::Incomplete));
}

#[test]
fn oversized_length_prefix_is_rejected() {
    let mut buf = FrameBuffer::new();
    // 0xFFFFFFFF far exceeds the 16 MiB cap.
    buf.feed(&vec![0xFFu8, 0xFF, 0xFF, 0xFF]);
    assert!(matches!(buf.next_frame(), FrameStep::TooLong));
}
