//! Frame codec tests: round trips, chunked decoding, and error cases.

use smtp_tunnel::frames::{Frame, FrameCodec, FrameError, FrameType};

#[test]
fn test_frame_serialize_parse() {
    let frame = Frame::connect(42, "example.com", 443);
    let serialized = frame.serialize();

    let mut codec = FrameCodec;
    let mut buf: Vec<u8> = serialized.clone();
    let decoded = codec.decode(&mut buf).unwrap().unwrap();

    assert_eq!(decoded.frame_type, FrameType::Connect);
    assert_eq!(decoded.channel_id, 42);
    let (host, port) = decoded.parse_connect().unwrap();
    assert_eq!(host, "example.com");
    assert_eq!(port, 443);
}

#[test]
fn test_frame_codec_partial() {
    let mut codec = FrameCodec;
    let mut buf: Vec<u8> = vec![0x01, 0x00, 0x01, 0x00, 0x05];

    assert!(codec.decode(&mut buf).unwrap().is_none());

    buf.extend_from_slice(b"hello");
    let decoded = codec.decode(&mut buf).unwrap().unwrap();

    assert_eq!(decoded.frame_type, FrameType::Data);
    assert_eq!(decoded.channel_id, 1);
    assert_eq!(&decoded.payload[..], b"hello");
}

#[test]
fn test_roundtrip_every_frame_type() {
    let payload: Vec<u8> = (0..300u32).map(|i| (i % 256) as u8).collect();
    let types = [
        FrameType::Data,
        FrameType::Connect,
        FrameType::ConnectOk,
        FrameType::ConnectFail,
        FrameType::Close,
        FrameType::Keepalive,
        FrameType::KeepaliveAck,
    ];
    for t in types {
        let frame = Frame::new(t, 7, payload.clone());
        let mut buf = frame.serialize();
        let mut codec = FrameCodec;
        let decoded = codec.decode(&mut buf).unwrap().unwrap();
        assert_eq!(decoded.frame_type, t);
        assert_eq!(decoded.channel_id, 7);
        assert_eq!(decoded.payload, payload);
        assert!(buf.is_empty());
    }
}

#[test]
fn test_roundtrip_largest_payload() {
    let payload: Vec<u8> = vec![0xAB; 65535];
    let frame = Frame::data(9, payload.clone());
    let mut buf = frame.serialize();
    assert_eq!(buf.len(), 5 + 65535);
    let mut codec = FrameCodec;
    let decoded = codec.decode(&mut buf).unwrap().unwrap();
    assert_eq!(decoded.payload, payload);
}

#[test]
fn test_decode_chunking_invariance() {
    // The same concatenation fed in different chunkings yields the same
    // frame sequence.
    let mut wire: Vec<u8> = Vec::new();
    wire.extend_from_slice(&Frame::data(1, b"abc".to_vec()).serialize());
    wire.extend_from_slice(&Frame::close(2).serialize());
    wire.extend_from_slice(&Frame::data(1, b"defg".to_vec()).serialize());

    let decode_all = |chunks: &[&[u8]]| -> Vec<(FrameType, u16, Vec<u8>)> {
        let mut codec = FrameCodec;
        let mut buf: Vec<u8> = Vec::new();
        let mut out = Vec::new();
        for c in chunks {
            buf.extend_from_slice(c);
            while let Ok(Some(f)) = codec.decode(&mut buf) {
                out.push((f.frame_type, f.channel_id, f.payload));
            }
        }
        out
    };

    let whole = decode_all(&[&wire]);
    let mut parts: Vec<&[u8]> = Vec::new();
    for i in 0..wire.len() {
        parts.push(&wire[i..i + 1]);
    }
    let bytewise = decode_all(&parts);
    let halves = decode_all(&[&wire[..7], &wire[7..]]);

    assert_eq!(whole.len(), 3);
    assert_eq!(whole, bytewise);
    assert_eq!(whole, halves);
}

#[test]
fn test_decode_invalid_type() {
    let mut codec = FrameCodec;
    let mut buf: Vec<u8> = vec![0x09, 0x00, 0x01, 0x00, 0x00];
    match codec.decode(&mut buf) {
        Err(FrameError::InvalidType(t)) => assert_eq!(t, 0x09),
        other => panic!("expected InvalidType, got {:?}", other),
    }
}

#[test]
fn test_parse_connect_rejects() {
    // Not a CONNECT frame.
    let f = Frame::data(1, b"x".to_vec());
    assert!(f.parse_connect().is_none());
    // Truncated payload: host_len says 5 but only 2 host bytes follow.
    let f = Frame::new(FrameType::Connect, 1, vec![5, b'a', b'b']);
    assert!(f.parse_connect().is_none());
    // Host bytes that are not UTF-8.
    let f = Frame::new(FrameType::Connect, 1, vec![2, 0xFF, 0xFE, 0x01, 0xBB]);
    assert!(f.parse_connect().is_none());
}

#[test]
fn test_frame_type_tags() {
    for tag in 1u8..=7u8 {
        let t = FrameType::from_u8(tag).unwrap();
        assert_eq!(t.tag(), tag);
    }
    assert!(FrameType::from_u8(0).is_none());
    assert!(FrameType::from_u8(8).is_none());
}

#[test]
fn test_connect_roundtrip_utf8_host() {
    // Hostnames are UTF-8; the length byte counts encoded bytes.
    let host = "b\u{fc}cher.example";
    assert!(!host.is_ascii());
    let frame = Frame::connect(9, host, 8080);
    assert_eq!(frame.payload[0] as usize, host.len());
    let (parsed, port) = frame.parse_connect().unwrap();
    assert_eq!(parsed, host);
    assert_eq!(port, 8080);
}
