//! Multiplexer tests: channel lifecycle, ordering across channels, fatal
//! frames, and the SOCKS5 ingress path.

use smtp_tunnel::frames::{Frame, FrameError, FrameType};
use smtp_tunnel::ipaddr::IpAddress;
use smtp_tunnel::mux::{split_data_frames, ChannelMux, KeepaliveAction, KeepalivePolicy, MuxEvent};
use smtp_tunnel::socks5::{
    encode_reply, greeting_reply, parse_greeting, parse_request, GreetingParse, Reply,
    RequestParse,
};

/// Deterministic pseudo-random bytes.
fn noise(len: usize, mut seed: u64) -> Vec<u8> {
    let mut out = Vec::with_capacity(len);
    for _ in 0..len {
        seed = seed.wrapping_mul(6364136223846793005).wrapping_add(1442695040888963407);
        out.push((seed >> 56) as u8);
    }
    out
}

#[test]
fn test_channel_open_lifecycle() {
    let mut client = ChannelMux::new();
    let (cid, frame) = client.open_channel("example.com", 443).unwrap();
    assert_eq!(cid, 1);
    assert_eq!(frame.frame_type, FrameType::Connect);
    let (host, port) = frame.parse_connect().unwrap();
    assert_eq!(host, "example.com");
    assert_eq!(port, 443);

    // The server side sees the CONNECT, dials, and answers.
    let mut server = ChannelMux::new();
    match server.accept_frame(&frame) {
        MuxEvent::PeerConnect(c, h, p) => {
            assert_eq!((c, h.as_str(), p), (1, "example.com", 443));
        }
        other => panic!("expected PeerConnect, got {:?}", kind(&other)),
    }
    let ok_frame = server.peer_dial_result(cid, true, "");
    assert_eq!(ok_frame.frame_type, FrameType::ConnectOk);

    // The client opens the channel on CONNECT_OK.
    match client.accept_frame(&ok_frame) {
        MuxEvent::Opened(c) => assert_eq!(c, 1),
        other => panic!("expected Opened, got {:?}", kind(&other)),
    }

    // CLOSE is honored and idempotent.
    let close = Frame::close(cid);
    match client.accept_frame(&close) {
        MuxEvent::ChannelClosed(c) => assert_eq!(c, 1),
        other => panic!("expected ChannelClosed, got {:?}", kind(&other)),
    }
    match client.accept_frame(&close) {
        MuxEvent::Ignored => {}
        other => panic!("expected Ignored, got {:?}", kind(&other)),
    }
    assert_eq!(client.channel_count(), 0);
}

fn kind(e: &MuxEvent) -> &'static str {
    match e {
        MuxEvent::Ignored => "Ignored",
        MuxEvent::Opened(_) => "Opened",
        MuxEvent::OpenFailed(_, _) => "OpenFailed",
        MuxEvent::Data(_, _) => "Data",
        MuxEvent::ChannelClosed(_) => "ChannelClosed",
        MuxEvent::PeerConnect(_, _, _) => "PeerConnect",
        MuxEvent::KeepaliveProbe => "KeepaliveProbe",
        MuxEvent::KeepaliveAcked => "KeepaliveAcked",
        MuxEvent::Fatal => "Fatal",
    }
}

#[test]
fn test_interleaved_channel_order() {
    // Bytes sent per channel arrive per channel in the same order, however
    // the channels interleave on the wire.
    let mut receiver = ChannelMux::new();

    // Open three channels on the receiver.
    for cid in 1u16..=3u16 {
        let connect = Frame::connect(cid, "host.example", 80);
        match receiver.accept_frame(&connect) {
            MuxEvent::PeerConnect(_, _, _) => {}
            other => panic!("expected PeerConnect, got {:?}", kind(&other)),
        }
        receiver.peer_dial_result(cid, true, "");
    }

    // Interleave data, with one payload crossing the frame size limit.
    let parts: Vec<(u16, Vec<u8>)> = vec![
        (1, b"first ".to_vec()),
        (2, noise(70000, 7)),
        (1, b"channel".to_vec()),
        (3, b"!".to_vec()),
        (2, b" tail".to_vec()),
        (1, b" bytes".to_vec()),
    ];
    let mut wire: Vec<u8> = Vec::new();
    for (cid, data) in &parts {
        for f in split_data_frames(*cid, data) {
            assert!(f.payload.len() <= 65535);
            wire.extend_from_slice(&f.serialize());
        }
    }

    // Feed the wire in awkward chunks and collect per-channel bytes.
    let mut got: [Vec<u8>; 4] = [Vec::new(), Vec::new(), Vec::new(), Vec::new()];
    let mut off = 0;
    let mut step = 1;
    while off < wire.len() {
        let end = (off + step).min(wire.len());
        let events = receiver.receive(&wire[off..end]).unwrap();
        for e in events {
            match e {
                MuxEvent::Data(cid, data) => got[cid as usize].extend_from_slice(&data),
                other => panic!("expected Data, got {:?}", kind(&other)),
            }
        }
        off = end;
        step = step * 3 + 1;
    }

    let mut want: [Vec<u8>; 4] = [Vec::new(), Vec::new(), Vec::new(), Vec::new()];
    for (cid, data) in &parts {
        want[*cid as usize].extend_from_slice(data);
    }
    assert_eq!(got, want);
}

#[test]
fn test_unrecognized_frame_type_fatal() {
    // An unknown type tag terminates the session and releases every
    // channel: nothing leaks.
    let mut mux = ChannelMux::new();
    let connect = Frame::connect(5, "a.example", 80);
    mux.accept_frame(&connect);
    mux.peer_dial_result(5, true, "");
    assert_eq!(mux.channel_count(), 1);

    let bogus: Vec<u8> = vec![0x5A, 0x00, 0x05, 0x00, 0x00];
    match mux.receive(&bogus) {
        Err(FrameError::InvalidType(t)) => assert_eq!(t, 0x5A),
        other => panic!("expected InvalidType, got {:?}", other),
    }
    assert!(mux.is_closed());
    assert_eq!(mux.channel_count(), 0);
}

#[test]
fn test_data_on_unknown_channel_fatal() {
    let mut mux = ChannelMux::new();
    let data = Frame::data(9, b"stray".to_vec());
    match mux.accept_frame(&data) {
        MuxEvent::Fatal => {}
        other => panic!("expected Fatal, got {:?}", kind(&other)),
    }
    assert!(mux.is_closed());
    assert_eq!(mux.channel_count(), 0);
}

#[test]
fn test_connect_empty_host_fatal() {
    let mut mux = ChannelMux::new();
    // host_len == 0.
    let f = Frame::new(FrameType::Connect, 4, vec![0, 0x01, 0xBB]);
    match mux.accept_frame(&f) {
        MuxEvent::Fatal => {}
        other => panic!("expected Fatal, got {:?}", kind(&other)),
    }
    assert!(mux.is_closed());
}

#[test]
fn test_keepalive_events() {
    let mut mux = ChannelMux::new();
    let probe = Frame::new(FrameType::Keepalive, 0, Vec::new());
    match mux.accept_frame(&probe) {
        MuxEvent::KeepaliveProbe => {}
        other => panic!("expected KeepaliveProbe, got {:?}", kind(&other)),
    }
    let ack = Frame::new(FrameType::KeepaliveAck, 0, Vec::new());
    match mux.accept_frame(&ack) {
        MuxEvent::KeepaliveAcked => {}
        other => panic!("expected KeepaliveAcked, got {:?}", kind(&other)),
    }
}

#[test]
fn test_channel_id_exhaustion() {
    let mut mux = ChannelMux::new();
    for i in 1u16..=0xFFFF {
        let (cid, _) = mux.open_channel("h", 1).unwrap();
        assert_eq!(cid, i);
        mux.close_channel(cid);
    }
    // The id space is spent; the session must terminate.
    assert!(mux.open_channel("h", 1).is_err());
    assert!(mux.is_closed());
    assert_eq!(mux.channel_count(), 0);
}

#[test]
fn test_socks5_connect_domain() {
    // Application greeting: version 5, one method, no-auth.
    match parse_greeting(&[0x05, 0x01, 0x00]) {
        GreetingParse::Done { no_auth, consumed } => {
            assert!(no_auth);
            assert_eq!(consumed, 3);
        }
        other => panic!("expected Done, got {:?}", other),
    }
    assert_eq!(greeting_reply(true), vec![0x05, 0x00]);
    assert_eq!(greeting_reply(false), vec![0x05, 0xFF]);

    // CONNECT to example.com:443 by domain name.
    let mut req: Vec<u8> = vec![0x05, 0x01, 0x00, 0x03, 0x0B];
    req.extend_from_slice(b"example.com");
    req.extend_from_slice(&[0x01, 0xBB]);
    let (host, port) = match parse_request(&req) {
        RequestParse::Done { host, port, consumed } => {
            assert_eq!(consumed, req.len());
            (host, port)
        }
        other => panic!("expected Done, got {:?}", other),
    };
    assert_eq!(host, "example.com");
    assert_eq!(port, 443);

    // The client opens channel 1 for it.
    let mut client = ChannelMux::new();
    let (cid, connect) = client.open_channel(&host, port).unwrap();
    assert_eq!(cid, 1);

    // The server dials and confirms; the client answers the application.
    let mut server = ChannelMux::new();
    match server.accept_frame(&connect) {
        MuxEvent::PeerConnect(c, h, p) => assert_eq!((c, h.as_str(), p), (1, "example.com", 443)),
        other => panic!("expected PeerConnect, got {:?}", kind(&other)),
    }
    let ok = server.peer_dial_result(cid, true, "");
    match client.accept_frame(&ok) {
        MuxEvent::Opened(c) => assert_eq!(c, 1),
        other => panic!("expected Opened, got {:?}", kind(&other)),
    }
    let reply = encode_reply(Reply::Success, Some((IpAddress::V4(0xC0000201), 4321)));
    assert_eq!(reply[..4], [0x05, 0x00, 0x00, 0x01]);
    assert_eq!(&reply[4..8], &[192, 0, 2, 1]);
    assert_eq!(&reply[8..10], &[0x10, 0xE1]);

    // A megabyte flows through channel 1 intact, both directions.
    let body = noise(1 << 20, 99);
    let mut wire: Vec<u8> = Vec::new();
    for f in split_data_frames(cid, &body) {
        wire.extend_from_slice(&f.serialize());
    }
    let events = server.receive(&wire).unwrap();
    let mut forwarded: Vec<u8> = Vec::new();
    for e in events {
        match e {
            MuxEvent::Data(c, data) => {
                assert_eq!(c, cid);
                forwarded.extend_from_slice(&data);
            }
            other => panic!("expected Data, got {:?}", kind(&other)),
        }
    }
    assert_eq!(forwarded, body);

    let response = noise(1 << 20, 123);
    let mut back: Vec<u8> = Vec::new();
    for f in split_data_frames(cid, &response) {
        back.extend_from_slice(&f.serialize());
    }
    let events = client.receive(&back).unwrap();
    let mut received: Vec<u8> = Vec::new();
    for e in events {
        match e {
            MuxEvent::Data(c, data) => {
                assert_eq!(c, cid);
                received.extend_from_slice(&data);
            }
            other => panic!("expected Data, got {:?}", kind(&other)),
        }
    }
    assert_eq!(received, response);
}

#[test]
fn test_connect_fail_path() {
    // The server's outbound dial fails; the client answers the SOCKS5
    // application with host-unreachable and the channel is gone.
    let mut client = ChannelMux::new();
    let (_c1, _f1) = client.open_channel("a.example", 80).unwrap();
    let (c2, f2) = client.open_channel("nonexistent.invalid", 1).unwrap();
    assert_eq!(c2, 2);

    let mut server = ChannelMux::new();
    match server.accept_frame(&f2) {
        MuxEvent::PeerConnect(c, h, p) => {
            assert_eq!((c, h.as_str(), p), (2, "nonexistent.invalid", 1));
        }
        other => panic!("expected PeerConnect, got {:?}", kind(&other)),
    }
    let fail = server.peer_dial_result(c2, false, "dial failed");
    assert_eq!(fail.frame_type, FrameType::ConnectFail);
    assert_eq!(fail.channel_id, 2);
    assert_eq!(&fail.payload[..], b"dial failed");
    assert_eq!(server.channel_count(), 0);

    match client.accept_frame(&fail) {
        MuxEvent::OpenFailed(c, reason) => {
            assert_eq!(c, 2);
            assert_eq!(&reason[..], b"dial failed");
        }
        other => panic!("expected OpenFailed, got {:?}", kind(&other)),
    }
    assert_eq!(client.channel_count(), 1);

    let reply = encode_reply(Reply::HostUnreachable, None);
    assert_eq!(reply, vec![0x05, 0x04, 0x00, 0x01, 0, 0, 0, 0, 0, 0]);
}

#[test]
fn test_socks5_request_errors() {
    // Wrong version.
    assert_eq!(parse_request(&[0x04, 0x01, 0x00, 0x01]), RequestParse::BadVersion);
    // BIND is not served.
    assert_eq!(parse_request(&[0x05, 0x02, 0x00, 0x01]), RequestParse::BadCommand);
    // Unknown address type.
    assert_eq!(parse_request(&[0x05, 0x01, 0x00, 0x09]), RequestParse::BadAddressType);
    // Short reads.
    assert_eq!(parse_request(&[0x05, 0x01]), RequestParse::Incomplete);
    assert_eq!(parse_request(&[0x05, 0x01, 0x00, 0x01, 1, 2]), RequestParse::Incomplete);
    // IPv4 literal.
    match parse_request(&[0x05, 0x01, 0x00, 0x01, 10, 0, 0, 7, 0x00, 0x50]) {
        RequestParse::Done { host, port, consumed } => {
            assert_eq!(host, "10.0.0.7");
            assert_eq!(port, 80);
            assert_eq!(consumed, 10);
        }
        other => panic!("expected Done, got {:?}", other),
    }
    // IPv6 literal.
    let mut req: Vec<u8> = vec![0x05, 0x01, 0x00, 0x04];
    req.extend_from_slice(&[0x20, 0x01, 0x0d, 0xb8, 0, 0, 0, 0, 0, 0, 0, 0, 0, 0, 0, 1]);
    req.extend_from_slice(&[0x00, 0x50]);
    match parse_request(&req) {
        RequestParse::Done { host, port, consumed } => {
            assert_eq!(host, "2001:db8:0:0:0:0:0:1");
            assert_eq!(port, 80);
            assert_eq!(consumed, 22);
        }
        other => panic!("expected Done, got {:?}", other),
    }
    // Greeting without the no-auth method.
    match parse_greeting(&[0x05, 0x01, 0x02]) {
        GreetingParse::Done { no_auth, .. } => assert!(!no_auth),
        other => panic!("expected Done, got {:?}", other),
    }
    assert_eq!(parse_greeting(&[0x04, 0x01, 0x00]), GreetingParse::BadVersion);
}

#[test]
fn test_keepalive_policy() {
    let mut p = KeepalivePolicy::new(30, 120, 1000);
    assert_eq!(p.decide(1000), KeepaliveAction::Nothing);
    assert_eq!(p.decide(1029), KeepaliveAction::Nothing);
    // Thirty quiet seconds: probe once, not twice.
    assert_eq!(p.decide(1030), KeepaliveAction::SendProbe);
    assert_eq!(p.decide(1031), KeepaliveAction::Nothing);
    // An acknowledgment restarts the clocks.
    p.on_traffic(1040);
    assert_eq!(p.decide(1069), KeepaliveAction::Nothing);
    assert_eq!(p.decide(1070), KeepaliveAction::SendProbe);
    // Two quiet minutes close the session.
    assert_eq!(p.decide(1160), KeepaliveAction::CloseSession);
}
