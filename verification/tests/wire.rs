use rushtle::ssnet::frame::{read_frame_next, read_frame_start, ReadEvent, ReadState, ReadStep, WriteOp};
use rushtle::ssnet::payload::parse_udp_open;
use rushtle::ssnet::sync::{read_sync_next, read_sync_start, SyncState, SyncStep};
use rushtle::ssnet::{
    encode_connect, encode_host_list, encode_udp_data, frame_delay, frame_delay_us,
    init_frame_delay_from_env, parse_connect, parse_udp_data, read_frame, read_sync_header,
    set_frame_delay_us, write_frame, ConnectError, Frame, FrameDelay, FrameError, SyncError,
    UdpDataError, AF_INET, AF_INET6, CHUNK, CMD_PING, CMD_TCP_DATA, HDR_LEN, MAGIC, MAX_PAYLOAD,
    SYNC_HEADER,
};

fn bytes_of_frame(f: &Frame) -> Vec<u8> {
    let mut out = Vec::new();
    for op in write_frame(f).unwrap() {
        if let WriteOp::Write(b) = op {
            out.extend(b);
        }
    }
    out
}

#[test]
fn commands_have_names() {
    let names = [
        "EXIT", "PING", "PONG", "TCP_CONNECT", "TCP_STOP_SENDING", "TCP_EOF", "TCP_DATA", "ROUTES",
        "HOST_REQ", "HOST_LIST", "DNS_REQ", "DNS_RESPONSE", "UDP_OPEN", "UDP_DATA", "UDP_CLOSE",
    ];
    for (i, name) in names.iter().enumerate() {
        assert_eq!(Frame::cmd_name(0x4200 + i as u16), *name);
    }
    assert_eq!(Frame::cmd_name(0x420f), "UNKNOWN");
    assert_eq!(Frame::cmd_name(0), "UNKNOWN");
}

#[test]
fn constants() {
    assert_eq!(HDR_LEN, 8);
    assert_eq!(&MAGIC, b"SS");
    assert_eq!(MAX_PAYLOAD, 65535);
    assert_eq!(CHUNK, 768);
    assert_eq!(&SYNC_HEADER, b"\0\0SSHUTTLE0001");
}

#[test]
fn frame_is_written_as_header_payload_flush_pause() {
    let f = Frame::new(0x0102, CMD_PING, b"hey".to_vec());
    let ops = write_frame(&f).unwrap();
    assert_eq!(ops.len(), 4);
    assert!(matches!(&ops[0], WriteOp::Write(b) if b == b"SS\x01\x02\x42\x01\x00\x03"));
    assert!(matches!(&ops[1], WriteOp::Write(b) if b == b"hey"));
    assert!(matches!(ops[2], WriteOp::Flush));
    assert!(matches!(ops[3], WriteOp::Pause));
}

#[test]
fn empty_frame_has_no_payload_write() {
    let ops = write_frame(&Frame::new(0, 0x4207, vec![])).unwrap();
    assert_eq!(ops.len(), 3);
    assert!(matches!(&ops[0], WriteOp::Write(b) if b == b"SS\x00\x00\x42\x07\x00\x00"));
    assert!(matches!(ops[1], WriteOp::Flush));
}

#[test]
fn longest_payload_fits_and_one_more_does_not() {
    let f = Frame::new(1, CMD_TCP_DATA, vec![7; MAX_PAYLOAD]);
    assert_eq!(bytes_of_frame(&f).len(), HDR_LEN + MAX_PAYLOAD);
    let g = Frame::new(1, CMD_TCP_DATA, vec![7; MAX_PAYLOAD + 1]);
    let e = write_frame(&g).unwrap_err();
    assert!(matches!(e, FrameError::TooLong(65536)));
    assert_eq!(e.text(), "payload 65536 exceeds 65535 max");
}

#[test]
fn frames_read_back_from_the_wire() {
    let fs = vec![
        Frame::new(0, CMD_PING, b"chicken".to_vec()),
        Frame::new(7, 0x4205, vec![]),
        Frame::new(0xfeff, CMD_TCP_DATA, vec![0x53; 768]),
    ];
    let mut wire = Vec::new();
    for f in &fs {
        wire.extend(bytes_of_frame(f));
    }
    let mut at = 0usize;
    for f in &fs {
        let (r, n) = read_frame(&wire[at..]);
        let g = r.unwrap().unwrap();
        assert_eq!((g.channel, g.cmd, &g.data), (f.channel, f.cmd, &f.data));
        at += n;
    }
    let (r, n) = read_frame(&wire[at..]);
    assert!(matches!(r, Ok(None)));
    assert_eq!(n, 0);
}

#[test]
fn stream_that_ends_in_a_header_is_at_its_end() {
    let (r, n) = read_frame(b"SS\x00\x00");
    assert!(matches!(r, Ok(None)));
    assert_eq!(n, 4);
}

#[test]
fn stream_that_ends_in_a_payload_is_an_error() {
    let (r, n) = read_frame(b"SS\x00\x01\x42\x06\x00\x05ab");
    let e = r.unwrap_err();
    assert!(matches!(&e, FrameError::Eof(_)));
    assert_eq!(e.text(), "early eof");
    assert_eq!(n, 10);
}

#[test]
fn other_magic_is_an_error() {
    let (r, n) = read_frame(b"XY\x00\x01\x42\x06\x00\x05ab");
    let e = r.unwrap_err();
    assert!(matches!(e, FrameError::BadMagic(0x58, 0x59)));
    assert_eq!(e.text(), "bad magic: 5859");
    assert_eq!(n, 8);
}

#[test]
fn reading_a_frame_step_by_step() {
    let (state, want) = match read_frame_start() {
        ReadStep::Read(s, n) => (s, n),
        ReadStep::Done(_) => panic!("nothing read yet"),
    };
    assert_eq!((state, want), (ReadState::Header, 8));
    let step = read_frame_next(state, ReadEvent::Bytes(b"SS\x00\x09\x42\x0a\x00\x02".to_vec()));
    let (state, want) = match step {
        ReadStep::Read(s, n) => (s, n),
        ReadStep::Done(_) => panic!("the payload is missing"),
    };
    assert_eq!((state, want), (ReadState::Payload { channel: 9, cmd: 0x420a, len: 2 }, 2));
    match read_frame_next(state, ReadEvent::Bytes(b"hi".to_vec())) {
        ReadStep::Done(Ok(Some(f))) => {
            assert_eq!((f.channel, f.cmd, f.data), (9, 0x420a, b"hi".to_vec()))
        }
        other => panic!("{:?}", other),
    }
    match read_frame_next(ReadState::Header, ReadEvent::Failed("gone".to_string())) {
        ReadStep::Done(Err(e)) => assert_eq!(e.text(), "gone"),
        other => panic!("{:?}", other),
    }
}

#[test]
fn sync_header_is_read_behind_noise() {
    let mut s = b"motd: welcome\n".to_vec();
    s.extend_from_slice(&SYNC_HEADER);
    let at = s.len();
    s.extend_from_slice(b"SS");
    assert_eq!(read_sync_header(&s).unwrap(), at);
}

#[test]
fn noise_between_the_nuls_is_skipped() {
    let s = b"ab\0cd\0SSHUTTLE0001rest";
    assert_eq!(read_sync_header(s).unwrap(), 18);
}

#[test]
fn other_word_is_a_mismatch() {
    let e = read_sync_header(b"\0\0SSHUTTLE0002").unwrap_err();
    assert!(matches!(&e, SyncError::Mismatch(b) if b == b"SSHUTTLE0002"));
    assert_eq!(
        e.text(),
        "sync header mismatch: [83, 83, 72, 85, 84, 84, 76, 69, 48, 48, 48, 50]"
    );
}

#[test]
fn stream_without_sync_header_ends() {
    for s in [&b""[..], &b"abc"[..], &b"\0abc"[..], &b"\0\0SSHUTTLE"[..]] {
        let e = read_sync_header(s).unwrap_err();
        assert!(matches!(&e, SyncError::Io(_)));
        assert_eq!(e.text(), "early eof");
    }
}

#[test]
fn sync_header_step_by_step() {
    let (state, want) = match read_sync_start() {
        SyncStep::Read(s, n) => (s, n),
        SyncStep::Done(_) => panic!("nothing read yet"),
    };
    assert_eq!((state, want), (SyncState::FirstNul, 1));
    match read_sync_next(state, ReadEvent::Bytes(vec![b'x'])) {
        SyncStep::Read(s, 1) => assert_eq!(s, SyncState::FirstNul),
        other => panic!("{:?}", other),
    }
    match read_sync_next(SyncState::SecondNul, ReadEvent::Bytes(vec![0])) {
        SyncStep::Read(s, 12) => assert_eq!(s, SyncState::Word),
        other => panic!("{:?}", other),
    }
    match read_sync_next(SyncState::Word, ReadEvent::Bytes(b"SSHUTTLE0001".to_vec())) {
        SyncStep::Done(Ok(())) => {}
        other => panic!("{:?}", other),
    }
}

#[test]
fn connect_in_three_parts() {
    let t = parse_connect(b"2,10.0.0.1,443").unwrap();
    assert_eq!((t.family, t.host.as_str(), t.port), (Some(AF_INET), "10.0.0.1", 443));
}

#[test]
fn connect_in_two_parts() {
    let t = parse_connect(b"10.0.0.1,80").unwrap();
    assert_eq!((t.family, t.host.as_str(), t.port), (None, "10.0.0.1", 80));
}

#[test]
fn connect_is_trimmed() {
    let t = parse_connect(b" 10,::1,22 \n\0\0").unwrap();
    assert_eq!((t.family, t.host.as_str(), t.port), (Some(AF_INET6), "::1", 22));
}

#[test]
fn connect_errors() {
    assert!(matches!(parse_connect(b"\xff"), Err(ConnectError::NotUtf8)));
    assert!(matches!(parse_connect(b" host \0"), Err(ConnectError::BadShape(s)) if s == "host"));
    assert!(matches!(parse_connect(b"x,h,80"), Err(ConnectError::BadFamily)));
    assert!(matches!(parse_connect(b"2,h,70000"), Err(ConnectError::BadPort)));
    assert!(matches!(parse_connect(b"h,http"), Err(ConnectError::BadPort)));
    assert!(matches!(parse_connect(b"2,h,80,9"), Err(ConnectError::BadPort)));
}

#[test]
fn connect_reads_back() {
    assert_eq!(encode_connect(AF_INET6, "fe80::1", 8443), b"10,fe80::1,8443".to_vec());
    let t = parse_connect(&encode_connect(AF_INET, "host.example", 1)).unwrap();
    assert_eq!((t.family, t.host.as_str(), t.port), (Some(2), "host.example", 1));
}

#[test]
fn udp_open_families() {
    assert_eq!(parse_udp_open(b"10"), 10);
    assert_eq!(parse_udp_open(b" 2\n"), 2);
    assert_eq!(parse_udp_open(b""), AF_INET);
    assert_eq!(parse_udp_open(b"\xff"), AF_INET);
    assert_eq!(parse_udp_open(b"70000"), AF_INET);
}

#[test]
fn udp_data_reads_back() {
    let p = encode_udp_data("8.8.4.4", 53, b"a,b,\xff");
    assert_eq!(p, b"8.8.4.4,53,a,b,\xff".to_vec());
    let (host, port, body) = parse_udp_data(&p).unwrap();
    assert_eq!((host.as_str(), port, body), ("8.8.4.4", 53, &b"a,b,\xff"[..]));
    assert_eq!(parse_udp_data(b"h,1,").unwrap().2.len(), 0);
}

#[test]
fn udp_data_errors() {
    assert_eq!(parse_udp_data(b"").unwrap_err(), UdpDataError::Commas);
    assert_eq!(parse_udp_data(b"h,53").unwrap_err(), UdpDataError::Commas);
    assert_eq!(parse_udp_data(b"\xff,53,x").unwrap_err(), UdpDataError::HostNotUtf8);
    assert_eq!(parse_udp_data(b"h,\xff,x").unwrap_err(), UdpDataError::PortNotUtf8);
    assert_eq!(parse_udp_data(b"h, 53,x").unwrap_err(), UdpDataError::BadPort);
    assert_eq!(parse_udp_data(b"h,99999,x").unwrap_err(), UdpDataError::BadPort);
}

#[test]
fn host_list_has_a_line_for_each_host() {
    let hosts = vec![
        ("a".to_string(), "10.0.0.1".to_string()),
        ("b".to_string(), "::1".to_string()),
    ];
    assert_eq!(encode_host_list(&hosts), b"a,10.0.0.1\nb,::1".to_vec());
    assert_eq!(encode_host_list(&[]), Vec::<u8>::new());
}

#[test]
fn delay_between_frames() {
    let mut d = FrameDelay { us: 0 };
    assert_eq!(frame_delay(&d), None);
    init_frame_delay_from_env(&mut d, Some("2000"));
    assert_eq!(frame_delay_us(&d), 2000);
    assert_eq!(frame_delay(&d), Some(2000));
    init_frame_delay_from_env(&mut d, Some("fast"));
    assert_eq!(frame_delay_us(&d), 2000);
    init_frame_delay_from_env(&mut d, None);
    assert_eq!(frame_delay_us(&d), 2000);
    set_frame_delay_us(&mut d, 0);
    assert_eq!(frame_delay(&d), None);
}
