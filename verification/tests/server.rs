use rushtle::conn::{ClientConn, ClientConnAction, ServerConn, ServerConnAction};
use rushtle::ip::IpAddr;
use rushtle::probe::{make_probe_payloads, Probe, ProbeOutcome};
use rushtle::relay::{on_payload, on_source, SinkStep, SourceEvent, SourceStep};
use rushtle::server::bootstrap::{
    consume_sshuttle_bootstrap, BootError, BootEvent, BootStep, Bootstrap,
};
use rushtle::server::dns::{
    parse_resolv_conf, resolvers, Lookup, LookupEvent, LookupStep, DNS_PORT, DNS_TIMEOUT_SECS,
};
use rushtle::server::hosts::{host_list_frame, read_etc_hosts};
use rushtle::server::run::{ServerEvent, ServerRun, ServerTask};
use rushtle::server::{datagram_frame, greeting, ServerAction, ServerMux};
use rushtle::ssnet::frame::WriteOp;
use rushtle::ssnet::{
    parse_udp_data, read_frame, write_frame, ConnectTarget, Frame, CMD_DNS_REQ, CMD_DNS_RESPONSE,
    CMD_EXIT, CMD_HOST_LIST, CMD_HOST_REQ, CMD_PING, CMD_PONG, CMD_ROUTES, CMD_TCP_CONNECT,
    CMD_TCP_DATA, CMD_TCP_EOF, CMD_TCP_STOP_SENDING, CMD_UDP_CLOSE, CMD_UDP_DATA, CMD_UDP_OPEN,
};

#[test]
fn server_greets_with_ping_and_routes() {
    let g = greeting();
    assert_eq!(g.len(), 2);
    assert_eq!((g[0].channel, g[0].cmd, g[0].data.as_slice()), (0, CMD_PING, &b"chicken"[..]));
    assert_eq!((g[1].channel, g[1].cmd, g[1].data.len()), (0, CMD_ROUTES, 0));
}

#[test]
fn server_passes_the_probe() {
    let mut mux: ServerMux<(), ()> = ServerMux::new();
    let mut probe = Probe::new(make_probe_payloads());
    for f in greeting() {
        assert!(matches!(probe.on_frame(&f), ProbeOutcome::More));
    }
    for ping in probe.pings() {
        match mux.on_frame(ping) {
            ServerAction::Send(pong) => {
                assert_eq!(pong.cmd, CMD_PONG);
                probe.on_frame(&pong);
            }
            other => panic!("{:?}", other),
        }
    }
    assert!(probe.passed());
}

#[test]
fn server_connects_and_refuses() {
    let mut mux: ServerMux<(), ()> = ServerMux::new();
    match mux.on_frame(Frame::new(5, CMD_TCP_CONNECT, b"2,10.0.0.1,80".to_vec())) {
        ServerAction::Connect { channel, target } => {
            assert_eq!((channel, target.family, target.host.as_str(), target.port), (5, Some(2), "10.0.0.1", 80))
        }
        other => panic!("{:?}", other),
    }
    match mux.on_frame(Frame::new(6, CMD_TCP_CONNECT, b"nonsense".to_vec())) {
        ServerAction::Send(f) => assert_eq!((f.channel, f.cmd, f.data.len()), (6, CMD_TCP_STOP_SENDING, 0)),
        other => panic!("{:?}", other),
    }
}

#[test]
fn server_hands_payloads_to_open_connections() {
    let mut mux: ServerMux<&str, ()> = ServerMux::new();
    assert!(matches!(mux.on_frame(Frame::new(1, CMD_TCP_DATA, vec![1])), ServerAction::Ignore));
    mux.open_tcp(1, "one");
    assert_eq!(mux.tcp_sink(1), Some(&"one"));
    assert!(matches!(
        mux.on_frame(Frame::new(1, CMD_TCP_DATA, vec![1])),
        ServerAction::Deliver { channel: 1, data } if data == vec![1]
    ));
    assert!(matches!(mux.on_frame(Frame::new(1, CMD_TCP_EOF, vec![])), ServerAction::Close { channel: 1 }));
    assert!(matches!(mux.on_frame(Frame::new(1, CMD_TCP_EOF, vec![])), ServerAction::Ignore));
    mux.open_tcp(2, "two");
    assert!(matches!(
        mux.on_frame(Frame::new(2, CMD_TCP_STOP_SENDING, vec![])),
        ServerAction::Close { channel: 2 }
    ));
    mux.open_tcp(3, "three");
    mux.close_tcp(3);
    assert_eq!(mux.tcp_sink(3), None);
}

#[test]
fn server_handles_datagrams() {
    let mut mux: ServerMux<(), &str> = ServerMux::new();
    assert!(matches!(
        mux.on_frame(Frame::new(4, CMD_UDP_OPEN, b"2".to_vec())),
        ServerAction::OpenUdp { channel: 4, v4: true }
    ));
    assert!(matches!(
        mux.on_frame(Frame::new(4, CMD_UDP_OPEN, b"10".to_vec())),
        ServerAction::OpenUdp { channel: 4, v4: false }
    ));
    assert!(matches!(
        mux.on_frame(Frame::new(4, CMD_UDP_DATA, b"8.8.8.8,53,x".to_vec())),
        ServerAction::Ignore
    ));
    mux.open_udp(4, "sock");
    assert_eq!(mux.udp_sink(4), Some(&"sock"));
    match mux.on_frame(Frame::new(4, CMD_UDP_DATA, b"8.8.8.8,53,x,y".to_vec())) {
        ServerAction::SendUdp { channel, host, port, body } => {
            assert_eq!((channel, host.as_str(), port, body), (4, "8.8.8.8", 53, b"x,y".to_vec()))
        }
        other => panic!("{:?}", other),
    }
    assert!(matches!(mux.on_frame(Frame::new(4, CMD_UDP_DATA, b"bad".to_vec())), ServerAction::Ignore));
    assert!(matches!(mux.on_frame(Frame::new(4, CMD_UDP_CLOSE, vec![])), ServerAction::CloseUdp { channel: 4 }));
    assert_eq!(mux.udp_sink(4), None);
    assert!(matches!(mux.on_frame(Frame::new(4, CMD_UDP_CLOSE, vec![])), ServerAction::Ignore));
}

#[test]
fn server_handles_the_other_commands() {
    let mut mux: ServerMux<(), ()> = ServerMux::new();
    assert!(matches!(mux.on_frame(Frame::new(0, CMD_EXIT, vec![])), ServerAction::Exit));
    assert!(matches!(mux.on_frame(Frame::new(0, CMD_PONG, vec![])), ServerAction::Ignore));
    assert!(matches!(mux.on_frame(Frame::new(0, CMD_HOST_REQ, vec![])), ServerAction::ListHosts));
    assert!(matches!(
        mux.on_frame(Frame::new(9, CMD_DNS_REQ, vec![1, 2])),
        ServerAction::Resolve { channel: 9, query } if query == vec![1, 2]
    ));
    assert!(matches!(mux.on_frame(Frame::new(0, 0x4242, vec![])), ServerAction::Ignore));
}

#[test]
fn datagrams_go_back_with_their_sender() {
    let f = datagram_frame(4, "1.2.3.4", 9, b"body");
    assert_eq!((f.channel, f.cmd), (4, CMD_UDP_DATA));
    assert_eq!(parse_udp_data(&f.data).unwrap(), ("1.2.3.4".to_string(), 9, &b"body"[..]));
}

#[test]
fn bootstrap_is_taken_off_the_stream() {
    let mut s = b"import sys".to_vec();
    s.extend_from_slice(b"sshuttle.helpers\n5\n\n\n\0ab");
    s.extend_from_slice(b"server\r\n 3 \r\nxyz");
    s.extend_from_slice(b"empty\n0\n");
    s.extend_from_slice(b"\n");
    let at = s.len();
    s.extend_from_slice(b"SS\x00\x00\x42\x01\x00\x00");
    assert_eq!(consume_sshuttle_bootstrap(10, &s).unwrap(), at);
}

#[test]
fn bootstrap_without_modules() {
    assert_eq!(consume_sshuttle_bootstrap(0, b"\nrest").unwrap(), 1);
    assert_eq!(consume_sshuttle_bootstrap(0, b"\r\nrest").unwrap(), 2);
}

#[test]
fn bootstrap_errors() {
    assert!(matches!(
        consume_sshuttle_bootstrap(4, b"abc"),
        Err(BootError::Assembler { bytes: 4, cause }) if cause == "early eof"
    ));
    assert!(matches!(consume_sshuttle_bootstrap(0, b""), Err(BootError::Eof)));
    assert!(matches!(
        consume_sshuttle_bootstrap(0, b"name\n"),
        Err(BootError::EofAfterName(n)) if n == "name"
    ));
    assert!(matches!(
        consume_sshuttle_bootstrap(0, b"name\nmany\n"),
        Err(BootError::BadSize { name, line }) if name == "name" && line == "many\n"
    ));
    assert!(matches!(consume_sshuttle_bootstrap(0, b"\xff\n"), Err(BootError::NotUtf8)));
    assert!(matches!(
        consume_sshuttle_bootstrap(0, b"name\n9\nshort"),
        Err(BootError::Io(s)) if s == "early eof"
    ));
}

#[test]
fn bootstrap_step_by_step() {
    let (mut b, step) = Bootstrap::new(3);
    assert!(matches!(step, BootStep::Skip(3)));
    assert!(matches!(b.next(BootEvent::Skipped), BootStep::ReadLine));
    assert!(matches!(b.next(BootEvent::Line(b"m\n".to_vec())), BootStep::ReadLine));
    assert!(matches!(b.next(BootEvent::Line(b"12\n".to_vec())), BootStep::Skip(12)));
    assert!(matches!(b.next(BootEvent::Skipped), BootStep::ReadLine));
    assert!(matches!(b.next(BootEvent::Line(b"\n".to_vec())), BootStep::Done(Ok(()))));
    let (mut b, step) = Bootstrap::new(0);
    assert!(matches!(step, BootStep::ReadLine));
    assert!(matches!(
        b.next(BootEvent::Failed("gone".to_string())),
        BootStep::Done(Err(BootError::Io(s))) if s == "gone"
    ));
}

#[test]
fn resolv_conf_names_servers() {
    let conf = "# comment\n; other\nsearch x.y\nnameserver 10.96.0.10\n  nameserver\t::1  \n\
                nameserver bad\nnameserver1.2.3.4\noptions ndots:5";
    assert_eq!(
        parse_resolv_conf(conf),
        vec![
            IpAddr::V4([10, 96, 0, 10]),
            IpAddr::V6([0, 0, 0, 0, 0, 0, 0, 1]),
            IpAddr::V4([1, 2, 3, 4]),
        ]
    );
}

#[test]
fn there_is_always_a_resolver() {
    assert_eq!(resolvers(None), vec![IpAddr::V4([1, 1, 1, 1])]);
    assert_eq!(resolvers(Some("search x")), vec![IpAddr::V4([1, 1, 1, 1])]);
    assert_eq!(resolvers(Some("nameserver 9.9.9.9\n")), vec![IpAddr::V4([9, 9, 9, 9])]);
    assert_eq!((DNS_PORT, DNS_TIMEOUT_SECS), (53, 5));
}

#[test]
fn first_reply_answers_the_query() {
    let (mut l, step) = Lookup::new(7, 3);
    assert!(matches!(step, LookupStep::Query(0)));
    assert!(matches!(l.next(LookupEvent::Failed), LookupStep::Query(1)));
    match l.next(LookupEvent::Reply(b"reply".to_vec())) {
        LookupStep::Answer(f) => {
            assert_eq!((f.channel, f.cmd, f.data), (7, CMD_DNS_RESPONSE, b"reply".to_vec()))
        }
        other => panic!("{:?}", other),
    }
}

#[test]
fn silence_is_answered_with_nothing() {
    let (mut l, _) = Lookup::new(7, 2);
    l.next(LookupEvent::Failed);
    match l.next(LookupEvent::Failed) {
        LookupStep::Answer(f) => assert_eq!((f.channel, f.cmd, f.data.len()), (7, CMD_DNS_RESPONSE, 0)),
        other => panic!("{:?}", other),
    }
    let (_, step) = Lookup::new(7, 0);
    assert!(matches!(step, LookupStep::Answer(f) if f.data.is_empty()));
}

#[test]
fn hosts_files_are_read() {
    let file = "# local\n127.0.0.1 localhost\n\n10.0.0.5\tdb db.local # the database\n::1\n   \n\
                10.0.0.6 web #x y\n";
    let pair = |a: &str, b: &str| (a.to_string(), b.to_string());
    assert_eq!(
        read_etc_hosts(file),
        vec![
            pair("localhost", "127.0.0.1"),
            pair("db", "10.0.0.5"),
            pair("db.local", "10.0.0.5"),
            pair("web", "10.0.0.6"),
        ]
    );
}

#[test]
fn hosts_are_told_on_the_control_channel() {
    let f = host_list_frame(Some("10.0.0.1 a b\n"));
    assert_eq!((f.channel, f.cmd, f.data), (0, CMD_HOST_LIST, b"a,10.0.0.1\nb,10.0.0.1".to_vec()));
    assert_eq!(host_list_frame(None).data.len(), 0);
}

#[test]
fn server_run_in_order() {
    let (mut s, t) = ServerRun::new(true, 9);
    assert!(matches!(t, ServerTask::DiscardBootstrap(9)));
    assert!(matches!(s.next(ServerEvent::Done), ServerTask::WriteSync));
    assert!(matches!(s.next(ServerEvent::Done), ServerTask::Greet));
    assert!(matches!(s.next(ServerEvent::Done), ServerTask::Serve));
    assert!(matches!(s.next(ServerEvent::Failed("ignored".to_string())), ServerTask::Drain));
    assert!(matches!(s.next(ServerEvent::Done), ServerTask::Stop(Ok(()))));
    let (_, t) = ServerRun::new(false, 9);
    assert!(matches!(t, ServerTask::WriteSync));
}

#[test]
fn server_that_cannot_start() {
    let failed = || ServerEvent::Failed("no".to_string());
    let (mut s, _) = ServerRun::new(true, 0);
    assert!(matches!(s.next(failed()), ServerTask::Stop(Err(e)) if e == "no"));
    let (mut s, _) = ServerRun::new(false, 0);
    assert!(matches!(s.next(failed()), ServerTask::Stop(Err(e)) if e == "no"));
}

#[test]
fn unreachable_target_is_refused() {
    let mut mux: ServerMux<&str, ()> = ServerMux::new();
    mux.open_tcp(3, "three");
    mux.open_tcp(4, "four");
    let f = mux.connect_failed(3);
    assert_eq!((f.channel, f.cmd, f.data.len()), (3, CMD_TCP_STOP_SENDING, 0));
    assert_eq!(mux.tcp_sink(3), None);
    assert_eq!(mux.tcp_sink(4), Some(&"four"));
}

fn target() -> ConnectTarget {
    ConnectTarget { family: Some(2), host: "10.0.0.1".to_string(), port: 80 }
}

#[test]
fn connection_of_a_server() {
    let (mut c, a) = ServerConn::new(9, target());
    assert!(matches!(a, ServerConnAction::Connect(t) if t.host == "10.0.0.1" && t.port == 80));
    assert!(matches!(c.next(true), ServerConnAction::Forward { channel: 9 }));
    assert!(matches!(c.next(true), ServerConnAction::Forget { channel: 9 }));
    assert!(matches!(c.next(true), ServerConnAction::Stop));
    let (mut c, _) = ServerConn::new(9, target());
    assert!(matches!(c.next(false), ServerConnAction::Refuse { channel: 9 }));
    assert!(matches!(c.next(true), ServerConnAction::Stop));
}

#[test]
fn connection_reaches_its_target() {
    let mut mux: ServerMux<(), ()> = ServerMux::new();
    let mut written = Vec::new();
    let mut frames = Vec::new();
    if let (_, ClientConnAction::Send(f)) = ClientConn::new(6, "fd00::1", 22) {
        frames.push(f);
    }
    for part in [&b"hello "[..], &b"world"[..], &b""[..]] {
        match on_source(6, SourceEvent::Data(part.to_vec())) {
            SourceStep::Send(f) | SourceStep::Finish(f) => frames.push(f),
        }
    }
    assert_eq!(frames.len(), 4);
    for f in frames {
        match mux.on_frame(f) {
            ServerAction::Connect { channel, target } => {
                assert_eq!((target.family, target.host.as_str(), target.port), (Some(10), "fd00::1", 22));
                mux.open_tcp(channel, ());
            }
            ServerAction::Deliver { channel: 6, data } => {
                if let SinkStep::Write(b) = on_payload(Some(data)) {
                    written.extend(b);
                }
            }
            ServerAction::Close { channel: 6 } => {}
            other => panic!("{:?}", other),
        }
    }
    assert_eq!(written, b"hello world".to_vec());
}

fn bytes_of(frames: &[Frame]) -> Vec<u8> {
    let mut out = Vec::new();
    for f in frames {
        for op in write_frame(f).unwrap() {
            if let WriteOp::Write(b) = op {
                out.extend(b);
            }
        }
    }
    out
}

fn answers(stream: &[u8], hosts: Option<&str>) -> Vec<(u16, u16, Vec<u8>)> {
    let mut mux: ServerMux<(), ()> = ServerMux::new();
    let mut sent = Vec::new();
    let mut at = 0usize;
    while let (Ok(Some(f)), n) = read_frame(&stream[at..]) {
        at += n;
        match mux.on_frame(f) {
            ServerAction::Exit => break,
            ServerAction::Send(f) => sent.push((f.channel, f.cmd, f.data)),
            ServerAction::ListHosts => {
                let f = host_list_frame(hosts);
                sent.push((f.channel, f.cmd, f.data));
            }
            _ => {}
        }
    }
    sent
}

#[test]
fn nothing_after_exit_is_served() {
    let stream = bytes_of(&[
        Frame::new(0, CMD_PING, b"a".to_vec()),
        Frame::new(0, CMD_PONG, b"chicken".to_vec()),
        Frame::new(0, CMD_HOST_REQ, vec![]),
        Frame::new(7, CMD_PING, vec![]),
        Frame::new(0, CMD_EXIT, vec![]),
    ]);
    let sent = answers(&stream, Some("10.0.0.1 db\n"));
    assert_eq!(
        sent,
        vec![
            (0, CMD_PONG, b"a".to_vec()),
            (0, CMD_HOST_LIST, b"db,10.0.0.1".to_vec()),
            (7, CMD_PONG, vec![]),
        ]
    );
    let mut longer = stream.clone();
    longer.extend(bytes_of(&[Frame::new(1, CMD_PING, b"late".to_vec())]));
    longer.extend_from_slice(b"not a frame");
    assert_eq!(answers(&longer, Some("10.0.0.1 db\n")), sent);
    let (mut s, _) = ServerRun::new(false, 0);
    for _ in 0..3 {
        s.next(ServerEvent::Done);
    }
    assert!(matches!(s.next(ServerEvent::Done), ServerTask::Stop(Ok(()))));
}
