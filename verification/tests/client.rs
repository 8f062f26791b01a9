use rushtle::client::{
    connect_frame, split_subnets_by_family, ClientAction, ClientArgs, ClientMux, LAST_CHANNEL,
};
use rushtle::conn::{ClientConn, ClientConnAction};
use rushtle::relay::{on_payload, on_source, stop_sending, SinkStep, SourceEvent, SourceStep};
use rushtle::session::{chain_name, plan, ClientRun, RunAction, RunError, RunEvent};
use rushtle::ssnet::{
    Frame, CHUNK, CMD_DNS_REQ, CMD_DNS_RESPONSE, CMD_PING, CMD_PONG, CMD_ROUTES, CMD_TCP_CONNECT,
    CMD_TCP_DATA, CMD_TCP_EOF, CMD_TCP_STOP_SENDING,
};

fn args(subnets: &[&str], manage: bool, dns: bool) -> ClientArgs {
    ClientArgs {
        remote_cmd: "rushtle server".to_string(),
        subnets: subnets.iter().map(|s| s.to_string()).collect(),
        listen_port: 0,
        manage_iptables: manage,
        dns,
        dns_listen_port: 0,
        probe_fallback_us: 2000,
    }
}

#[test]
fn subnets_fall_to_their_families() {
    let all: Vec<String> =
        ["10.0.0.0/8", "fd00::/8", "172.16.0.0/12", "::/0"].iter().map(|s| s.to_string()).collect();
    let (v4, v6) = split_subnets_by_family(&all);
    assert_eq!(v4, vec!["10.0.0.0/8", "172.16.0.0/12"]);
    assert_eq!(v6, vec!["fd00::/8", "::/0"]);
}

#[test]
fn connect_frames_name_the_family() {
    let f = connect_frame(3, "10.0.0.1", 443);
    assert_eq!((f.channel, f.cmd, f.data), (3, CMD_TCP_CONNECT, b"2,10.0.0.1,443".to_vec()));
    let f = connect_frame(4, "fd00::1", 22);
    assert_eq!(f.data, b"10,fd00::1,22".to_vec());
}

#[test]
fn reads_become_frames() {
    match on_source(9, SourceEvent::Data(vec![1; CHUNK])) {
        SourceStep::Send(f) => assert_eq!((f.channel, f.cmd, f.data.len()), (9, CMD_TCP_DATA, CHUNK)),
        other => panic!("{:?}", other),
    }
    match on_source(9, SourceEvent::Data(vec![])) {
        SourceStep::Finish(f) => assert_eq!((f.channel, f.cmd, f.data.len()), (9, CMD_TCP_EOF, 0)),
        other => panic!("{:?}", other),
    }
    match on_source(9, SourceEvent::Failed) {
        SourceStep::Finish(f) => assert_eq!((f.channel, f.cmd), (9, CMD_TCP_EOF)),
        other => panic!("{:?}", other),
    }
    let f = stop_sending(8);
    assert_eq!((f.channel, f.cmd, f.data.len()), (8, CMD_TCP_STOP_SENDING, 0));
}

#[test]
fn payloads_become_writes() {
    assert!(matches!(on_payload(Some(vec![1, 2])), SinkStep::Write(b) if b == vec![1, 2]));
    assert!(matches!(on_payload(Some(vec![])), SinkStep::Shutdown));
    assert!(matches!(on_payload(None), SinkStep::Shutdown));
}

#[test]
fn stream_crosses_the_client() {
    let mut mux: ClientMux<&str, ()> = ClientMux::new();
    let ch = mux.accept("sink");
    let other = mux.accept("other");
    let mut written = Vec::new();
    let stream: Vec<u8> = (0..2000usize).map(|i| i as u8).collect();
    let mut frames = Vec::new();
    for part in stream.chunks(CHUNK) {
        if let SourceStep::Send(f) = on_source(ch, SourceEvent::Data(part.to_vec())) {
            frames.push(f);
        }
        frames.push(Frame::new(other, CMD_TCP_DATA, vec![9, 9]));
        frames.push(Frame::new(ch, CMD_PONG, vec![8]));
    }
    if let SourceStep::Finish(f) = on_source(ch, SourceEvent::Failed) {
        frames.push(f);
    }
    frames.push(Frame::new(ch, CMD_TCP_DATA, vec![7]));
    for f in frames {
        if let ClientAction::Deliver { channel, data } = mux.on_frame(f) {
            if channel == ch {
                if let SinkStep::Write(b) = on_payload(Some(data)) {
                    written.extend(b);
                }
            }
        }
    }
    assert_eq!(written, stream);
}

#[test]
fn channels_are_numbered_below_the_probe() {
    let mut mux: ClientMux<(), ()> = ClientMux::new();
    for i in 1..=LAST_CHANNEL {
        assert_eq!(mux.accept(()), i);
        mux.close(i);
    }
    assert_eq!(LAST_CHANNEL, 0xfeff);
    assert_eq!(mux.accept(()), 1);
    assert_eq!(mux.ask((), vec![]).channel, 2);
}

#[test]
fn client_answers_pings_and_ignores_pongs() {
    let mut mux: ClientMux<(), ()> = ClientMux::new();
    match mux.on_frame(Frame::new(0, CMD_PING, b"chicken".to_vec())) {
        ClientAction::Send(f) => {
            assert_eq!((f.channel, f.cmd, f.data), (0, CMD_PONG, b"chicken".to_vec()))
        }
        other => panic!("{:?}", other),
    }
    assert!(matches!(mux.on_frame(Frame::new(0, CMD_PONG, vec![1])), ClientAction::Ignore));
    assert!(matches!(mux.on_frame(Frame::new(0, CMD_ROUTES, vec![])), ClientAction::Ignore));
    assert!(matches!(mux.on_frame(Frame::new(0, 0x1234, vec![])), ClientAction::Ignore));
}

#[test]
fn client_hands_payloads_to_known_connections() {
    let mut mux: ClientMux<&str, ()> = ClientMux::new();
    let a = mux.accept("a");
    let b = mux.accept("b");
    assert_eq!(mux.sink(a), Some(&"a"));
    assert!(matches!(
        mux.on_frame(Frame::new(b, CMD_TCP_DATA, vec![5])),
        ClientAction::Deliver { channel, data } if channel == b && data == vec![5]
    ));
    assert!(matches!(mux.on_frame(Frame::new(77, CMD_TCP_DATA, vec![5])), ClientAction::Ignore));
    assert!(matches!(
        mux.on_frame(Frame::new(a, CMD_TCP_EOF, vec![])),
        ClientAction::Close { channel } if channel == a
    ));
    assert_eq!(mux.sink(a), None);
    assert_eq!(mux.sink(b), Some(&"b"));
    assert!(matches!(mux.on_frame(Frame::new(a, CMD_TCP_DATA, vec![5])), ClientAction::Ignore));
    assert!(matches!(
        mux.on_frame(Frame::new(b, CMD_TCP_STOP_SENDING, vec![])),
        ClientAction::Close { channel } if channel == b
    ));
    assert!(matches!(mux.on_frame(Frame::new(b, CMD_TCP_EOF, vec![])), ClientAction::Ignore));
}

#[test]
fn closed_connection_is_forgotten() {
    let mut mux: ClientMux<&str, ()> = ClientMux::new();
    let a = mux.accept("a");
    mux.close(a);
    assert_eq!(mux.sink(a), None);
}

#[test]
fn replies_go_to_who_asked_once() {
    let mut mux: ClientMux<(), &str> = ClientMux::new();
    let q = mux.ask("peer", b"query".to_vec());
    assert_eq!((q.channel, q.cmd, q.data.as_slice()), (1, CMD_DNS_REQ, &b"query"[..]));
    let reply = || Frame::new(1, CMD_DNS_RESPONSE, b"reply".to_vec());
    assert!(matches!(
        mux.on_frame(reply()),
        ClientAction::Answer { peer: "peer", data } if data == b"reply"
    ));
    assert!(matches!(mux.on_frame(reply()), ClientAction::Ignore));
    let q = mux.ask("late", vec![]);
    assert!(matches!(mux.on_frame(Frame::new(q.channel, CMD_DNS_RESPONSE, vec![])), ClientAction::Ignore));
    assert!(matches!(
        mux.on_frame(Frame::new(q.channel, CMD_DNS_RESPONSE, vec![1])),
        ClientAction::Ignore
    ));
}

#[test]
fn plans_fill_in_the_usual_ports() {
    let p = plan(&args(&["10.0.0.0/8", "fd00::/8"], true, true), 4711);
    assert_eq!(p.chain, "RUSHTLE_4711");
    assert_eq!((p.port, p.dns_port, p.dns, p.manage), (12300, 12353, true, true));
    assert_eq!(p.subnets_v4, vec!["10.0.0.0/8"]);
    assert_eq!(p.subnets_v6, vec!["fd00::/8"]);
    let mut a = args(&[], false, false);
    a.listen_port = 5;
    a.dns_listen_port = 6;
    let p = plan(&a, 1);
    assert_eq!((p.port, p.dns_port, p.dns, p.manage), (5, 6, false, false));
}

#[test]
fn chains_are_named_after_the_process() {
    assert_eq!(chain_name(4711), "RUSHTLE_4711");
    assert_eq!(chain_name(u32::MAX), "RUSHTLE_4294967295");
}

#[test]
fn full_client_run() {
    let (mut c, a) = ClientRun::new(plan(&args(&["10.0.0.0/8", "fd00::/8"], true, true), 4711));
    assert!(matches!(a, RunAction::BindTcp { port: 12300 }));
    assert!(matches!(c.next(RunEvent::Done), RunAction::BindTcp6 { port: 12300 }));
    assert!(matches!(c.next(RunEvent::Done), RunAction::BindDns { port: 12353 }));
    assert!(matches!(c.next(RunEvent::Done), RunAction::SetUpLink));
    match c.next(RunEvent::Done) {
        RunAction::Install(o) => {
            assert_eq!((o.chain.as_str(), o.tcp_port, o.dns_port), ("RUSHTLE_4711", 12300, 12353));
            assert_eq!(o.subnets_v4, vec!["10.0.0.0/8"]);
            assert_eq!(o.subnets_v6, vec!["fd00::/8"]);
            assert!(o.dns);
        }
        other => panic!("{:?}", other),
    }
    assert!(matches!(c.next(RunEvent::Done), RunAction::Serve));
    assert!(matches!(
        c.next(RunEvent::Done),
        RunAction::Remove { chain, has_v6: true } if chain == "RUSHTLE_4711"
    ));
    assert!(matches!(c.next(RunEvent::Failed("ignored".to_string())), RunAction::Stop(Ok(()))));
}

#[test]
fn short_client_run_leaves_rules_alone() {
    let (mut c, a) = ClientRun::new(plan(&args(&["10.0.0.0/8"], false, false), 7));
    assert!(matches!(a, RunAction::BindTcp { port: 12300 }));
    assert!(matches!(c.next(RunEvent::Done), RunAction::SetUpLink));
    assert!(matches!(c.next(RunEvent::Done), RunAction::Serve));
    assert!(matches!(c.next(RunEvent::Done), RunAction::Stop(Ok(()))));
}

#[test]
fn failed_install_is_taken_back() {
    let (mut c, _) = ClientRun::new(plan(&args(&["10.0.0.0/8"], true, false), 7));
    c.next(RunEvent::Done);
    assert!(matches!(
        c.next(RunEvent::Done),
        RunAction::Install(o) if o.chain == "RUSHTLE_7" && o.subnets_v6.is_empty() && !o.dns
    ));
    assert!(matches!(
        c.next(RunEvent::Failed("no iptables".to_string())),
        RunAction::Remove { chain, has_v6: false } if chain == "RUSHTLE_7"
    ));
    match c.next(RunEvent::Done) {
        RunAction::Stop(Err(e)) => {
            assert!(matches!(&e, RunError::Install(_)));
            assert_eq!(e.text(), "no iptables");
        }
        other => panic!("{:?}", other),
    }
}

#[test]
fn client_gives_up_where_it_cannot_listen() {
    let cause = || RunEvent::Failed("in use".to_string());
    let all = || plan(&args(&["10.0.0.0/8", "fd00::/8"], true, true), 7);
    let (mut c, _) = ClientRun::new(all());
    match c.next(cause()) {
        RunAction::Stop(Err(e)) => assert_eq!(e.text(), "bind 127.0.0.1:12300: in use"),
        other => panic!("{:?}", other),
    }
    let (mut c, _) = ClientRun::new(all());
    c.next(RunEvent::Done);
    match c.next(cause()) {
        RunAction::Stop(Err(e)) => assert_eq!(e.text(), "bind [::1]:12300: in use"),
        other => panic!("{:?}", other),
    }
    let (mut c, _) = ClientRun::new(all());
    c.next(RunEvent::Done);
    c.next(RunEvent::Done);
    match c.next(cause()) {
        RunAction::Stop(Err(e)) => assert_eq!(e.text(), "bind UDP 127.0.0.1:12353: in use"),
        other => panic!("{:?}", other),
    }
    let (mut c, _) = ClientRun::new(all());
    c.next(RunEvent::Done);
    c.next(RunEvent::Done);
    c.next(RunEvent::Done);
    match c.next(RunEvent::Failed("no link".to_string())) {
        RunAction::Stop(Err(RunError::Link(s))) => assert_eq!(s, "no link"),
        other => panic!("{:?}", other),
    }
}

#[test]
fn connection_of_a_client() {
    let (mut c, a) = ClientConn::new(5, "10.0.0.1", 443);
    match a {
        ClientConnAction::Send(f) => {
            assert_eq!((f.channel, f.cmd, f.data), (5, CMD_TCP_CONNECT, b"2,10.0.0.1,443".to_vec()))
        }
        other => panic!("{:?}", other),
    }
    assert!(matches!(c.next(true), ClientConnAction::Forward { channel: 5 }));
    assert!(matches!(c.next(false), ClientConnAction::Forget { channel: 5 }));
    assert!(matches!(c.next(true), ClientConnAction::Stop));
}

#[test]
fn connection_without_a_link() {
    let (mut c, _) = ClientConn::new(5, "10.0.0.1", 443);
    assert!(matches!(c.next(false), ClientConnAction::Stop));
    assert!(matches!(c.next(true), ClientConnAction::Stop));
}
