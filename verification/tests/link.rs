use rushtle::link::{is_dead_pipe_err, LinkAction, LinkError, LinkEvent, LinkSetup};
use rushtle::probe::{
    make_probe_payloads, Probe, ProbeError, ProbeOutcome, PROBE_BURST_FRAMES, PROBE_CHANNEL_BASE,
    PROBE_FRAME_PAYLOAD, PROBE_TIMEOUT_SECS,
};
use rushtle::ssnet::{Frame, FrameError, CMD_PING, CMD_PONG, CMD_ROUTES};

fn pong(i: usize, data: Vec<u8>) -> Frame {
    Frame::new(PROBE_CHANNEL_BASE + i as u16, CMD_PONG, data)
}

fn advice(us: u64) -> String {
    format!(
        "{}us \u{2014} apiserver layer drops frames even with chunking. Try a larger \
         --probe-fallback-us, or fall back to --rushtle-server.",
        us
    )
}

#[test]
fn probe_constants() {
    assert_eq!(PROBE_CHANNEL_BASE, 0xff00);
    assert_eq!(PROBE_BURST_FRAMES, 16);
    assert_eq!(PROBE_FRAME_PAYLOAD, 256);
    assert_eq!(PROBE_TIMEOUT_SECS, 3);
}

#[test]
fn probe_payloads() {
    let p = make_probe_payloads();
    assert_eq!(p.len(), 16);
    for (i, payload) in p.iter().enumerate() {
        let expected: Vec<u8> = (0..256usize).map(|j| ((i * 31 + j) & 0xff) as u8).collect();
        assert_eq!(payload, &expected);
        for other in &p[..i] {
            assert_ne!(payload, other);
        }
    }
}

#[test]
fn probe_sends_one_ping_per_channel() {
    let pings = Probe::new(make_probe_payloads()).pings();
    assert_eq!(pings.len(), 16);
    for (i, f) in pings.iter().enumerate() {
        assert_eq!((f.channel, f.cmd, f.data.len()), (0xff00 + i as u16, CMD_PING, 256));
    }
}

#[test]
fn probe_passes_in_any_order_among_other_frames() {
    let payloads = make_probe_payloads();
    let mut p = Probe::new(make_probe_payloads());
    assert!(matches!(p.on_frame(&Frame::new(0, CMD_PING, b"chicken".to_vec())), ProbeOutcome::More));
    assert!(matches!(p.on_frame(&Frame::new(0, CMD_ROUTES, vec![])), ProbeOutcome::More));
    assert!(matches!(p.on_frame(&Frame::new(5, CMD_PONG, vec![1])), ProbeOutcome::More));
    assert!(matches!(p.on_frame(&Frame::new(0xff10, CMD_PONG, vec![1])), ProbeOutcome::More));
    for i in (1..16usize).rev() {
        assert!(!p.passed());
        assert!(matches!(p.on_frame(&pong(i, payloads[i].clone())), ProbeOutcome::More));
        assert!(matches!(p.on_frame(&pong(i, payloads[i].clone())), ProbeOutcome::More));
    }
    assert!(matches!(p.on_frame(&pong(0, payloads[0].clone())), ProbeOutcome::Passed));
    assert!(p.passed());
}

#[test]
fn probe_fails_on_other_bytes() {
    let mut p = Probe::new(make_probe_payloads());
    match p.on_frame(&pong(3, vec![0; 10])) {
        ProbeOutcome::Failed(e) => assert_eq!(
            e.text(),
            "probe PONG #3 payload mismatch (10 bytes received, 256 expected)"
        ),
        other => panic!("{:?}", other),
    }
}

#[test]
fn probe_timeout_names_what_is_missing() {
    let payloads = make_probe_payloads();
    let mut p = Probe::new(make_probe_payloads());
    for i in 0..16usize {
        if i != 2 && i != 11 {
            p.on_frame(&pong(i, payloads[i].clone()));
        }
    }
    let e = p.timed_out();
    assert!(matches!(&e, ProbeError::Timeout { lost, total: 16 } if lost == &vec![2usize, 11]));
    assert_eq!(e.text(), "probe timeout after 3s, lost 2/16 PONGs (idx [2, 11])");
}

#[test]
fn probe_error_texts() {
    let e = ProbeError::Send { index: 4, channel: 0xff04, cause: "Broken pipe (os error 32)".to_string() };
    assert_eq!(e.text(), "sending probe PING #4 (ch=65284): Broken pipe (os error 32)");
    assert_eq!(ProbeError::Eof.text(), "EOF on remote stdout during probe");
    assert_eq!(ProbeError::Read(FrameError::BadMagic(1, 2)).text(), "bad magic: 0102");
}

#[test]
fn healthy_link() {
    let (mut l, a) = LinkSetup::new(2000);
    assert!(matches!(a, LinkAction::Spawn));
    assert!(matches!(l.next(LinkEvent::Spawned), LinkAction::ReadSync));
    assert!(matches!(l.next(LinkEvent::Synced), LinkAction::Probe));
    assert!(matches!(l.next(LinkEvent::ProbePassed), LinkAction::Ready));
}

#[test]
fn link_without_probe() {
    let (mut l, _) = LinkSetup::new(0);
    l.next(LinkEvent::Spawned);
    assert!(matches!(l.next(LinkEvent::Synced), LinkAction::Ready));
}

#[test]
fn lossy_link_gets_a_delay() {
    let (mut l, _) = LinkSetup::new(2000);
    l.next(LinkEvent::Spawned);
    l.next(LinkEvent::Synced);
    let lost = || ProbeError::Timeout { lost: vec![1], total: 16 };
    assert!(matches!(l.next(LinkEvent::ProbeFailed(lost())), LinkAction::DelayAndProbe(2000)));
    match l.next(LinkEvent::ProbeFailed(lost())) {
        LinkAction::Fail(e) => {
            assert!(!is_dead_pipe_err(&e));
            assert_eq!(
                e.text(),
                format!(
                    "link probe still failing with FRAME_DELAY={}: probe timeout after 3s, lost \
                     1/16 PONGs (idx [1])",
                    advice(2000)
                )
            );
        }
        other => panic!("{:?}", other),
    }
}

#[test]
fn mismatch_and_bad_magic_do_not_start_again() {
    for e in [
        ProbeError::Mismatch { index: 0, received: 1, expected: 256 },
        ProbeError::Read(FrameError::BadMagic(0, 0)),
    ] {
        let (mut l, _) = LinkSetup::new(1);
        l.next(LinkEvent::Spawned);
        l.next(LinkEvent::Synced);
        l.next(LinkEvent::ProbeFailed(ProbeError::Eof));
        assert!(matches!(l.next(LinkEvent::ProbeFailed(e)), LinkAction::Fail(_)));
    }
}

#[test]
fn dead_link_is_started_again_once() {
    let (mut l, _) = LinkSetup::new(500);
    l.next(LinkEvent::Spawned);
    l.next(LinkEvent::Synced);
    assert!(matches!(l.next(LinkEvent::ProbeFailed(ProbeError::Eof)), LinkAction::DelayAndProbe(500)));
    assert!(matches!(
        l.next(LinkEvent::ProbeFailed(ProbeError::Send {
            index: 0,
            channel: 0xff00,
            cause: "Broken pipe (os error 32)".to_string()
        })),
        LinkAction::DelayAndRespawn(500)
    ));
    assert!(matches!(l.next(LinkEvent::Spawned), LinkAction::ReadSync));
    assert!(matches!(l.next(LinkEvent::Synced), LinkAction::Probe));
    assert!(matches!(l.next(LinkEvent::ProbeFailed(ProbeError::Eof)), LinkAction::DelayAndProbe(500)));
    match l.next(LinkEvent::ProbeFailed(ProbeError::Eof)) {
        LinkAction::Fail(e) => assert_eq!(
            e.text(),
            format!(
                "probe still failing after respawn with FRAME_DELAY={}: link probe still failing \
                 with FRAME_DELAY={}: EOF on remote stdout during probe",
                advice(500),
                advice(500)
            )
        ),
        other => panic!("{:?}", other),
    }
}

#[test]
fn end_of_stream_starts_again() {
    for e in [
        ProbeError::Eof,
        ProbeError::Read(FrameError::Eof("cut short".to_string())),
        ProbeError::Read(FrameError::Eof("early eof".to_string())),
        ProbeError::Read(FrameError::Io("early eof".to_string())),
    ] {
        let (mut l, _) = LinkSetup::new(9);
        l.next(LinkEvent::Spawned);
        l.next(LinkEvent::Synced);
        l.next(LinkEvent::ProbeFailed(ProbeError::Eof));
        assert!(matches!(l.next(LinkEvent::ProbeFailed(e)), LinkAction::DelayAndRespawn(9)));
    }
}

#[test]
fn link_that_does_not_start_or_sync() {
    let (mut l, _) = LinkSetup::new(9);
    match l.next(LinkEvent::SpawnFailed("spawn remote: x: no such file".to_string())) {
        LinkAction::Fail(e) => assert_eq!(e.text(), "spawn remote: x: no such file"),
        other => panic!("{:?}", other),
    }
    let (mut l, _) = LinkSetup::new(9);
    l.next(LinkEvent::Spawned);
    match l.next(LinkEvent::SyncFailed("early eof".to_string())) {
        LinkAction::Fail(e) => assert_eq!(e.text(), "waiting for server sync header: early eof"),
        other => panic!("{:?}", other),
    }
    let e = LinkError::Sync { respawn: true, cause: "early eof".to_string() };
    assert_eq!(e.text(), "waiting for server sync header (respawn): early eof");
}

#[test]
fn dead_pipes_are_told_by_their_message() {
    for s in [
        "Broken pipe",
        "write: os error 32",
        "EOF on remote stdout",
        "kind: UnexpectedEof",
        "unexpected end of file",
        "early eof",
    ] {
        assert!(is_dead_pipe_err(&LinkError::Spawn(s.to_string())), "{}", s);
    }
    for s in ["", "broken pipe", "late eof", "timed out"] {
        assert!(!is_dead_pipe_err(&LinkError::Spawn(s.to_string())), "{}", s);
    }
}
