//! Setting up the link to the server: starting the remote command, waiting for the
//! synchronisation header, and probing the link.
//!
//! A probe that fails is repeated once with a delay between frames. Where the failure
//! says that the pipe to the remote command is dead, the command is started again, and
//! everything is sent with the delay from the first frame on.

use vstd::prelude::*;

use crate::decimal::{digits, hex_byte, is_digit, lemma_digits, number_list, push_decimal};
use crate::probe::{probe_error_text, ProbeError, ProbeErrorView};
use crate::ssnet::frame::{early_eof, FrameError, FrameErrorView};
use crate::text::{contains_text, has_text, occurs_at};

verus! {

// --- errors -----------------------------------------------------------------

/// Why the link could not be set up.
#[derive(Debug)]
pub enum LinkError {
    /// The remote command could not be started.
    Spawn(String),
    /// The synchronisation header did not come; whether after a second start.
    Sync { respawn: bool, cause: String },
    /// The probe failed, and failed again with the delay.
    StillFailing { us: u64, probe: ProbeError },
    /// The probe failed twice again after the second start.
    FailingAfterRespawn { us: u64, probe: ProbeError },
}

/// What a `LinkError` says.
#[verifier::ext_equal]
pub enum LinkErrorView {
    Spawn(Seq<char>),
    Sync { respawn: bool, cause: Seq<char> },
    StillFailing { us: u64, probe: ProbeErrorView },
    FailingAfterRespawn { us: u64, probe: ProbeErrorView },
}

impl View for LinkError {
    type V = LinkErrorView;

    open spec fn view(&self) -> LinkErrorView {
        match self {
            LinkError::Spawn(s) => LinkErrorView::Spawn(s@),
            LinkError::Sync { respawn, cause } => LinkErrorView::Sync {
                respawn: *respawn,
                cause: cause@,
            },
            LinkError::StillFailing { us, probe } => LinkErrorView::StillFailing {
                us: *us,
                probe: probe@,
            },
            LinkError::FailingAfterRespawn { us, probe } => LinkErrorView::FailingAfterRespawn {
                us: *us,
                probe: probe@,
            },
        }
    }
}

/// What is advised after a probe that failed in spite of the delay.
pub open spec fn advice() -> Seq<char> {
    "us \u{2014} apiserver layer drops frames even with chunking. Try a larger --probe-fallback-us, or fall back to --rushtle-server."@
}

/// The message of a probe that failed in spite of the delay.
pub open spec fn still_failing_text(us: u64, probe: ProbeErrorView) -> Seq<char> {
    "link probe still failing with FRAME_DELAY="@ + digits(us as nat) + advice() + ": "@
        + probe_error_text(probe)
}

/// The message of an error.
pub open spec fn link_error_text(e: LinkErrorView) -> Seq<char> {
    match e {
        LinkErrorView::Spawn(s) => s,
        LinkErrorView::Sync { respawn, cause } => if respawn {
            "waiting for server sync header (respawn): "@ + cause
        } else {
            "waiting for server sync header: "@ + cause
        },
        LinkErrorView::StillFailing { us, probe } => still_failing_text(us, probe),
        LinkErrorView::FailingAfterRespawn { us, probe } =>
            "probe still failing after respawn with FRAME_DELAY="@ + digits(us as nat) + advice()
            + ": "@ + still_failing_text(us, probe),
    }
}

fn push_advice(s: &mut String, us: u64)
    ensures
        final(s)@ == old(s)@ + digits(us as nat) + advice() + ": "@,
{
    push_decimal(s, us);
    s.append(
        "us \u{2014} apiserver layer drops frames even with chunking. Try a larger --probe-fallback-us, or fall back to --rushtle-server.",
    );
    s.append(": ");
}

impl LinkError {
    /// The message of the error, with its causes.
    pub fn text(&self) -> (r: String)
        ensures
            r@ == link_error_text(self@),
    {
        let mut s: String = String::new();
        match self {
            LinkError::Spawn(t) => {
                s.append(t.as_str());
            },
            LinkError::Sync { respawn, cause } => {
                if *respawn {
                    s.append("waiting for server sync header (respawn): ");
                } else {
                    s.append("waiting for server sync header: ");
                }
                s.append(cause.as_str());
            },
            LinkError::StillFailing { us, probe } => {
                s.append("link probe still failing with FRAME_DELAY=");
                push_advice(&mut s, *us);
                s.append(probe.text().as_str());
            },
            LinkError::FailingAfterRespawn { us, probe } => {
                s.append("probe still failing after respawn with FRAME_DELAY=");
                push_advice(&mut s, *us);
                s.append("link probe still failing with FRAME_DELAY=");
                push_advice(&mut s, *us);
                s.append(probe.text().as_str());
            },
        }
        assert(s@ =~= link_error_text(self@));
        s
    }
}

/// The message tells of a dead pipe.
pub open spec fn is_dead_pipe(text: Seq<char>) -> bool {
    ||| contains_text(text, "Broken pipe"@)
    ||| contains_text(text, "os error 32"@)
    ||| contains_text(text, "EOF on remote stdout"@)
    ||| contains_text(text, "UnexpectedEof"@)
    ||| contains_text(text, "unexpected end of file"@)
    ||| contains_text(text, "early eof"@)
}

/// The stream ended during the probe that the error is about, between two frames or
/// inside one.
pub open spec fn is_end_of_stream(e: LinkErrorView) -> bool {
    match e {
        LinkErrorView::StillFailing { probe, .. } => stream_ended(probe),
        LinkErrorView::FailingAfterRespawn { probe, .. } => stream_ended(probe),
        _ => false,
    }
}

/// The stream ended during the probe.
pub open spec fn stream_ended(probe: ProbeErrorView) -> bool {
    match probe {
        ProbeErrorView::Eof => true,
        ProbeErrorView::Read(FrameErrorView::Eof(_)) => true,
        _ => false,
    }
}

/// The pipe is dead: the stream ended, or the message says so.
pub open spec fn dead_pipe(e: LinkErrorView) -> bool {
    is_end_of_stream(e) || is_dead_pipe(link_error_text(e))
}

fn has_ended(probe: &ProbeError) -> (r: bool)
    ensures
        r == stream_ended(probe@),
{
    match probe {
        ProbeError::Eof => true,
        ProbeError::Read(FrameError::Eof(_)) => true,
        _ => false,
    }
}

/// Tests whether an error tells of a dead pipe, over which nothing can be repeated.
pub fn is_dead_pipe_err(e: &LinkError) -> (r: bool)
    ensures
        r == dead_pipe(e@),
{
    let ended: bool = match e {
        LinkError::StillFailing { probe, .. } => has_ended(probe),
        LinkError::FailingAfterRespawn { probe, .. } => has_ended(probe),
        _ => false,
    };
    let t: String = e.text();
    let s: &str = t.as_str();
    ended || has_text(s, "Broken pipe") || has_text(s, "os error 32") || has_text(
        s,
        "EOF on remote stdout",
    ) || has_text(s, "UnexpectedEof") || has_text(s, "unexpected end of file") || has_text(
        s,
        "early eof",
    )
}

// --- the machine ------------------------------------------------------------

/// How far the set up has come.
#[derive(Clone, Copy, Debug, PartialEq, Eq, Structural)]
pub enum LinkState {
    /// The remote command is being started, perhaps for the second time.
    Spawning { respawn: bool },
    /// The synchronisation header is awaited.
    Syncing { respawn: bool },
    /// The link is being probed, perhaps for the second time, then with the delay.
    Probing { respawn: bool, again: bool },
    /// The link is ready or was given up.
    Finished,
}

/// What came of the last action.
#[derive(Debug)]
pub enum LinkEvent {
    Spawned,
    SpawnFailed(String),
    Synced,
    SyncFailed(String),
    ProbePassed,
    ProbeFailed(ProbeError),
}

/// What a `LinkEvent` says.
#[verifier::ext_equal]
pub enum LinkEventView {
    Spawned,
    SpawnFailed(Seq<char>),
    Synced,
    SyncFailed(Seq<char>),
    ProbePassed,
    ProbeFailed(ProbeErrorView),
}

impl View for LinkEvent {
    type V = LinkEventView;

    open spec fn view(&self) -> LinkEventView {
        match self {
            LinkEvent::Spawned => LinkEventView::Spawned,
            LinkEvent::SpawnFailed(s) => LinkEventView::SpawnFailed(s@),
            LinkEvent::Synced => LinkEventView::Synced,
            LinkEvent::SyncFailed(s) => LinkEventView::SyncFailed(s@),
            LinkEvent::ProbePassed => LinkEventView::ProbePassed,
            LinkEvent::ProbeFailed(e) => LinkEventView::ProbeFailed(e@),
        }
    }
}

/// What to do next.
#[derive(Debug)]
pub enum LinkAction {
    /// Start the remote command.
    Spawn,
    /// Read the synchronisation header.
    ReadSync,
    /// Probe the link.
    Probe,
    /// Set the delay between frames to this many microseconds, and probe again.
    DelayAndProbe(u64),
    /// Stop the remote command, set the delay between frames to this many
    /// microseconds, and start the remote command again.
    DelayAndRespawn(u64),
    /// Go on: the link is ready.
    Ready,
    /// Give up.
    Fail(LinkError),
}

/// What a `LinkAction` says.
#[verifier::ext_equal]
pub enum LinkActionView {
    Spawn,
    ReadSync,
    Probe,
    DelayAndProbe(u64),
    DelayAndRespawn(u64),
    Ready,
    Fail(LinkErrorView),
}

impl View for LinkAction {
    type V = LinkActionView;

    open spec fn view(&self) -> LinkActionView {
        match self {
            LinkAction::Spawn => LinkActionView::Spawn,
            LinkAction::ReadSync => LinkActionView::ReadSync,
            LinkAction::Probe => LinkActionView::Probe,
            LinkAction::DelayAndProbe(us) => LinkActionView::DelayAndProbe(*us),
            LinkAction::DelayAndRespawn(us) => LinkActionView::DelayAndRespawn(*us),
            LinkAction::Ready => LinkActionView::Ready,
            LinkAction::Fail(e) => LinkActionView::Fail(e@),
        }
    }
}

/// The event can come in the state.
pub open spec fn event_fits(state: LinkState, event: LinkEventView) -> bool {
    match state {
        LinkState::Spawning { .. } => event is Spawned || event is SpawnFailed,
        LinkState::Syncing { .. } => event is Synced || event is SyncFailed,
        LinkState::Probing { .. } => event is ProbePassed || event is ProbeFailed,
        LinkState::Finished => false,
    }
}

/// The next state and action, for an event that fits. The fallback is the delay for a
/// link that loses frames; zero switches the probe off.
pub open spec fn link_step(fallback: u64, state: LinkState, event: LinkEventView) -> (
    LinkState,
    LinkActionView,
) {
    match (state, event) {
        (LinkState::Spawning { respawn }, LinkEventView::Spawned) => (
            LinkState::Syncing { respawn },
            LinkActionView::ReadSync,
        ),
        (LinkState::Spawning { respawn }, LinkEventView::SpawnFailed(s)) => (
            LinkState::Finished,
            LinkActionView::Fail(LinkErrorView::Spawn(s)),
        ),
        (LinkState::Syncing { respawn }, LinkEventView::Synced) => if fallback == 0 {
            (LinkState::Finished, LinkActionView::Ready)
        } else {
            (LinkState::Probing { respawn, again: false }, LinkActionView::Probe)
        },
        (LinkState::Syncing { respawn }, LinkEventView::SyncFailed(cause)) => (
            LinkState::Finished,
            LinkActionView::Fail(LinkErrorView::Sync { respawn, cause }),
        ),
        (LinkState::Probing { .. }, LinkEventView::ProbePassed) => (
            LinkState::Finished,
            LinkActionView::Ready,
        ),
        (LinkState::Probing { respawn, again: false }, LinkEventView::ProbeFailed(_)) => (
            LinkState::Probing { respawn, again: true },
            LinkActionView::DelayAndProbe(fallback),
        ),
        (LinkState::Probing { respawn: false, again: true }, LinkEventView::ProbeFailed(probe)) => {
            let e = LinkErrorView::StillFailing { us: fallback, probe };
            if dead_pipe(e) && fallback > 0 {
                (LinkState::Spawning { respawn: true }, LinkActionView::DelayAndRespawn(fallback))
            } else {
                (LinkState::Finished, LinkActionView::Fail(e))
            }
        },
        (LinkState::Probing { respawn: true, again: true }, LinkEventView::ProbeFailed(probe)) => (
            LinkState::Finished,
            LinkActionView::Fail(LinkErrorView::FailingAfterRespawn { us: fallback, probe }),
        ),
        _ => arbitrary(),
    }
}

/// The set up of a link.
#[derive(Debug)]
pub struct LinkSetup {
    pub fallback_us: u64,
    pub state: LinkState,
}

impl LinkSetup {
    /// Begins the set up. The first action is to start the remote command.
    pub fn new(fallback_us: u64) -> (r: (LinkSetup, LinkAction))
        ensures
            r.0.fallback_us == fallback_us,
            r.0.state == (LinkState::Spawning { respawn: false }),
            r.1@ == LinkActionView::Spawn,
    {
        let setup: LinkSetup = LinkSetup {
            fallback_us,
            state: LinkState::Spawning { respawn: false },
        };
        (setup, LinkAction::Spawn)
    }

    /// The next action, after what came of the last one.
    pub fn next(&mut self, event: LinkEvent) -> (r: LinkAction)
        requires
            event_fits(old(self).state, event@),
        ensures
            final(self).fallback_us == old(self).fallback_us,
            (final(self).state, r@) == link_step(
                old(self).fallback_us,
                old(self).state,
                event@,
            ),
    {
        let us: u64 = self.fallback_us;
        let (state, action): (LinkState, LinkAction) = match (self.state, event) {
            (LinkState::Spawning { respawn }, LinkEvent::Spawned) => (
                LinkState::Syncing { respawn },
                LinkAction::ReadSync,
            ),
            (LinkState::Spawning { .. }, LinkEvent::SpawnFailed(s)) => (
                LinkState::Finished,
                LinkAction::Fail(LinkError::Spawn(s)),
            ),
            (LinkState::Syncing { respawn }, LinkEvent::Synced) => {
                if us == 0 {
                    (LinkState::Finished, LinkAction::Ready)
                } else {
                    (LinkState::Probing { respawn, again: false }, LinkAction::Probe)
                }
            },
            (LinkState::Syncing { respawn }, LinkEvent::SyncFailed(cause)) => (
                LinkState::Finished,
                LinkAction::Fail(LinkError::Sync { respawn, cause }),
            ),
            (LinkState::Probing { .. }, LinkEvent::ProbePassed) => (
                LinkState::Finished,
                LinkAction::Ready,
            ),
            (LinkState::Probing { respawn, again }, LinkEvent::ProbeFailed(probe)) => {
                if !again {
                    (LinkState::Probing { respawn, again: true }, LinkAction::DelayAndProbe(us))
                } else if respawn {
                    (
                        LinkState::Finished,
                        LinkAction::Fail(LinkError::FailingAfterRespawn { us, probe }),
                    )
                } else {
                    let e: LinkError = LinkError::StillFailing { us, probe };
                    if is_dead_pipe_err(&e) && us > 0 {
                        (LinkState::Spawning { respawn: true }, LinkAction::DelayAndRespawn(us))
                    } else {
                        (LinkState::Finished, LinkAction::Fail(e))
                    }
                }
            },
            _ => vstd::pervasive::unreached(),
        };
        self.state = state;
        action
    }
}

// --- laws -------------------------------------------------------------------

/// The state and all actions after the events `events`; `None` if one does not fit.
pub open spec fn link_run(fallback: u64, events: Seq<LinkEventView>) -> Option<
    (LinkState, Seq<LinkActionView>),
>
    decreases events.len(),
{
    if events.len() == 0 {
        Some((LinkState::Spawning { respawn: false }, seq![LinkActionView::Spawn]))
    } else {
        match link_run(fallback, events.drop_last()) {
            Some((state, actions)) => if event_fits(state, events.last()) {
                let (next, action) = link_step(fallback, state, events.last());
                Some((next, actions.push(action)))
            } else {
                None
            },
            None => None,
        }
    }
}

/// The state after the events `events`, all of which fit.
pub open spec fn link_state(fallback: u64, events: Seq<LinkEventView>) -> LinkState {
    match link_run(fallback, events) {
        Some((state, _)) => state,
        None => arbitrary(),
    }
}

/// The actions up to and after the events `events`, all of which fit.
pub open spec fn link_actions(fallback: u64, events: Seq<LinkEventView>) -> Seq<LinkActionView> {
    match link_run(fallback, events) {
        Some((_, actions)) => actions,
        None => arbitrary(),
    }
}

/// How many more events can come at most.
pub open spec fn events_left(state: LinkState) -> nat {
    match state {
        LinkState::Spawning { respawn } => if respawn {
            4
        } else {
            8
        },
        LinkState::Syncing { respawn } => if respawn {
            3
        } else {
            7
        },
        LinkState::Probing { respawn, again } => if respawn {
            if again {
                1
            } else {
                2
            }
        } else {
            if again {
                5
            } else {
                6
            }
        },
        LinkState::Finished => 0,
    }
}

/// The set up comes to an end after at most eight events: at most two starts of the
/// remote command, each with at most two probes.
pub proof fn link_run_ends(fallback: u64, events: Seq<LinkEventView>)
    requires
        link_run(fallback, events) is Some,
    ensures
        events.len() + events_left(link_state(fallback, events)) <= 8,
        link_actions(fallback, events).len() == events.len() + 1,
    decreases events.len(),
{
    if events.len() > 0 {
        link_run_ends(fallback, events.drop_last());
    }
}

/// The action sends a probe.
pub open spec fn is_probe(a: LinkActionView) -> bool {
    a is Probe || a is DelayAndProbe
}

/// The action sets the delay between frames to `us`.
pub open spec fn sets_delay(a: LinkActionView, us: u64) -> bool {
    a == LinkActionView::DelayAndProbe(us) || a == LinkActionView::DelayAndRespawn(us)
}

/// With a fallback of zero the link is neither probed nor slowed down.
pub proof fn no_probe_without_fallback(events: Seq<LinkEventView>, i: int)
    requires
        link_run(0, events) is Some,
        0 <= i < link_actions(0, events).len(),
    ensures
        !is_probe(link_actions(0, events)[i]),
        !sets_delay(link_actions(0, events)[i], 0),
        !(link_state(0, events) is Probing),
    decreases events.len(),
{
    if events.len() > 0 {
        let (state, actions) = link_run(0, events.drop_last())->0;
        link_run_ends(0, events.drop_last());
        if i < actions.len() {
            no_probe_without_fallback(events.drop_last(), i);
        } else {
            no_probe_without_fallback(events.drop_last(), 0);
        }
    }
}

/// The delay was set to `us` after the action number `i`.
pub open spec fn delay_set_after(actions: Seq<LinkActionView>, i: int, us: u64) -> bool {
    exists|k: int| i < k < actions.len() && sets_delay(#[trigger] actions[k], us)
}

proof fn lemma_delay_set(fallback: u64, events: Seq<LinkEventView>, i: int)
    requires
        link_run(fallback, events) is Some,
        0 <= i < link_actions(fallback, events).len(),
        is_probe(link_actions(fallback, events)[i]),
    ensures
        ({
            let (state, actions) = link_run(fallback, events)->0;
            match state {
                LinkState::Spawning { respawn } => respawn && delay_set_after(actions, i, fallback),
                LinkState::Syncing { respawn } => respawn && delay_set_after(actions, i, fallback),
                LinkState::Probing { respawn: false, again: false } => i == actions.len() - 1,
                LinkState::Probing { .. } => i == actions.len() - 1 || delay_set_after(
                    actions,
                    i,
                    fallback,
                ),
                LinkState::Finished => true,
            }
        }),
    decreases events.len(),
{
    if events.len() > 0 {
        let before = events.drop_last();
        let (state, actions) = link_run(fallback, before)->0;
        let all = link_actions(fallback, events);
        link_run_ends(fallback, before);
        if i < actions.len() {
            lemma_delay_set(fallback, before, i);
            assert(all[i] == actions[i]);
            if delay_set_after(actions, i, fallback) {
                let k = choose|k: int|
                    i < k < actions.len() && sets_delay(#[trigger] actions[k], fallback);
                assert(sets_delay(all[k], fallback));
            }
            if sets_delay(all.last(), fallback) {
                assert(sets_delay(all[actions.len() as int], fallback));
            }
        }
    }
}

/// Between two probes the delay is set to the fallback: only the first probe of a set
/// up is sent without it.
pub proof fn delay_between_probes(fallback: u64, events: Seq<LinkEventView>, i: int, j: int)
    requires
        link_run(fallback, events) is Some,
        0 <= i < j < link_actions(fallback, events).len(),
        is_probe(link_actions(fallback, events)[i]),
        is_probe(link_actions(fallback, events)[j]),
    ensures
        exists|k: int|
            i < k <= j && sets_delay(#[trigger] link_actions(fallback, events)[k], fallback),
    decreases events.len(),
{
    let all = link_actions(fallback, events);
    let before = events.drop_last();
    let (state, actions) = link_run(fallback, before)->0;
    link_run_ends(fallback, before);
    link_run_ends(fallback, events);
    if j < actions.len() {
        delay_between_probes(fallback, before, i, j);
        let k = choose|k: int| i < k <= j && sets_delay(#[trigger] actions[k], fallback);
        assert(sets_delay(all[k], fallback));
    } else {
        lemma_delay_set(fallback, before, i);
        if all[j] is DelayAndProbe {
            assert(sets_delay(all[j], fallback));
        } else {
            let k = choose|k: int|
                i < k < actions.len() && sets_delay(#[trigger] actions[k], fallback);
            assert(sets_delay(all[k], fallback));
        }
    }
}

/// A healthy link is started, synchronised and probed once, and no delay is set.
pub proof fn healthy_link_is_not_slowed(fallback: u64)
    requires
        fallback > 0,
    ensures
        link_run(
            fallback,
            seq![LinkEventView::Spawned, LinkEventView::Synced, LinkEventView::ProbePassed],
        ) == Some(
            (
                LinkState::Finished,
                seq![
                    LinkActionView::Spawn,
                    LinkActionView::ReadSync,
                    LinkActionView::Probe,
                    LinkActionView::Ready,
                ],
            ),
        ),
{
    let e3 = seq![LinkEventView::Spawned, LinkEventView::Synced, LinkEventView::ProbePassed];
    let e2 = e3.drop_last();
    let e1 = e2.drop_last();
    assert(e1.drop_last() =~= seq![]);
    reveal_with_fuel(link_run, 4);
    assert(link_actions(fallback, e3) =~= seq![
        LinkActionView::Spawn,
        LinkActionView::ReadSync,
        LinkActionView::Probe,
        LinkActionView::Ready,
    ]);
}

// --- which failures tell of a dead pipe -------------------------------------

/// `x` is nowhere directly followed by `y`.
spec fn no_pair(s: Seq<char>, x: char, y: char) -> bool {
    forall|i: int| 0 <= i < s.len() - 1 ==> !(#[trigger] s[i] == x && s[i + 1] == y)
}

proof fn lemma_pair_absent(s: Seq<char>, p: Seq<char>, k: int)
    requires
        0 <= k < p.len() - 1,
        no_pair(s, p[k], p[k + 1]),
    ensures
        !contains_text(s, p),
{
    if contains_text(s, p) {
        let i = choose|i: int| occurs_at(s, p, i);
        let q = s.subrange(i, i + p.len());
        assert(q[k] == s[i + k]);
        assert(q[k + 1] == s[i + k + 1]);
    }
}

/// From each of the texts that tell of a dead pipe a pair of neighbours is missing.
spec fn alive(s: Seq<char>) -> bool {
    &&& no_pair(s, 'B', 'r')
    &&& no_pair(s, 'r', 'r')
    &&& no_pair(s, 'O', 'F')
    &&& no_pair(s, 'U', 'n')
    &&& no_pair(s, 'n', 'e')
    &&& no_pair(s, 'r', 'l')
}

/// The first characters of those pairs.
spec fn opens_pair(c: char) -> bool {
    c == 'B' || c == 'r' || c == 'O' || c == 'U' || c == 'n'
}

proof fn lemma_alive(s: Seq<char>)
    requires
        alive(s),
    ensures
        !is_dead_pipe(s),
{
    reveal_strlit("Broken pipe");
    reveal_strlit("os error 32");
    reveal_strlit("EOF on remote stdout");
    reveal_strlit("UnexpectedEof");
    reveal_strlit("unexpected end of file");
    reveal_strlit("early eof");
    lemma_pair_absent(s, "Broken pipe"@, 0);
    lemma_pair_absent(s, "os error 32"@, 4);
    lemma_pair_absent(s, "EOF on remote stdout"@, 1);
    lemma_pair_absent(s, "UnexpectedEof"@, 0);
    lemma_pair_absent(s, "unexpected end of file"@, 1);
    lemma_pair_absent(s, "early eof"@, 2);
}

proof fn lemma_no_pair_concat(a: Seq<char>, b: Seq<char>, x: char, y: char)
    requires
        no_pair(a, x, y),
        no_pair(b, x, y),
        a.len() > 0 ==> a.last() != x,
    ensures
        no_pair(a + b, x, y),
{
    let s = a + b;
    assert forall|i: int| 0 <= i < s.len() - 1 implies !(#[trigger] s[i] == x && s[i + 1] == y) by {
        if i < a.len() - 1 {
            assert(s[i] == a[i] && s[i + 1] == a[i + 1]);
        } else if i >= a.len() {
            assert(s[i] == b[i - a.len()] && s[i + 1] == b[i - a.len() + 1]);
        }
    }
}

proof fn lemma_alive_concat(a: Seq<char>, b: Seq<char>)
    requires
        alive(a),
        alive(b),
        a.len() > 0 ==> !opens_pair(a.last()),
    ensures
        alive(a + b),
{
    lemma_no_pair_concat(a, b, 'B', 'r');
    lemma_no_pair_concat(a, b, 'r', 'r');
    lemma_no_pair_concat(a, b, 'O', 'F');
    lemma_no_pair_concat(a, b, 'U', 'n');
    lemma_no_pair_concat(a, b, 'n', 'e');
    lemma_no_pair_concat(a, b, 'r', 'l');
}

proof fn lemma_alive_digits(n: nat)
    ensures
        alive(digits(n)),
        digits(n).len() > 0,
        !opens_pair(digits(n).last()),
{
    lemma_digits(n);
    let d = digits(n);
    assert forall|i: int| 0 <= i < d.len() implies !opens_pair(#[trigger] d[i]) by {
        assert(is_digit(d[i]));
    }
}

proof fn lemma_alive_numbers(v: Seq<nat>)
    ensures
        alive(number_list(v)),
        number_list(v).len() > 0 ==> !opens_pair(number_list(v).last()),
    decreases v.len(),
{
    if v.len() == 1 {
        lemma_alive_digits(v[0]);
    } else if v.len() > 1 {
        let a = number_list(v.drop_last());
        let c = seq![',', ' '];
        lemma_alive_numbers(v.drop_last());
        lemma_alive_digits(v.last());
        assert(alive(c));
        lemma_alive_concat(a, c);
        lemma_alive_concat(a + c, digits(v.last()));
    }
}

proof fn lemma_alive_prefix(us: u64, probe: ProbeErrorView)
    requires
        alive(probe_error_text(probe)),
    ensures
        !is_dead_pipe(still_failing_text(us, probe)),
{
    reveal_strlit("link probe still failing with FRAME_DELAY=");
    reveal_strlit(
        "us \u{2014} apiserver layer drops frames even with chunking. Try a larger --probe-fallback-us, or fall back to --rushtle-server.",
    );
    reveal_strlit(": ");
    let p = "link probe still failing with FRAME_DELAY="@;
    let d = digits(us as nat);
    let c = ": "@;
    lemma_alive_digits(us as nat);
    assert(alive(p));
    assert(alive(advice()));
    assert(alive(c));
    lemma_alive_concat(p, d);
    lemma_alive_concat(p + d, advice());
    lemma_alive_concat(p + d + advice(), c);
    lemma_alive_concat(p + d + advice() + c, probe_error_text(probe));
    lemma_alive(still_failing_text(us, probe));
}

/// Where answers were lost but the pipe is alive, the failure of the second probe is
/// the outcome: the remote command is not started again.
pub proof fn lost_answers_do_not_respawn(fallback: u64, lost: Seq<nat>, total: nat)
    ensures
        ({
            let probe = ProbeErrorView::Timeout { lost, total };
            link_step(
                fallback,
                LinkState::Probing { respawn: false, again: true },
                LinkEventView::ProbeFailed(probe),
            ) == (
                LinkState::Finished,
                LinkActionView::Fail(LinkErrorView::StillFailing { us: fallback, probe }),
            )
        }),
{
    let probe = ProbeErrorView::Timeout { lost, total };
    reveal_strlit("probe timeout after 3s, lost ");
    reveal_strlit("/");
    reveal_strlit(" PONGs (idx [");
    reveal_strlit("])");
    let t0 = "probe timeout after 3s, lost "@;
    let t1 = t0 + digits(lost.len());
    let t2 = t1 + "/"@;
    let t3 = t2 + digits(total);
    let t4 = t3 + " PONGs (idx ["@;
    let t5 = t4 + number_list(lost);
    assert(alive(t0) && alive("/"@) && alive(" PONGs (idx ["@) && alive("])"@));
    lemma_alive_digits(lost.len());
    lemma_alive_digits(total);
    lemma_alive_numbers(lost);
    lemma_alive_concat(t0, digits(lost.len()));
    lemma_alive_concat(t1, "/"@);
    lemma_alive_concat(t2, digits(total));
    lemma_alive_concat(t3, " PONGs (idx ["@);
    lemma_alive_concat(t4, number_list(lost));
    assert(!opens_pair(t5.last())) by {
        if number_list(lost).len() == 0 {
            assert(t5.last() == t4.last());
        }
    }
    lemma_alive_concat(t5, "])"@);
    lemma_alive_prefix(fallback, probe);
}

/// Where an answer came back with other bytes, the failure of the second probe is the
/// outcome: the remote command is not started again.
pub proof fn mismatch_does_not_respawn(fallback: u64, index: nat, received: nat, expected: nat)
    ensures
        ({
            let probe = ProbeErrorView::Mismatch { index, received, expected };
            link_step(
                fallback,
                LinkState::Probing { respawn: false, again: true },
                LinkEventView::ProbeFailed(probe),
            ) == (
                LinkState::Finished,
                LinkActionView::Fail(LinkErrorView::StillFailing { us: fallback, probe }),
            )
        }),
{
    let probe = ProbeErrorView::Mismatch { index, received, expected };
    reveal_strlit("probe PONG #");
    reveal_strlit(" payload mismatch (");
    reveal_strlit(" bytes received, ");
    reveal_strlit(" expected)");
    let t0 = "probe PONG #"@;
    let t1 = t0 + digits(index);
    let t2 = t1 + " payload mismatch ("@;
    let t3 = t2 + digits(received);
    let t4 = t3 + " bytes received, "@;
    let t5 = t4 + digits(expected);
    assert(alive(t0) && alive(" payload mismatch ("@) && alive(" bytes received, "@) && alive(
        " expected)"@,
    ));
    lemma_alive_digits(index);
    lemma_alive_digits(received);
    lemma_alive_digits(expected);
    lemma_alive_concat(t0, digits(index));
    lemma_alive_concat(t1, " payload mismatch ("@);
    lemma_alive_concat(t2, digits(received));
    lemma_alive_concat(t3, " bytes received, "@);
    lemma_alive_concat(t4, digits(expected));
    lemma_alive_concat(t5, " expected)"@);
    lemma_alive_prefix(fallback, probe);
}

/// Where bytes came that are no frame, the failure of the second probe is the outcome:
/// the remote command is not started again.
pub proof fn bad_magic_does_not_respawn(fallback: u64, a: u8, b: u8)
    ensures
        ({
            let probe = ProbeErrorView::Read(FrameErrorView::BadMagic(a, b));
            link_step(
                fallback,
                LinkState::Probing { respawn: false, again: true },
                LinkEventView::ProbeFailed(probe),
            ) == (
                LinkState::Finished,
                LinkActionView::Fail(LinkErrorView::StillFailing { us: fallback, probe }),
            )
        }),
{
    let probe = ProbeErrorView::Read(FrameErrorView::BadMagic(a, b));
    reveal_strlit("bad magic: ");
    let t0 = "bad magic: "@;
    assert(alive(t0));
    assert(alive(hex_byte(a)) && alive(hex_byte(b)));
    assert(!opens_pair(hex_byte(a).last()));
    lemma_alive_concat(t0, hex_byte(a));
    lemma_alive_concat(t0 + hex_byte(a), hex_byte(b));
    lemma_alive_prefix(fallback, probe);
}

/// Where the stream from the remote command ended, between two frames or inside one, the
/// command is started again, once the delay is set.
pub proof fn end_of_stream_respawns(fallback: u64, probe: ProbeErrorView)
    requires
        fallback > 0,
        stream_ended(probe),
    ensures
        link_step(
            fallback,
            LinkState::Probing { respawn: false, again: true },
            LinkEventView::ProbeFailed(probe),
        ) == (LinkState::Spawning { respawn: true }, LinkActionView::DelayAndRespawn(fallback)),
{
}

/// So it is where a read failed with the message that the end of a stream gives.
pub proof fn early_eof_respawns(fallback: u64)
    requires
        fallback > 0,
    ensures
        link_step(
            fallback,
            LinkState::Probing { respawn: false, again: true },
            LinkEventView::ProbeFailed(ProbeErrorView::Read(FrameErrorView::Io(early_eof()))),
        ) == (LinkState::Spawning { respawn: true }, LinkActionView::DelayAndRespawn(fallback)),
{
    let t = early_eof();
    assert(t.subrange(0, t.len() as int) =~= t);
    assert(occurs_at(t, t, 0));
    dead_pipe_respawns(fallback, ProbeErrorView::Read(FrameErrorView::Io(t)));
}

proof fn lemma_contains_behind(a: Seq<char>, b: Seq<char>, p: Seq<char>)
    ensures
        contains_text(b, p) ==> contains_text(a + b, p),
{
    if contains_text(b, p) {
        let i = choose|i: int| occurs_at(b, p, i);
        let k = a.len() + i;
        assert((a + b).subrange(k, k + p.len()) =~= b.subrange(i, i + p.len()));
        assert(occurs_at(a + b, p, k));
    }
}

/// Where the second probe fails and its message tells of a dead pipe, the remote command
/// is started again, once the delay is set.
pub proof fn dead_pipe_respawns(fallback: u64, probe: ProbeErrorView)
    requires
        fallback > 0,
        is_dead_pipe(probe_error_text(probe)),
    ensures
        link_step(
            fallback,
            LinkState::Probing { respawn: false, again: true },
            LinkEventView::ProbeFailed(probe),
        ) == (LinkState::Spawning { respawn: true }, LinkActionView::DelayAndRespawn(fallback)),
{
    let a = "link probe still failing with FRAME_DELAY="@ + digits(fallback as nat) + advice()
        + ": "@;
    let b = probe_error_text(probe);
    lemma_contains_behind(a, b, "Broken pipe"@);
    lemma_contains_behind(a, b, "os error 32"@);
    lemma_contains_behind(a, b, "EOF on remote stdout"@);
    lemma_contains_behind(a, b, "UnexpectedEof"@);
    lemma_contains_behind(a, b, "unexpected end of file"@);
    lemma_contains_behind(a, b, "early eof"@);
}

/// Whether the set up is past its second start of the remote command.
pub open spec fn is_second_start(state: LinkState) -> bool {
    match state {
        LinkState::Spawning { respawn } => respawn,
        LinkState::Syncing { respawn } => respawn,
        LinkState::Probing { respawn, .. } => respawn,
        LinkState::Finished => true,
    }
}

proof fn lemma_second_start(fallback: u64, events: Seq<LinkEventView>, i: int)
    requires
        link_run(fallback, events) is Some,
        0 <= i < link_actions(fallback, events).len(),
        link_actions(fallback, events)[i] is DelayAndRespawn,
    ensures
        is_second_start(link_state(fallback, events)),
    decreases events.len(),
{
    if events.len() > 0 {
        let before = events.drop_last();
        link_run_ends(fallback, before);
        if i < link_actions(fallback, before).len() {
            lemma_second_start(fallback, before, i);
        }
    }
}

/// The remote command is started again once at most, however often probes fail.
pub proof fn started_again_once_at_most(
    fallback: u64,
    events: Seq<LinkEventView>,
    i: int,
    j: int,
)
    requires
        link_run(fallback, events) is Some,
        0 <= i < j < link_actions(fallback, events).len(),
        link_actions(fallback, events)[i] is DelayAndRespawn,
    ensures
        !(link_actions(fallback, events)[j] is DelayAndRespawn),
    decreases events.len(),
{
    let before = events.drop_last();
    link_run_ends(fallback, before);
    link_run_ends(fallback, events);
    if j < link_actions(fallback, before).len() {
        started_again_once_at_most(fallback, before, i, j);
    } else {
        lemma_second_start(fallback, before, i);
    }
}

// --- what is asked for next -------------------------------------------------

/// The remote command was started a second time.
pub open spec fn was_restarted(actions: Seq<LinkActionView>) -> bool {
    exists|k: int| 0 <= k < actions.len() && (#[trigger] actions[k]) is DelayAndRespawn
}

/// The last action starts the remote command.
pub open spec fn starts_remote(a: LinkActionView) -> bool {
    a is Spawn || a is DelayAndRespawn
}

proof fn lemma_state_shows(fallback: u64, events: Seq<LinkEventView>)
    requires
        link_run(fallback, events) is Some,
    ensures
        ({
            let (state, actions) = link_run(fallback, events)->0;
            let last = actions.last();
            &&& actions.len() > 0
            &&& match state {
                LinkState::Spawning { respawn } => {
                    &&& starts_remote(last)
                    &&& respawn == was_restarted(actions)
                },
                LinkState::Syncing { respawn } => {
                    &&& last is ReadSync
                    &&& respawn == was_restarted(actions)
                },
                LinkState::Probing { respawn, again } => {
                    &&& if again {
                        last is DelayAndProbe
                    } else {
                        last is Probe
                    }
                    &&& respawn == was_restarted(actions)
                    &&& fallback > 0
                },
                LinkState::Finished => last is Ready || last is Fail,
            }
        }),
    decreases events.len(),
{
    if events.len() > 0 {
        let before = events.drop_last();
        let (state, actions) = link_run(fallback, before)->0;
        let all = link_actions(fallback, events);
        lemma_state_shows(fallback, before);
        if was_restarted(actions) {
            let k = choose|k: int|
                0 <= k < actions.len() && (#[trigger] actions[k]) is DelayAndRespawn;
            assert(all[k] is DelayAndRespawn);
        }
        if was_restarted(all) {
            let k = choose|k: int| 0 <= k < all.len() && (#[trigger] all[k]) is DelayAndRespawn;
            if k < actions.len() {
                assert(actions[k] is DelayAndRespawn);
            }
        }
        if all.last() is DelayAndRespawn {
            assert(all[all.len() - 1] is DelayAndRespawn);
        }
    } else {
        let all = link_actions(fallback, events);
        assert(all =~= seq![LinkActionView::Spawn]);
        assert(!was_restarted(all));
    }
}

/// After `events`, the event `event` fits, and `action` is what is asked for then.
pub open spec fn asks_for(
    fallback: u64,
    events: Seq<LinkEventView>,
    event: LinkEventView,
    action: LinkActionView,
) -> bool {
    &&& link_run(fallback, events.push(event)) is Some
    &&& link_actions(fallback, events.push(event)) == link_actions(fallback, events).push(action)
}

proof fn lemma_asked(fallback: u64, events: Seq<LinkEventView>, event: LinkEventView)
    requires
        link_run(fallback, events) is Some,
        event_fits(link_state(fallback, events), event),
    ensures
        asks_for(
            fallback,
            events,
            event,
            link_step(fallback, link_state(fallback, events), event).1,
        ),
        link_state(fallback, events.push(event)) == link_step(
            fallback,
            link_state(fallback, events),
            event,
        ).0,
{
    assert(events.push(event).drop_last() =~= events);
}

/// Whenever the link is being probed, for the first time or again, before or after a second
/// start of the remote command, a probe that passes makes the link ready, and that is the end.
pub proof fn passed_probe_makes_the_link_ready(fallback: u64, events: Seq<LinkEventView>)
    requires
        link_run(fallback, events) is Some,
        is_probe(link_actions(fallback, events).last()),
    ensures
        link_run(fallback, events.push(LinkEventView::ProbePassed)) == Some(
            (
                LinkState::Finished,
                link_actions(fallback, events).push(LinkActionView::Ready),
            ),
        ),
{
    lemma_state_shows(fallback, events);
    lemma_asked(fallback, events, LinkEventView::ProbePassed);
}

/// A link that is started is synchronised and then, unless the fallback is zero, probed; with
/// a fallback of zero it is ready.
pub proof fn started_link_is_synchronised_and_probed(fallback: u64, events: Seq<LinkEventView>)
    requires
        link_run(fallback, events) is Some,
        starts_remote(link_actions(fallback, events).last()),
    ensures
        ({
            let started = events.push(LinkEventView::Spawned);
            &&& asks_for(fallback, events, LinkEventView::Spawned, LinkActionView::ReadSync)
            &&& asks_for(
                fallback,
                started,
                LinkEventView::Synced,
                if fallback == 0 {
                    LinkActionView::Ready
                } else {
                    LinkActionView::Probe
                },
            )
        }),
{
    lemma_state_shows(fallback, events);
    lemma_asked(fallback, events, LinkEventView::Spawned);
    let started = events.push(LinkEventView::Spawned);
    lemma_state_shows(fallback, started);
    lemma_asked(fallback, started, LinkEventView::Synced);
}

/// A first probe that fails, for whatever reason, is repeated with the delay.
pub proof fn failed_probe_is_repeated_with_the_delay(
    fallback: u64,
    events: Seq<LinkEventView>,
    probe: ProbeErrorView,
)
    requires
        link_run(fallback, events) is Some,
        link_actions(fallback, events).last() is Probe,
    ensures
        asks_for(
            fallback,
            events,
            LinkEventView::ProbeFailed(probe),
            LinkActionView::DelayAndProbe(fallback),
        ),
{
    lemma_state_shows(fallback, events);
    lemma_asked(fallback, events, LinkEventView::ProbeFailed(probe));
}

/// A link that loses frames, for whatever reason, and does not with the delay, is ready.
pub proof fn delay_cures_a_lossy_link(fallback: u64, probe: ProbeErrorView)
    requires
        fallback > 0,
    ensures
        link_run(
            fallback,
            seq![
                LinkEventView::Spawned,
                LinkEventView::Synced,
                LinkEventView::ProbeFailed(probe),
                LinkEventView::ProbePassed,
            ],
        ) == Some(
            (
                LinkState::Finished,
                seq![
                    LinkActionView::Spawn,
                    LinkActionView::ReadSync,
                    LinkActionView::Probe,
                    LinkActionView::DelayAndProbe(fallback),
                    LinkActionView::Ready,
                ],
            ),
        ),
{
    let e0 = Seq::<LinkEventView>::empty();
    let e1 = e0.push(LinkEventView::Spawned);
    let e2 = e1.push(LinkEventView::Synced);
    let e3 = e2.push(LinkEventView::ProbeFailed(probe));
    let e4 = e3.push(LinkEventView::ProbePassed);
    started_link_is_synchronised_and_probed(fallback, e0);
    failed_probe_is_repeated_with_the_delay(fallback, e2, probe);
    passed_probe_makes_the_link_ready(fallback, e3);
    assert(e4 =~= seq![
        LinkEventView::Spawned,
        LinkEventView::Synced,
        LinkEventView::ProbeFailed(probe),
        LinkEventView::ProbePassed,
    ]);
    assert(link_actions(fallback, e4) =~= seq![
        LinkActionView::Spawn,
        LinkActionView::ReadSync,
        LinkActionView::Probe,
        LinkActionView::DelayAndProbe(fallback),
        LinkActionView::Ready,
    ]);
}

/// A second start of the remote command, after two probes that failed, leads to a ready link
/// if its first probe passes, or its second.
pub proof fn second_start_cures_a_dead_link(
    fallback: u64,
    first: ProbeErrorView,
    second: ProbeErrorView,
    third: ProbeErrorView,
)
    requires
        fallback > 0,
        stream_ended(second) || is_dead_pipe(probe_error_text(second)),
    ensures
        ({
            let started = seq![
                LinkEventView::Spawned,
                LinkEventView::Synced,
                LinkEventView::ProbeFailed(first),
                LinkEventView::ProbeFailed(second),
                LinkEventView::Spawned,
                LinkEventView::Synced,
            ];
            let asked = seq![
                LinkActionView::Spawn,
                LinkActionView::ReadSync,
                LinkActionView::Probe,
                LinkActionView::DelayAndProbe(fallback),
                LinkActionView::DelayAndRespawn(fallback),
                LinkActionView::ReadSync,
                LinkActionView::Probe,
            ];
            &&& link_run(fallback, started.push(LinkEventView::ProbePassed)) == Some(
                (LinkState::Finished, asked.push(LinkActionView::Ready)),
            )
            &&& link_run(
                fallback,
                started.push(LinkEventView::ProbeFailed(third)).push(LinkEventView::ProbePassed),
            ) == Some(
                (
                    LinkState::Finished,
                    asked.push(LinkActionView::DelayAndProbe(fallback)).push(
                        LinkActionView::Ready,
                    ),
                ),
            )
        }),
{
    let e0 = Seq::<LinkEventView>::empty();
    let e1 = e0.push(LinkEventView::Spawned);
    let e2 = e1.push(LinkEventView::Synced);
    let e3 = e2.push(LinkEventView::ProbeFailed(first));
    let e4 = e3.push(LinkEventView::ProbeFailed(second));
    let e5 = e4.push(LinkEventView::Spawned);
    let e6 = e5.push(LinkEventView::Synced);
    let e7 = e6.push(LinkEventView::ProbeFailed(third));
    started_link_is_synchronised_and_probed(fallback, e0);
    failed_probe_is_repeated_with_the_delay(fallback, e2, first);
    lemma_state_shows(fallback, e3);
    assert(!was_restarted(link_actions(fallback, e3)));
    if stream_ended(second) {
        end_of_stream_respawns(fallback, second);
    } else {
        dead_pipe_respawns(fallback, second);
    }
    lemma_asked(fallback, e3, LinkEventView::ProbeFailed(second));
    started_link_is_synchronised_and_probed(fallback, e4);
    failed_probe_is_repeated_with_the_delay(fallback, e6, third);
    passed_probe_makes_the_link_ready(fallback, e6);
    passed_probe_makes_the_link_ready(fallback, e7);
    let started = seq![
        LinkEventView::Spawned,
        LinkEventView::Synced,
        LinkEventView::ProbeFailed(first),
        LinkEventView::ProbeFailed(second),
        LinkEventView::Spawned,
        LinkEventView::Synced,
    ];
    let asked = seq![
        LinkActionView::Spawn,
        LinkActionView::ReadSync,
        LinkActionView::Probe,
        LinkActionView::DelayAndProbe(fallback),
        LinkActionView::DelayAndRespawn(fallback),
        LinkActionView::ReadSync,
        LinkActionView::Probe,
    ];
    assert(e6 =~= started);
    assert(link_actions(fallback, e6) =~= asked);
}

/// A failure to start the remote command, or to synchronise, ends the set up with its cause;
/// the latter says whether it was after a second start.
pub proof fn failure_to_start_ends_the_set_up(
    fallback: u64,
    events: Seq<LinkEventView>,
    cause: Seq<char>,
)
    requires
        link_run(fallback, events) is Some,
        starts_remote(link_actions(fallback, events).last()),
    ensures
        asks_for(
            fallback,
            events,
            LinkEventView::SpawnFailed(cause),
            LinkActionView::Fail(LinkErrorView::Spawn(cause)),
        ),
        asks_for(
            fallback,
            events.push(LinkEventView::Spawned),
            LinkEventView::SyncFailed(cause),
            LinkActionView::Fail(
                LinkErrorView::Sync {
                    respawn: was_restarted(link_actions(fallback, events)),
                    cause,
                },
            ),
        ),
{
    lemma_state_shows(fallback, events);
    lemma_asked(fallback, events, LinkEventView::SpawnFailed(cause));
    lemma_asked(fallback, events, LinkEventView::Spawned);
    lemma_asked(fallback, events.push(LinkEventView::Spawned), LinkEventView::SyncFailed(cause));
}

/// A link that is ready or was given up asks for nothing more: no event fits any more.
pub proof fn finished_link_takes_no_event(
    fallback: u64,
    events: Seq<LinkEventView>,
    event: LinkEventView,
)
    requires
        link_run(fallback, events) is Some,
        ({
            let last = link_actions(fallback, events).last();
            last is Ready || last is Fail
        }),
    ensures
        link_run(fallback, events.push(event)) is None,
{
    lemma_state_shows(fallback, events);
    assert(events.push(event).drop_last() =~= events);
}

/// Each action is answered by an event of its own kind, and by no other.
pub proof fn events_answer_their_actions(
    fallback: u64,
    events: Seq<LinkEventView>,
    event: LinkEventView,
)
    requires
        link_run(fallback, events) is Some,
    ensures
        ({
            let last = link_actions(fallback, events).last();
            link_run(fallback, events.push(event)) is Some <==> match event {
                LinkEventView::Spawned | LinkEventView::SpawnFailed(_) => starts_remote(last),
                LinkEventView::Synced | LinkEventView::SyncFailed(_) => last is ReadSync,
                LinkEventView::ProbePassed | LinkEventView::ProbeFailed(_) => is_probe(last),
            }
        }),
{
    lemma_state_shows(fallback, events);
    assert(events.push(event).drop_last() =~= events);
}

proof fn lemma_contains_only_behind(a: Seq<char>, b: Seq<char>, p: Seq<char>)
    requires
        a.len() >= 2,
        a.last() == ' ',
        a[a.len() - 2] == ':',
        p.len() > 0,
        p[0] != ' ',
        !p.contains(':'),
        !contains_text(a, p),
    ensures
        contains_text(a + b, p) ==> contains_text(b, p),
{
    let s = a + b;
    if contains_text(s, p) {
        let i = choose|i: int| occurs_at(s, p, i);
        let n = a.len() as int;
        let w = s.subrange(i, i + p.len());
        if i >= n {
            assert(b.subrange(i - n, i - n + p.len()) =~= p);
            assert(occurs_at(b, p, i - n));
        } else if i + p.len() <= n {
            assert(a.subrange(i, i + p.len()) =~= p);
            assert(occurs_at(a, p, i));
        } else if i == n - 1 {
            assert(w[0] == s[i]);
        } else {
            assert(w[n - 2 - i] == s[n - 2]);
            assert(p.contains(p[n - 2 - i]));
        }
    }
}

/// The message of a failed probe says that the pipe is dead.
pub open spec fn tells_of_dead_pipe(text: Seq<char>) -> bool {
    ||| contains_text(text, "Broken pipe"@)
    ||| contains_text(text, "os error 32"@)
    ||| contains_text(text, "EOF on remote stdout"@)
    ||| contains_text(text, "UnexpectedEof"@)
    ||| contains_text(text, "unexpected end of file"@)
    ||| contains_text(text, "early eof"@)
}

proof fn lemma_dead_pipe_shows(us: u64, probe: ProbeErrorView)
    ensures
        is_dead_pipe(still_failing_text(us, probe)) <==> tells_of_dead_pipe(
            probe_error_text(probe),
        ),
{
    reveal_strlit("link probe still failing with FRAME_DELAY=");
    reveal_strlit(
        "us \u{2014} apiserver layer drops frames even with chunking. Try a larger --probe-fallback-us, or fall back to --rushtle-server.",
    );
    reveal_strlit(": ");
    reveal_strlit("Broken pipe");
    reveal_strlit("os error 32");
    reveal_strlit("EOF on remote stdout");
    reveal_strlit("UnexpectedEof");
    reveal_strlit("unexpected end of file");
    reveal_strlit("early eof");
    let p = "link probe still failing with FRAME_DELAY="@;
    let d = digits(us as nat);
    let c = ": "@;
    let a = p + d + advice() + c;
    let b = probe_error_text(probe);
    lemma_alive_digits(us as nat);
    assert(alive(p));
    assert(alive(advice()));
    assert(alive(c));
    lemma_alive_concat(p, d);
    lemma_alive_concat(p + d, advice());
    lemma_alive_concat(p + d + advice(), c);
    lemma_alive(a);
    lemma_contains_only_behind(a, b, "Broken pipe"@);
    lemma_contains_only_behind(a, b, "os error 32"@);
    lemma_contains_only_behind(a, b, "EOF on remote stdout"@);
    lemma_contains_only_behind(a, b, "UnexpectedEof"@);
    lemma_contains_only_behind(a, b, "unexpected end of file"@);
    lemma_contains_only_behind(a, b, "early eof"@);
    lemma_contains_behind(a, b, "Broken pipe"@);
    lemma_contains_behind(a, b, "os error 32"@);
    lemma_contains_behind(a, b, "EOF on remote stdout"@);
    lemma_contains_behind(a, b, "UnexpectedEof"@);
    lemma_contains_behind(a, b, "unexpected end of file"@);
    lemma_contains_behind(a, b, "early eof"@);
}

/// A probe that fails again, with the delay, ends the set up with its failure, or has the
/// remote command started a second time: the latter just where the remote command was not
/// started twice already and the stream ended or the message tells of a dead pipe.
pub proof fn second_failure_decides(
    fallback: u64,
    events: Seq<LinkEventView>,
    probe: ProbeErrorView,
)
    requires
        link_run(fallback, events) is Some,
        link_actions(fallback, events).last() is DelayAndProbe,
    ensures
        ({
            let restarted = was_restarted(link_actions(fallback, events));
            let ended = probe is Eof || (probe matches ProbeErrorView::Read(e) && e is Eof);
            asks_for(
                fallback,
                events,
                LinkEventView::ProbeFailed(probe),
                if restarted {
                    LinkActionView::Fail(
                        LinkErrorView::FailingAfterRespawn { us: fallback, probe },
                    )
                } else if ended || tells_of_dead_pipe(probe_error_text(probe)) {
                    LinkActionView::DelayAndRespawn(fallback)
                } else {
                    LinkActionView::Fail(LinkErrorView::StillFailing { us: fallback, probe })
                },
            )
        }),
{
    lemma_state_shows(fallback, events);
    lemma_dead_pipe_shows(fallback, probe);
    lemma_asked(fallback, events, LinkEventView::ProbeFailed(probe));
}

/// The message of a link that was given up is the cause, after a word on what was being done; if
/// the probe failed in spite of the delay, it says how long the delay was and what to try.
pub proof fn messages_show_what_is_wrong(us: u64, probe: ProbeErrorView, cause: Seq<char>)
    ensures
        ({
            let hint = digits(us as nat)
                + "us \u{2014} apiserver layer drops frames even with chunking. Try a larger --probe-fallback-us, or fall back to --rushtle-server."@
                + ": "@;
            let still = "link probe still failing with FRAME_DELAY="@ + hint + probe_error_text(
                probe,
            );
            &&& link_error_text(LinkErrorView::Spawn(cause)) == cause
            &&& link_error_text(LinkErrorView::Sync { respawn: false, cause })
                == "waiting for server sync header: "@ + cause
            &&& link_error_text(LinkErrorView::Sync { respawn: true, cause })
                == "waiting for server sync header (respawn): "@ + cause
            &&& link_error_text(LinkErrorView::StillFailing { us, probe }) == still
            &&& link_error_text(LinkErrorView::FailingAfterRespawn { us, probe })
                == "probe still failing after respawn with FRAME_DELAY="@ + hint + still
        }),
{
    let hint = digits(us as nat) + advice() + ": "@;
    let text = probe_error_text(probe);
    let still = "link probe still failing with FRAME_DELAY="@ + hint + text;
    assert(link_error_text(LinkErrorView::StillFailing { us, probe }) =~= still);
    assert(link_error_text(LinkErrorView::FailingAfterRespawn { us, probe })
        =~= "probe still failing after respawn with FRAME_DELAY="@ + hint + still);
}

} // verus!
