//! The life of a server: what it does before it serves its client, and how it ends.

use vstd::prelude::*;

verus! {

/// How far a server has come.
#[derive(Clone, Copy, Debug, PartialEq, Eq, Structural)]
pub enum ServerState {
    /// The bootstrap of the client is being discarded.
    Bootstrap,
    /// The synchronisation header is being written.
    Sync,
    /// The greeting is being sent.
    Greet,
    /// Frames are served.
    Serve,
    /// The last frames are being written.
    Drain,
    /// It is over.
    Over,
}

/// What came of an action.
#[derive(Debug)]
pub enum ServerEvent {
    /// It is done. Of serving: the client asked for the end, or closed the stream.
    Done,
    /// It failed, with this message.
    Failed(String),
}

/// What a `ServerEvent` says.
#[verifier::ext_equal]
pub enum ServerEventView {
    Done,
    Failed(Seq<char>),
}

impl View for ServerEvent {
    type V = ServerEventView;

    open spec fn view(&self) -> ServerEventView {
        match self {
            ServerEvent::Done => ServerEventView::Done,
            ServerEvent::Failed(s) => ServerEventView::Failed(s@),
        }
    }
}

/// What a server is to do.
#[derive(Debug)]
pub enum ServerTask {
    /// Discard the bootstrap of the client, whose assembler has this many bytes.
    DiscardBootstrap(u64),
    /// Write the synchronisation header, and flush it.
    WriteSync,
    /// Send the greeting.
    Greet,
    /// Serve frames until the client asks for the end, or none can be read.
    Serve,
    /// Wait until all frames are written.
    Drain,
    /// Stop, with this outcome.
    Stop(Result<(), String>),
}

/// What a `ServerTask` says.
#[verifier::ext_equal]
pub enum ServerTaskView {
    DiscardBootstrap(u64),
    WriteSync,
    Greet,
    Serve,
    Drain,
    Stop(Option<Seq<char>>),
}

impl View for ServerTask {
    type V = ServerTaskView;

    open spec fn view(&self) -> ServerTaskView {
        match self {
            ServerTask::DiscardBootstrap(n) => ServerTaskView::DiscardBootstrap(*n),
            ServerTask::WriteSync => ServerTaskView::WriteSync,
            ServerTask::Greet => ServerTaskView::Greet,
            ServerTask::Serve => ServerTaskView::Serve,
            ServerTask::Drain => ServerTaskView::Drain,
            ServerTask::Stop(Ok(_)) => ServerTaskView::Stop(None),
            ServerTask::Stop(Err(s)) => ServerTaskView::Stop(Some(s@)),
        }
    }
}

/// What comes first: the bootstrap, if the client sends one.
pub open spec fn server_start(compat_bootstrap: bool, assembler_bytes: u64) -> (
    ServerState,
    ServerTaskView,
) {
    if compat_bootstrap {
        (ServerState::Bootstrap, ServerTaskView::DiscardBootstrap(assembler_bytes))
    } else {
        (ServerState::Sync, ServerTaskView::WriteSync)
    }
}

/// The next step of a server. What fails before the greeting ends it with an error; an
/// end of the frames, of whatever kind, is no error.
pub open spec fn server_next(state: ServerState, event: ServerEventView) -> (
    ServerState,
    ServerTaskView,
) {
    match (state, event) {
        (ServerState::Bootstrap, ServerEventView::Done) => (
            ServerState::Sync,
            ServerTaskView::WriteSync,
        ),
        (ServerState::Sync, ServerEventView::Done) => (ServerState::Greet, ServerTaskView::Greet),
        (ServerState::Bootstrap, ServerEventView::Failed(s)) => (
            ServerState::Over,
            ServerTaskView::Stop(Some(s)),
        ),
        (ServerState::Sync, ServerEventView::Failed(s)) => (
            ServerState::Over,
            ServerTaskView::Stop(Some(s)),
        ),
        (ServerState::Greet, _) => (ServerState::Serve, ServerTaskView::Serve),
        (ServerState::Serve, _) => (ServerState::Drain, ServerTaskView::Drain),
        _ => (ServerState::Over, ServerTaskView::Stop(None)),
    }
}

/// A server that is running.
#[derive(Debug)]
pub struct ServerRun {
    pub state: ServerState,
}

impl ServerRun {
    /// Starts a server: gives it, and its first task.
    pub fn new(compat_bootstrap: bool, assembler_bytes: u64) -> (r: (ServerRun, ServerTask))
        ensures
            (r.0.state, r.1@) == server_start(compat_bootstrap, assembler_bytes),
    {
        if compat_bootstrap {
            (
                ServerRun { state: ServerState::Bootstrap },
                ServerTask::DiscardBootstrap(assembler_bytes),
            )
        } else {
            (ServerRun { state: ServerState::Sync }, ServerTask::WriteSync)
        }
    }

    fn go(&mut self, state: ServerState, task: ServerTask) -> (r: ServerTask)
        ensures
            final(self).state == state,
            r == task,
    {
        self.state = state;
        task
    }

    /// The next task, after what came of the last one.
    pub fn next(&mut self, event: ServerEvent) -> (r: ServerTask)
        ensures
            (final(self).state, r@) == server_next(old(self).state, event@),
    {
        match (self.state, event) {
            (ServerState::Bootstrap, ServerEvent::Done) => self.go(
                ServerState::Sync,
                ServerTask::WriteSync,
            ),
            (ServerState::Sync, ServerEvent::Done) => self.go(
                ServerState::Greet,
                ServerTask::Greet,
            ),
            (ServerState::Bootstrap, ServerEvent::Failed(s)) => self.go(
                ServerState::Over,
                ServerTask::Stop(Err(s)),
            ),
            (ServerState::Sync, ServerEvent::Failed(s)) => self.go(
                ServerState::Over,
                ServerTask::Stop(Err(s)),
            ),
            (ServerState::Greet, _) => self.go(ServerState::Serve, ServerTask::Serve),
            (ServerState::Serve, _) => self.go(ServerState::Drain, ServerTask::Drain),
            _ => self.go(ServerState::Over, ServerTask::Stop(Ok(()))),
        }
    }
}

// --- laws -------------------------------------------------------------------

/// Where a server is after these events, and its task there.
pub open spec fn server_after(
    compat_bootstrap: bool,
    assembler_bytes: u64,
    events: Seq<ServerEventView>,
) -> (ServerState, ServerTaskView)
    decreases events.len(),
{
    if events.len() == 0 {
        server_start(compat_bootstrap, assembler_bytes)
    } else {
        server_next(
            server_after(compat_bootstrap, assembler_bytes, events.drop_last()).0,
            events.last(),
        )
    }
}

/// The place of a state in the order in which they come.
pub open spec fn rank(state: ServerState) -> nat {
    match state {
        ServerState::Bootstrap => 0,
        ServerState::Sync => 1,
        ServerState::Greet => 2,
        ServerState::Serve => 3,
        ServerState::Drain => 4,
        ServerState::Over => 5,
    }
}

proof fn lemma_rank(compat_bootstrap: bool, assembler_bytes: u64, events: Seq<ServerEventView>)
    ensures
        ({
            let state = server_after(compat_bootstrap, assembler_bytes, events).0;
            ||| state == ServerState::Over
            ||| rank(state) == events.len() + (if compat_bootstrap {
                0nat
            } else {
                1
            })
        }),
    decreases events.len(),
{
    if events.len() > 0 {
        lemma_rank(compat_bootstrap, assembler_bytes, events.drop_last());
    }
}

/// Nothing is written to a client before its bootstrap was discarded, and no frame is
/// sent before the synchronisation header: to serve, a server has done all that comes
/// before.
pub proof fn server_speaks_after_the_bootstrap(
    compat_bootstrap: bool,
    assembler_bytes: u64,
    events: Seq<ServerEventView>,
)
    ensures
        ({
            let (state, task) = server_after(compat_bootstrap, assembler_bytes, events);
            let before = if compat_bootstrap {
                1int
            } else {
                0
            };
            &&& task == ServerTaskView::WriteSync ==> events.len() == before && (compat_bootstrap
                ==> events[0] == ServerEventView::Done)
            &&& task == ServerTaskView::Greet ==> events.len() == before + 1 && events[before]
                == ServerEventView::Done
            &&& task == ServerTaskView::Serve ==> events.len() == before + 2 && events[before]
                == ServerEventView::Done
        }),
{
    lemma_rank(compat_bootstrap, assembler_bytes, events);
    if events.len() > 0 {
        let e1 = events.drop_last();
        lemma_rank(compat_bootstrap, assembler_bytes, e1);
        if e1.len() > 0 {
            lemma_rank(compat_bootstrap, assembler_bytes, e1.drop_last());
        }
    }
}

/// A server that came to serve ends without an error, once all frames are written.
pub proof fn server_ends_well(
    compat_bootstrap: bool,
    assembler_bytes: u64,
    events: Seq<ServerEventView>,
    end: ServerEventView,
    drained: ServerEventView,
)
    requires
        server_after(compat_bootstrap, assembler_bytes, events).1 == ServerTaskView::Serve,
    ensures
        server_after(compat_bootstrap, assembler_bytes, events.push(end)).1
            == ServerTaskView::Drain,
        server_after(compat_bootstrap, assembler_bytes, events.push(end).push(drained)).1
            == ServerTaskView::Stop(None),
{
    let e1 = events.push(end);
    assert(e1.drop_last() =~= events);
    assert(e1.push(drained).drop_last() =~= e1);
    let e2 = e1.push(drained);
    assert(server_after(compat_bootstrap, assembler_bytes, events).0 == ServerState::Serve);
    assert(server_after(compat_bootstrap, assembler_bytes, e1).0 == ServerState::Drain);
    assert(e2.drop_last() == e1 && e2.last() == drained);
    assert(server_after(compat_bootstrap, assembler_bytes, e2) == server_next(
        ServerState::Drain,
        drained,
    ));
}

/// A server without a bootstrap does the same whatever is on its stream, once it could write
/// the synchronisation header: it greets, serves, writes what is left, and ends without an
/// error.
pub proof fn server_runs_its_course(
    assembler_bytes: u64,
    greeted: ServerEventView,
    served: ServerEventView,
    drained: ServerEventView,
)
    ensures
        ({
            let after = |events: Seq<ServerEventView>|
                server_after(false, assembler_bytes, events).1;
            let done = ServerEventView::Done;
            &&& after(seq![]) == ServerTaskView::WriteSync
            &&& after(seq![done]) == ServerTaskView::Greet
            &&& after(seq![done, greeted]) == ServerTaskView::Serve
            &&& after(seq![done, greeted, served]) == ServerTaskView::Drain
            &&& after(seq![done, greeted, served, drained]) == ServerTaskView::Stop(None)
        }),
{
    let e1 = seq![ServerEventView::Done];
    let e2 = seq![ServerEventView::Done, greeted];
    let e3 = seq![ServerEventView::Done, greeted, served];
    let e4 = seq![ServerEventView::Done, greeted, served, drained];
    reveal_with_fuel(server_after, 2);
    assert(e1.drop_last() =~= seq![]);
    assert(e2.drop_last() =~= e1);
    assert(e3.drop_last() =~= e2);
    assert(e4.drop_last() =~= e3);
    assert(server_after(false, assembler_bytes, e1).0 == ServerState::Greet);
    assert(server_after(false, assembler_bytes, e2).0 == ServerState::Serve);
    assert(server_after(false, assembler_bytes, e3).0 == ServerState::Drain);
}

/// The task of a server after these events and one more.
pub open spec fn next_task(
    compat_bootstrap: bool,
    assembler_bytes: u64,
    events: Seq<ServerEventView>,
    event: ServerEventView,
) -> ServerTaskView {
    server_after(compat_bootstrap, assembler_bytes, events.push(event)).1
}

proof fn lemma_task_shows(
    compat_bootstrap: bool,
    assembler_bytes: u64,
    events: Seq<ServerEventView>,
)
    ensures
        ({
            let (state, task) = server_after(compat_bootstrap, assembler_bytes, events);
            match state {
                ServerState::Bootstrap => task == ServerTaskView::DiscardBootstrap(
                    assembler_bytes,
                ),
                ServerState::Sync => task == ServerTaskView::WriteSync,
                ServerState::Greet => task == ServerTaskView::Greet,
                ServerState::Serve => task == ServerTaskView::Serve,
                ServerState::Drain => task == ServerTaskView::Drain,
                ServerState::Over => task is Stop,
            }
        }),
    decreases events.len(),
{
    if events.len() > 0 {
        lemma_task_shows(compat_bootstrap, assembler_bytes, events.drop_last());
    }
}

/// A server discards the bootstrap first, of as many bytes as were announced, if its client
/// sends one. Each task leads to the next: the bootstrap to the synchronisation header, that to
/// the greeting, that to serving, that to writing what is left, and that to the end. What fails
/// before the greeting ends the server with its message, and nothing later does.
pub proof fn tasks_follow_each_other(
    compat_bootstrap: bool,
    assembler_bytes: u64,
    events: Seq<ServerEventView>,
    event: ServerEventView,
)
    ensures
        ({
            let next = next_task(compat_bootstrap, assembler_bytes, events, event);
            &&& server_after(compat_bootstrap, assembler_bytes, seq![]).1 == if compat_bootstrap {
                ServerTaskView::DiscardBootstrap(assembler_bytes)
            } else {
                ServerTaskView::WriteSync
            }
            &&& match (server_after(compat_bootstrap, assembler_bytes, events).1, event) {
                (ServerTaskView::DiscardBootstrap(_), ServerEventView::Done) => next
                    == ServerTaskView::WriteSync,
                (ServerTaskView::DiscardBootstrap(_), ServerEventView::Failed(s)) => next
                    == ServerTaskView::Stop(Some(s)),
                (ServerTaskView::WriteSync, ServerEventView::Done) => next
                    == ServerTaskView::Greet,
                (ServerTaskView::WriteSync, ServerEventView::Failed(s)) => next
                    == ServerTaskView::Stop(Some(s)),
                (ServerTaskView::Greet, _) => next == ServerTaskView::Serve,
                (ServerTaskView::Serve, _) => next == ServerTaskView::Drain,
                (ServerTaskView::Drain, _) => next == ServerTaskView::Stop(None),
                (ServerTaskView::Stop(_), _) => next == ServerTaskView::Stop(None),
            }
        }),
{
    lemma_task_shows(compat_bootstrap, assembler_bytes, events);
    assert(events.push(event).drop_last() =~= events);
}

} // verus!
