//! The life of one connection, at either end: how it is opened, when its bytes are
//! forwarded, and when its channel is given up.

use vstd::prelude::*;

use crate::client;
use crate::client::connect_frame;
use crate::relay;
use crate::server;
use crate::ssnet::frame;
use crate::ssnet::frame::{Frame, FrameView};
use crate::ssnet::payload::{ConnectTarget, ConnectView};

verus! {

/// How far a connection has come.
#[derive(Clone, Copy, Debug, PartialEq, Eq, Structural)]
pub enum ConnState {
    /// It is being opened.
    Opening,
    /// Its bytes are being forwarded, in both directions.
    Forwarding,
    /// Its channel is being given up.
    Closing,
    /// It is over.
    Over,
}

// --- the end of the client --------------------------------------------------

/// What a client is to do for a connection.
#[derive(Debug)]
pub enum ClientConnAction {
    /// Send this frame, which asks the server to connect.
    Send(Frame),
    /// Forward the bytes of the connection on this channel, until both directions ended.
    Forward { channel: u16 },
    /// Forget the connection of this channel.
    Forget { channel: u16 },
    /// Stop.
    Stop,
}

/// What a `ClientConnAction` says.
#[verifier::ext_equal]
pub enum ClientConnActionView {
    Send(FrameView),
    Forward { channel: u16 },
    Forget { channel: u16 },
    Stop,
}

impl View for ClientConnAction {
    type V = ClientConnActionView;

    open spec fn view(&self) -> ClientConnActionView {
        match self {
            ClientConnAction::Send(f) => ClientConnActionView::Send(f@),
            ClientConnAction::Forward { channel } => ClientConnActionView::Forward {
                channel: *channel,
            },
            ClientConnAction::Forget { channel } => ClientConnActionView::Forget {
                channel: *channel,
            },
            ClientConnAction::Stop => ClientConnActionView::Stop,
        }
    }
}

/// The next step for a connection of a client, after an action that went well or not.
/// Where the server cannot be asked to connect, the link is gone, and so is the
/// connection.
pub open spec fn client_conn_step(channel: u16, state: ConnState, ok: bool) -> (
    ConnState,
    ClientConnActionView,
) {
    match state {
        ConnState::Opening => if ok {
            (ConnState::Forwarding, ClientConnActionView::Forward { channel })
        } else {
            (ConnState::Over, ClientConnActionView::Stop)
        },
        ConnState::Forwarding => (ConnState::Closing, ClientConnActionView::Forget { channel }),
        ConnState::Closing | ConnState::Over => (ConnState::Over, ClientConnActionView::Stop),
    }
}

/// A connection of a client.
#[derive(Debug)]
pub struct ClientConn {
    pub channel: u16,
    pub state: ConnState,
}

impl ClientConn {
    /// Starts the connection of a channel, which was going to `host` and `port`: gives it,
    /// and what to do first.
    pub fn new(channel: u16, host: &str, port: u16) -> (r: (ClientConn, ClientConnAction))
        ensures
            r.0 == (ClientConn { channel, state: ConnState::Opening }),
            r.1@ == ClientConnActionView::Send(client::connect_view(channel, host@, port)),
    {
        let c: ClientConn = ClientConn { channel, state: ConnState::Opening };
        (c, ClientConnAction::Send(connect_frame(channel, host, port)))
    }

    /// What to do next, after an action that went well or not.
    pub fn next(&mut self, ok: bool) -> (r: ClientConnAction)
        ensures
            final(self).channel == old(self).channel,
            (final(self).state, r@) == client_conn_step(old(self).channel, old(self).state, ok),
    {
        let channel: u16 = self.channel;
        match self.state {
            ConnState::Opening => {
                if ok {
                    self.state = ConnState::Forwarding;
                    ClientConnAction::Forward { channel }
                } else {
                    self.state = ConnState::Over;
                    ClientConnAction::Stop
                }
            },
            ConnState::Forwarding => {
                self.state = ConnState::Closing;
                ClientConnAction::Forget { channel }
            },
            _ => {
                self.state = ConnState::Over;
                ClientConnAction::Stop
            },
        }
    }
}

// --- the end of the server --------------------------------------------------

/// What a server is to do for a connection.
#[derive(Debug)]
pub enum ServerConnAction {
    /// Connect to this target.
    Connect(ConnectTarget),
    /// Forward the bytes of the connection on this channel, until both directions ended.
    Forward { channel: u16 },
    /// Tell the client that the connection of this channel did not come to be, and forget
    /// it.
    Refuse { channel: u16 },
    /// Forget the connection of this channel.
    Forget { channel: u16 },
    /// Stop.
    Stop,
}

/// What a `ServerConnAction` says.
#[verifier::ext_equal]
pub enum ServerConnActionView {
    Connect(ConnectView),
    Forward { channel: u16 },
    Refuse { channel: u16 },
    Forget { channel: u16 },
    Stop,
}

impl View for ServerConnAction {
    type V = ServerConnActionView;

    open spec fn view(&self) -> ServerConnActionView {
        match self {
            ServerConnAction::Connect(t) => ServerConnActionView::Connect(t@),
            ServerConnAction::Forward { channel } => ServerConnActionView::Forward {
                channel: *channel,
            },
            ServerConnAction::Refuse { channel } => ServerConnActionView::Refuse {
                channel: *channel,
            },
            ServerConnAction::Forget { channel } => ServerConnActionView::Forget {
                channel: *channel,
            },
            ServerConnAction::Stop => ServerConnActionView::Stop,
        }
    }
}

/// The next step for a connection of a server, after an action that went well or not.
pub open spec fn server_conn_step(channel: u16, state: ConnState, ok: bool) -> (
    ConnState,
    ServerConnActionView,
) {
    match state {
        ConnState::Opening => if ok {
            (ConnState::Forwarding, ServerConnActionView::Forward { channel })
        } else {
            (ConnState::Closing, ServerConnActionView::Refuse { channel })
        },
        ConnState::Forwarding => (ConnState::Closing, ServerConnActionView::Forget { channel }),
        ConnState::Closing | ConnState::Over => (ConnState::Over, ServerConnActionView::Stop),
    }
}

/// A connection of a server.
#[derive(Debug)]
pub struct ServerConn {
    pub channel: u16,
    pub state: ConnState,
}

impl ServerConn {
    /// Starts the connection of a channel to a target: gives it, and what to do first.
    pub fn new(channel: u16, target: ConnectTarget) -> (r: (ServerConn, ServerConnAction))
        ensures
            r.0 == (ServerConn { channel, state: ConnState::Opening }),
            r.1@ == ServerConnActionView::Connect(target@),
    {
        let c: ServerConn = ServerConn { channel, state: ConnState::Opening };
        (c, ServerConnAction::Connect(target))
    }

    /// What to do next, after an action that went well or not.
    pub fn next(&mut self, ok: bool) -> (r: ServerConnAction)
        ensures
            final(self).channel == old(self).channel,
            (final(self).state, r@) == server_conn_step(old(self).channel, old(self).state, ok),
    {
        let channel: u16 = self.channel;
        match self.state {
            ConnState::Opening => {
                if ok {
                    self.state = ConnState::Forwarding;
                    ServerConnAction::Forward { channel }
                } else {
                    self.state = ConnState::Closing;
                    ServerConnAction::Refuse { channel }
                }
            },
            ConnState::Forwarding => {
                self.state = ConnState::Closing;
                ServerConnAction::Forget { channel }
            },
            _ => {
                self.state = ConnState::Over;
                ServerConnAction::Stop
            },
        }
    }
}

// --- laws -------------------------------------------------------------------

/// All that a client does for a connection, when these actions went well or not.
pub open spec fn client_conn_run(
    channel: u16,
    host: Seq<char>,
    port: u16,
    oks: Seq<bool>,
) -> (ConnState, Seq<ClientConnActionView>)
    decreases oks.len(),
{
    if oks.len() == 0 {
        (
            ConnState::Opening,
            seq![ClientConnActionView::Send(client::connect_view(channel, host, port))],
        )
    } else {
        let (state, actions) = client_conn_run(channel, host, port, oks.drop_last());
        let (next, action) = client_conn_step(channel, state, oks.last());
        (next, actions.push(action))
    }
}

/// A connection of a client whose server could be asked first asks the server to connect,
/// then forwards bytes, and gives up its channel when both directions ended.
pub proof fn client_conn_runs_its_course(
    channel: u16,
    host: Seq<char>,
    port: u16,
    oks: Seq<bool>,
)
    requires
        oks.len() == 3,
        oks[0],
    ensures
        client_conn_run(channel, host, port, oks) == (
            ConnState::Over,
            seq![
                ClientConnActionView::Send(client::connect_view(channel, host, port)),
                ClientConnActionView::Forward { channel },
                ClientConnActionView::Forget { channel },
                ClientConnActionView::Stop,
            ],
        ),
{
    let o2 = oks.drop_last();
    let o1 = o2.drop_last();
    assert(o1.drop_last() =~= seq![]);
    reveal_with_fuel(client_conn_run, 4);
    assert(client_conn_run(channel, host, port, oks).1 =~= seq![
        ClientConnActionView::Send(client::connect_view(channel, host, port)),
        ClientConnActionView::Forward { channel },
        ClientConnActionView::Forget { channel },
        ClientConnActionView::Stop,
    ]);
}

/// All that a server does for a connection, when these actions went well or not.
pub open spec fn server_conn_run(channel: u16, target: ConnectView, oks: Seq<bool>) -> (
    ConnState,
    Seq<ServerConnActionView>,
)
    decreases oks.len(),
{
    if oks.len() == 0 {
        (ConnState::Opening, seq![ServerConnActionView::Connect(target)])
    } else {
        let (state, actions) = server_conn_run(channel, target, oks.drop_last());
        let (next, action) = server_conn_step(channel, state, oks.last());
        (next, actions.push(action))
    }
}

/// A connection of a server gives up its channel, whatever happens: when both directions
/// ended or, with word to the client, when the target could not be reached.
pub proof fn server_conn_runs_its_course(channel: u16, target: ConnectView, oks: Seq<bool>)
    requires
        oks.len() == 3,
    ensures
        server_conn_run(channel, target, oks) == (
            ConnState::Over,
            if oks[0] {
                seq![
                    ServerConnActionView::Connect(target),
                    ServerConnActionView::Forward { channel },
                    ServerConnActionView::Forget { channel },
                    ServerConnActionView::Stop,
                ]
            } else {
                seq![
                    ServerConnActionView::Connect(target),
                    ServerConnActionView::Refuse { channel },
                    ServerConnActionView::Stop,
                    ServerConnActionView::Stop,
                ]
            },
        ),
{
    let o2 = oks.drop_last();
    let o1 = o2.drop_last();
    assert(o1.drop_last() =~= seq![]);
    reveal_with_fuel(server_conn_run, 4);
    let actions = server_conn_run(channel, target, oks).1;
    if oks[0] {
        assert(actions =~= seq![
            ServerConnActionView::Connect(target),
            ServerConnActionView::Forward { channel },
            ServerConnActionView::Forget { channel },
            ServerConnActionView::Stop,
        ]);
    } else {
        assert(actions =~= seq![
            ServerConnActionView::Connect(target),
            ServerConnActionView::Refuse { channel },
            ServerConnActionView::Stop,
            ServerConnActionView::Stop,
        ]);
    }
}

/// All the frames that a client sends for a connection whose socket gives these reads.
pub open spec fn conn_frames(
    channel: u16,
    host: Seq<char>,
    port: u16,
    reads: Seq<Seq<u8>>,
) -> Seq<FrameView> {
    seq![client::connect_view(channel, host, port)] + relay::sent(channel, reads)
}

/// The frames of a connection are a request to connect, one frame for each read, and an end;
/// and they come out of the wire as they went in, unless the name of the host is too long
/// for a frame.
pub proof fn conn_frames_in_order(
    channel: u16,
    host: Seq<char>,
    port: u16,
    reads: Seq<Seq<u8>>,
)
    requires
        relay::are_reads(reads),
    ensures
        ({
            let fs = conn_frames(channel, host, port, reads);
            &&& fs.len() == reads.len() + 2
            &&& fs[0] == client::connect_view(channel, host, port)
            &&& forall|i: int|
                0 <= i < reads.len() ==> #[trigger] fs[i + 1] == relay::data_frame(
                    channel,
                    reads[i],
                )
            &&& fs.last() == relay::eof_frame(channel)
            &&& frame::fits(fs[0]) ==> frame::read_frames(frame::frames_bytes(fs)) == Some(fs)
        }),
{
    let fs = conn_frames(channel, host, port, reads);
    let rest = relay::sent(channel, reads);
    relay::sent_ends_with_eof(channel, reads);
    assert forall|i: int| 0 <= i < reads.len() implies #[trigger] fs[i + 1] == relay::data_frame(
        channel,
        reads[i],
    ) by {
        assert(fs[i + 1] == rest[i]);
    }
    if frame::fits(fs[0]) {
        assert forall|i: int| 0 <= i < fs.len() implies frame::fits(#[trigger] fs[i]) by {
            if i > 0 {
                relay::sent_frames_are_small(channel, reads, i - 1);
            }
        }
        frame::frames_read_back(fs);
    }
}

/// A server that gets the frames of a connection, whatever frames of other channels come in
/// between, is asked to connect to where the connection was going and, once it has taken
/// the connection in, writes to the target all that the client read.
pub proof fn conn_frames_do_their_work<T, U>(
    m: server::ServerView<T, U>,
    channel: u16,
    host: Seq<char>,
    port: u16,
    reads: Seq<Seq<u8>>,
    sink: T,
    later: Seq<FrameView>,
)
    requires
        !host.contains(','),
        relay::are_reads(reads),
        relay::concerning(channel, later) == relay::sent(channel, reads),
    ensures
        ({
            let target = ConnectView { family: Some(client::family_of(host)), host, port };
            let open = server::ServerView { tcp: m.tcp.insert(channel, sink), ..m };
            &&& server::server_step(m, conn_frames(channel, host, port, reads)[0]) == (
                m,
                server::ServerActionView::Connect { channel, target },
            )
            &&& relay::poured(server::delivered(open, later, channel)) == relay::joined(reads)
        }),
{
    server::target_reaches_the_server(m, channel, host, port);
    let open = server::ServerView { tcp: m.tcp.insert(channel, sink), ..m };
    server::client_stream_reaches_the_target(open, later, channel, reads);
}

/// A connection whose server could not be asked ends there, and asks for nothing more.
pub proof fn client_conn_without_a_link(channel: u16, host: Seq<char>, port: u16, oks: Seq<bool>)
    requires
        oks.len() > 0,
        !oks[0],
    ensures
        ({
            let (state, actions) = client_conn_run(channel, host, port, oks);
            &&& state == ConnState::Over
            &&& actions.len() == oks.len() + 1
            &&& actions[0] == ClientConnActionView::Send(client::connect_view(channel, host, port))
            &&& forall|i: int|
                1 <= i < actions.len() ==> #[trigger] actions[i] == ClientConnActionView::Stop
        }),
    decreases oks.len(),
{
    let rest = oks.drop_last();
    if oks.len() == 1 {
        assert(rest =~= seq![]);
        reveal_with_fuel(client_conn_run, 2);
    } else {
        client_conn_without_a_link(channel, host, port, rest);
    }
}

} // verus!
