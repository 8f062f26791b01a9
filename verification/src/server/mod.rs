//! The server: how it greets, and what it does with the frames of the client.

pub mod bootstrap;
pub mod dns;
pub mod hosts;
pub mod run;
pub mod stream;

use std::collections::HashMap;
use vstd::prelude::*;
use vstd::slice::slice_to_vec;
use vstd::utf8::encode_utf8;

use crate::client;
use crate::decimal;
use crate::ip;
use crate::ip::IpView;
use crate::ip_text;
use crate::probe;
use crate::probe::{PROBE_BURST_FRAMES, PROBE_CHANNEL_BASE};
use crate::relay;
use crate::relay::stop_sending;
use crate::ssnet::frame;
use crate::ssnet::frame::{
    Frame, FrameView, AF_INET, AF_INET6, CMD_DNS_REQ, CMD_EXIT, CMD_HOST_REQ, CMD_PING, CMD_PONG,
    CMD_ROUTES, CMD_TCP_CONNECT, CMD_TCP_DATA, CMD_TCP_EOF, CMD_TCP_STOP_SENDING, CMD_UDP_CLOSE,
    CMD_UDP_DATA, CMD_UDP_OPEN,
};
use crate::ssnet::payload;
use crate::ssnet::payload::{
    encode_udp_data, parse_connect, parse_udp_data, parse_udp_open, ConnectTarget, ConnectView,
};
use crate::ssnet::sync;
use crate::ssnet::sync::SYNC_HEADER;
use crate::text;

verus! {

// --- greeting ---------------------------------------------------------------

/// The payload of the first ping.
pub open spec fn chicken() -> Seq<u8> {
    seq![0x63u8, 0x68u8, 0x69u8, 0x63u8, 0x6bu8, 0x65u8, 0x6eu8]
}

/// The frames that a server sends unasked, right after the synchronisation header: a
/// ping, and an empty list of routes, for which some clients wait before they
/// redirect any traffic.
pub open spec fn greeting_frames() -> Seq<FrameView> {
    seq![
        FrameView { channel: 0, cmd: CMD_PING, data: chicken() },
        FrameView { channel: 0, cmd: CMD_ROUTES, data: seq![] },
    ]
}

/// What a list of frames says.
pub open spec fn frame_views(v: Seq<Frame>) -> Seq<FrameView> {
    Seq::new(v.len(), |i: int| v[i]@)
}

/// The frames that a server sends unasked, right after the synchronisation header.
pub fn greeting() -> (r: Vec<Frame>)
    ensures
        frame_views(r@) == greeting_frames(),
{
    let ping: Vec<u8> = vec![0x63, 0x68, 0x69, 0x63, 0x6b, 0x65, 0x6e];
    assert(ping@ =~= chicken());
    let routes: Vec<u8> = Vec::new();
    assert(routes@ =~= seq![]);
    let r: Vec<Frame> = vec![Frame::new(0, CMD_PING, ping), Frame::new(0, CMD_ROUTES, routes)];
    assert(frame_views(r@) =~= greeting_frames());
    r
}

// --- connections ------------------------------------------------------------

/// The TCP connections and UDP sockets that are open. `T` and `U` are how payloads
/// are handed on to them.
pub struct ServerMux<T, U> {
    tcp: HashMap<u16, T>,
    udp: HashMap<u16, U>,
}

/// What a `ServerMux` holds.
#[verifier::ext_equal]
#[verifier::reject_recursive_types(T)]
#[verifier::reject_recursive_types(U)]
pub struct ServerView<T, U> {
    pub tcp: Map<u16, T>,
    pub udp: Map<u16, U>,
}

impl<T, U> View for ServerMux<T, U> {
    type V = ServerView<T, U>;

    closed spec fn view(&self) -> ServerView<T, U> {
        ServerView { tcp: self.tcp@, udp: self.udp@ }
    }
}

/// What the server does with a frame of the client.
#[derive(Debug)]
pub enum ServerAction {
    /// Nothing.
    Ignore,
    /// Send this frame to the client.
    Send(Frame),
    /// Stop.
    Exit,
    /// Open a connection to this target, as the connection of this channel.
    Connect { channel: u16, target: ConnectTarget },
    /// Hand these bytes to the connection of this channel.
    Deliver { channel: u16, data: Vec<u8> },
    /// The connection of this channel gets no more.
    Close { channel: u16 },
    /// Send this query to the name servers, and answer on this channel.
    Resolve { channel: u16, query: Vec<u8> },
    /// Open a socket for datagrams, as the socket of this channel: one of IPv4, or
    /// one of IPv6.
    OpenUdp { channel: u16, v4: bool },
    /// Send this datagram to this host and port, from the socket of this channel.
    SendUdp { channel: u16, host: String, port: u16, body: Vec<u8> },
    /// The socket of this channel gets no more.
    CloseUdp { channel: u16 },
    /// Tell the client the hosts that are known here.
    ListHosts,
}

/// What a `ServerAction` says.
#[verifier::ext_equal]
pub enum ServerActionView {
    Ignore,
    Send(FrameView),
    Exit,
    Connect { channel: u16, target: ConnectView },
    Deliver { channel: u16, data: Seq<u8> },
    Close { channel: u16 },
    Resolve { channel: u16, query: Seq<u8> },
    OpenUdp { channel: u16, v4: bool },
    SendUdp { channel: u16, host: Seq<char>, port: u16, body: Seq<u8> },
    CloseUdp { channel: u16 },
    ListHosts,
}

impl View for ServerAction {
    type V = ServerActionView;

    open spec fn view(&self) -> ServerActionView {
        match self {
            ServerAction::Ignore => ServerActionView::Ignore,
            ServerAction::Send(f) => ServerActionView::Send(f@),
            ServerAction::Exit => ServerActionView::Exit,
            ServerAction::Connect { channel, target } => ServerActionView::Connect {
                channel: *channel,
                target: target@,
            },
            ServerAction::Deliver { channel, data } => ServerActionView::Deliver {
                channel: *channel,
                data: data@,
            },
            ServerAction::Close { channel } => ServerActionView::Close { channel: *channel },
            ServerAction::Resolve { channel, query } => ServerActionView::Resolve {
                channel: *channel,
                query: query@,
            },
            ServerAction::OpenUdp { channel, v4 } => ServerActionView::OpenUdp {
                channel: *channel,
                v4: *v4,
            },
            ServerAction::SendUdp { channel, host, port, body } => ServerActionView::SendUdp {
                channel: *channel,
                host: host@,
                port: *port,
                body: body@,
            },
            ServerAction::CloseUdp { channel } => ServerActionView::CloseUdp {
                channel: *channel,
            },
            ServerAction::ListHosts => ServerActionView::ListHosts,
        }
    }
}

/// What the server does with a frame of the client, and what it holds after that.
pub open spec fn server_step<T, U>(m: ServerView<T, U>, f: FrameView) -> (
    ServerView<T, U>,
    ServerActionView,
) {
    let channel = f.channel;
    if f.cmd == CMD_PING {
        (m, ServerActionView::Send(FrameView { channel, cmd: CMD_PONG, data: f.data }))
    } else if f.cmd == CMD_EXIT {
        (m, ServerActionView::Exit)
    } else if f.cmd == CMD_TCP_CONNECT {
        (
            m,
            match payload::connect_payload(f.data) {
                Ok(target) => ServerActionView::Connect { channel, target },
                Err(_) => ServerActionView::Send(relay::stop_frame(channel)),
            },
        )
    } else if f.cmd == CMD_TCP_DATA && m.tcp.contains_key(channel) {
        (m, ServerActionView::Deliver { channel, data: f.data })
    } else if (f.cmd == CMD_TCP_EOF || f.cmd == CMD_TCP_STOP_SENDING) && m.tcp.contains_key(
        channel,
    ) {
        (
            ServerView { tcp: m.tcp.remove(channel), ..m },
            ServerActionView::Close { channel },
        )
    } else if f.cmd == CMD_DNS_REQ {
        (m, ServerActionView::Resolve { channel, query: f.data })
    } else if f.cmd == CMD_UDP_OPEN {
        (m, ServerActionView::OpenUdp { channel, v4: payload::udp_family(f.data) == AF_INET })
    } else if f.cmd == CMD_UDP_DATA && m.udp.contains_key(channel) {
        (
            m,
            match payload::udp_data(f.data) {
                Ok((host, port, body)) => ServerActionView::SendUdp { channel, host, port, body },
                Err(_) => ServerActionView::Ignore,
            },
        )
    } else if f.cmd == CMD_UDP_CLOSE && m.udp.contains_key(channel) {
        (
            ServerView { udp: m.udp.remove(channel), ..m },
            ServerActionView::CloseUdp { channel },
        )
    } else if f.cmd == CMD_HOST_REQ {
        (m, ServerActionView::ListHosts)
    } else {
        (m, ServerActionView::Ignore)
    }
}

impl<T, U> ServerMux<T, U> {
    /// Nothing is open.
    pub fn new() -> (r: Self)
        ensures
            r@ == (ServerView::<T, U> { tcp: Map::empty(), udp: Map::empty() }),
    {
        ServerMux { tcp: HashMap::new(), udp: HashMap::new() }
    }

    /// Takes a connection in, whose payloads go to `sink`.
    pub fn open_tcp(&mut self, channel: u16, sink: T)
        ensures
            final(self)@ == (ServerView {
                tcp: old(self)@.tcp.insert(channel, sink),
                ..old(self)@
            }),
    {
        broadcast use vstd::std_specs::hash::group_hash_axioms;

        self.tcp.insert(channel, sink);
    }

    /// Forgets a connection that both sides are done with, or that never came to be.
    pub fn close_tcp(&mut self, channel: u16)
        ensures
            final(self)@ == (ServerView { tcp: old(self)@.tcp.remove(channel), ..old(self)@ }),
    {
        broadcast use vstd::std_specs::hash::group_hash_axioms;

        self.tcp.remove(&channel);
    }

    /// Forgets a connection whose target could not be reached, and gives the frame that
    /// tells the client.
    pub fn connect_failed(&mut self, channel: u16) -> (r: Frame)
        ensures
            r@ == relay::stop_frame(channel),
            final(self)@ == (ServerView { tcp: old(self)@.tcp.remove(channel), ..old(self)@ }),
    {
        self.close_tcp(channel);
        stop_sending(channel)
    }

    /// Where the payloads of a connection go.
    pub fn tcp_sink(&self, channel: u16) -> (r: Option<&T>)
        ensures
            match r {
                Some(s) => self@.tcp.contains_key(channel) && *s == self@.tcp[channel],
                None => !self@.tcp.contains_key(channel),
            },
    {
        broadcast use vstd::std_specs::hash::group_hash_axioms;

        self.tcp.get(&channel)
    }

    /// Takes a socket for datagrams in, whose payloads go to `sink`.
    pub fn open_udp(&mut self, channel: u16, sink: U)
        ensures
            final(self)@ == (ServerView {
                udp: old(self)@.udp.insert(channel, sink),
                ..old(self)@
            }),
    {
        broadcast use vstd::std_specs::hash::group_hash_axioms;

        self.udp.insert(channel, sink);
    }

    /// Where the datagrams of a socket go; `None` if there is no such socket, or no
    /// longer.
    pub fn udp_sink(&self, channel: u16) -> (r: Option<&U>)
        ensures
            match r {
                Some(s) => self@.udp.contains_key(channel) && *s == self@.udp[channel],
                None => !self@.udp.contains_key(channel),
            },
    {
        broadcast use vstd::std_specs::hash::group_hash_axioms;

        self.udp.get(&channel)
    }

    /// What to do with a frame of the client.
    pub fn on_frame(&mut self, f: Frame) -> (r: ServerAction)
        ensures
            (final(self)@, r@) == server_step(old(self)@, f@),
    {
        broadcast use vstd::std_specs::hash::group_hash_axioms;

        let channel: u16 = f.channel;
        match f.cmd {
            CMD_PING => ServerAction::Send(Frame::new(channel, CMD_PONG, f.data)),
            CMD_EXIT => ServerAction::Exit,
            CMD_TCP_CONNECT => match parse_connect(f.data.as_slice()) {
                Ok(target) => ServerAction::Connect { channel, target },
                Err(_) => ServerAction::Send(stop_sending(channel)),
            },
            CMD_TCP_DATA => {
                if self.tcp.contains_key(&channel) {
                    ServerAction::Deliver { channel, data: f.data }
                } else {
                    ServerAction::Ignore
                }
            },
            CMD_TCP_EOF | CMD_TCP_STOP_SENDING => match self.tcp.remove(&channel) {
                Some(_) => ServerAction::Close { channel },
                None => {
                    assert(self@.tcp =~= old(self)@.tcp);
                    ServerAction::Ignore
                },
            },
            CMD_DNS_REQ => ServerAction::Resolve { channel, query: f.data },
            CMD_UDP_OPEN => ServerAction::OpenUdp {
                channel,
                v4: parse_udp_open(f.data.as_slice()) == AF_INET,
            },
            CMD_UDP_DATA => {
                if !self.udp.contains_key(&channel) {
                    return ServerAction::Ignore;
                }
                match parse_udp_data(f.data.as_slice()) {
                    Ok((host, port, body)) => ServerAction::SendUdp {
                        channel,
                        host,
                        port,
                        body: slice_to_vec(body),
                    },
                    Err(_) => ServerAction::Ignore,
                }
            },
            CMD_UDP_CLOSE => match self.udp.remove(&channel) {
                Some(_) => ServerAction::CloseUdp { channel },
                None => {
                    assert(self@.udp =~= old(self)@.udp);
                    ServerAction::Ignore
                },
            },
            CMD_HOST_REQ => ServerAction::ListHosts,
            _ => ServerAction::Ignore,
        }
    }
}

/// The frame that hands a datagram from `host` and `port` to the client.
pub open spec fn datagram_view(
    channel: u16,
    host: Seq<char>,
    port: u16,
    body: Seq<u8>,
) -> FrameView {
    FrameView {
        channel,
        cmd: CMD_UDP_DATA,
        data: encode_utf8(payload::udp_prefix(host, port)) + body,
    }
}

/// The frame that hands a datagram from `host` and `port` to the client.
pub fn datagram_frame(channel: u16, host: &str, port: u16, body: &[u8]) -> (r: Frame)
    ensures
        r@ == datagram_view(channel, host@, port, body@),
{
    Frame::new(channel, CMD_UDP_DATA, encode_udp_data(host, port, body))
}

// --- laws -------------------------------------------------------------------

/// A `PING` is answered with a `PONG` on its channel that carries its payload, and
/// nothing else comes of it.
pub proof fn ping_is_echoed<T, U>(m: ServerView<T, U>, f: FrameView)
    requires
        f.cmd == CMD_PING,
    ensures
        server_step(m, f) == (
            m,
            ServerActionView::Send(FrameView { channel: f.channel, cmd: CMD_PONG, data: f.data }),
        ),
{
}

/// The probe of a client passes if each of its pings is answered as a server answers
/// it, even though the greeting of the server comes in between.
pub proof fn server_passes_the_probe<T, U>(m: ServerView<T, U>, pongs: Seq<FrameView>)
    requires
        pongs.len() == PROBE_BURST_FRAMES,
        forall|i: int|
            0 <= i < pongs.len() ==> server_step(
                m,
                probe::probe_pings(probe::probe_payloads())[i],
            ).1 == ServerActionView::Send(#[trigger] pongs[i]),
    ensures
        probe::probe_run(
            probe::ProbeView {
                payloads: probe::probe_payloads(),
                seen: Seq::new(PROBE_BURST_FRAMES as nat, |i: int| false),
            },
            greeting_frames() + pongs,
        ).1 == probe::ProbeOutcomeView::Passed,
{
    let payloads = probe::probe_payloads();
    let pings = probe::probe_pings(payloads);
    let seen = Seq::new(PROBE_BURST_FRAMES as nat, |i: int| false);
    let p = probe::ProbeView { payloads, seen };
    let fs = greeting_frames() + pongs;
    assert forall|i: int| 0 <= i < pongs.len() implies {
        &&& (#[trigger] pongs[i]).cmd == CMD_PONG
        &&& pongs[i].channel == PROBE_CHANNEL_BASE + i
        &&& pongs[i].data == payloads[i]
    } by {
        ping_is_echoed(m, pings[i]);
    }
    assert forall|k: int|
        0 <= k < fs.len() && (#[trigger] fs[k]).cmd == CMD_PONG && probe::probe_index(fs[k].channel)
            < p.payloads.len() implies probe::answers(
        p,
        probe::probe_index(fs[k].channel),
        fs[k],
    ) by {
        if k >= 2 {
            assert(fs[k] == pongs[k - 2]);
        }
    }
    assert forall|i: int| 0 <= i < p.seen.len() && !(#[trigger] p.seen[i]) implies probe::answered(
        p,
        fs,
        i,
    ) by {
        assert(fs[i + 2] == pongs[i]);
        assert(probe::answers(p, i, fs[i + 2]));
    }
    probe::probe_passes_when_all_answered(p, fs);
}

/// A client finds the frames of the greeting right behind the synchronisation
/// header, answers the ping, and takes no notice of the routes.
pub proof fn greeting_is_understood<S, P>(noise: Seq<u8>, m: client::ClientView<S, P>)
    requires
        !noise.contains(0),
    ensures
        ({
            let stream = noise + SYNC_HEADER@ + frame::frames_bytes(greeting_frames());
            let at = (noise + SYNC_HEADER@).len() as int;
            &&& sync::sync_end(stream) == Ok::<int, sync::SyncErrorView>(at)
            &&& frame::read_frames(stream.skip(at)) == Some(greeting_frames())
        }),
        client::client_step(m, greeting_frames()[0]) == (
            m,
            client::ClientActionView::<P>::Send(
                FrameView { channel: 0, cmd: CMD_PONG, data: chicken() },
            ),
        ),
        client::client_step(m, greeting_frames()[1]) == (m, client::ClientActionView::<P>::Ignore),
{
    let fs = greeting_frames();
    let stream = noise + SYNC_HEADER@ + frame::frames_bytes(fs);
    sync::sync_header_is_found(noise, frame::frames_bytes(fs));
    frame::frames_read_back(fs);
    assert(stream.skip((noise + SYNC_HEADER@).len() as int) =~= frame::frames_bytes(fs));
}

/// A server that is asked to connect by a client gets the target that the client
/// named, with the family of its address.
pub proof fn target_reaches_the_server<T, U>(
    m: ServerView<T, U>,
    channel: u16,
    host: Seq<char>,
    port: u16,
)
    requires
        !host.contains(','),
    ensures
        server_step(m, client::connect_view(channel, host, port)) == (
            m,
            ServerActionView::Connect {
                channel,
                target: ConnectView { family: Some(client::family_of(host)), host, port },
            },
        ),
{
    payload::connect_reads_back(client::family_of(host), host, port);
}

/// A server that is asked to connect to an address gets the text of that address and its
/// family.
pub proof fn address_reaches_the_server<T, U>(
    m: ServerView<T, U>,
    channel: u16,
    address: IpView,
    port: u16,
)
    requires
        ip_text::is_address(address),
    ensures
        server_step(m, client::connect_view(channel, ip_text::ip_text(address), port)) == (
            m,
            ServerActionView::Connect {
                channel,
                target: ConnectView {
                    family: Some(
                        if address is V6 {
                            AF_INET6
                        } else {
                            AF_INET
                        },
                    ),
                    host: ip_text::ip_text(address),
                    port,
                },
            },
        ),
        ip::ip(ip_text::ip_text(address)) == Some(address),
{
    ip_text::colon_tells_the_family(address);
    ip_text::ip_text_reads_back(address);
    target_reaches_the_server(m, channel, ip_text::ip_text(address), port);
}

/// A server that is asked to connect to what is no target opens nothing, and tells
/// the client at once that the connection takes nothing.
pub proof fn bad_target_is_refused<T, U>(m: ServerView<T, U>, f: FrameView)
    requires
        f.cmd == CMD_TCP_CONNECT,
        payload::connect_payload(f.data) is Err,
    ensures
        server_step(m, f) == (m, ServerActionView::Send(relay::stop_frame(f.channel))),
{
}

/// A frame changes nothing on other channels than its own, and opens nothing by
/// itself.
pub proof fn frame_stays_on_its_channel<T, U>(m: ServerView<T, U>, f: FrameView, channel: u16)
    ensures
        server_step(m, f).0.tcp.submap_of(m.tcp),
        server_step(m, f).0.udp.submap_of(m.udp),
        channel != f.channel ==> server_step(m, f).0.tcp.contains_key(channel)
            == m.tcp.contains_key(channel),
        channel != f.channel ==> server_step(m, f).0.udp.contains_key(channel)
            == m.udp.contains_key(channel),
{
}

/// The payloads that the connection of a channel is handed when these frames arrive.
pub open spec fn delivered<T, U>(
    m: ServerView<T, U>,
    frames: Seq<FrameView>,
    to: u16,
) -> Seq<Seq<u8>>
    decreases frames.len(),
{
    if frames.len() == 0 {
        seq![]
    } else {
        let (after, action) = server_step(m, frames[0]);
        let rest = delivered(after, frames.drop_first(), to);
        match action {
            ServerActionView::Deliver { channel, data } => if channel == to {
                seq![data] + rest
            } else {
                rest
            },
            _ => rest,
        }
    }
}

proof fn lemma_nothing_delivered<T, U>(m: ServerView<T, U>, frames: Seq<FrameView>, to: u16)
    requires
        !m.tcp.contains_key(to),
    ensures
        delivered(m, frames, to) == Seq::<Seq<u8>>::empty(),
    decreases frames.len(),
{
    if frames.len() > 0 {
        lemma_nothing_delivered(server_step(m, frames[0]).0, frames.drop_first(), to);
    }
}

/// A connection writes to its socket just what the frames of its channel carry, up
/// to the first that closes it, whatever other frames come in between.
pub proof fn connection_gets_its_stream<T, U>(
    m: ServerView<T, U>,
    frames: Seq<FrameView>,
    channel: u16,
)
    requires
        m.tcp.contains_key(channel),
    ensures
        relay::poured(delivered(m, frames, channel)) == relay::received(channel, frames),
    decreases frames.len(),
{
    if frames.len() > 0 {
        let f = frames[0];
        let rest = frames.drop_first();
        let after = server_step(m, f).0;
        if after.tcp.contains_key(channel) {
            connection_gets_its_stream(after, rest, channel);
            if relay::concerns(channel, f) {
                let all = delivered(m, frames, channel);
                assert(all.drop_first() =~= delivered(after, rest, channel));
            }
        } else {
            lemma_nothing_delivered(after, rest, channel);
        }
    }
}

/// What a client reads from a connection, the server writes to the target, byte for
/// byte and in order, whatever else goes over the link.
pub proof fn client_stream_reaches_the_target<T, U>(
    m: ServerView<T, U>,
    frames: Seq<FrameView>,
    channel: u16,
    reads: Seq<Seq<u8>>,
)
    requires
        m.tcp.contains_key(channel),
        relay::are_reads(reads),
        relay::concerning(channel, frames) == relay::sent(channel, reads),
    ensures
        relay::poured(delivered(m, frames, channel)) == relay::joined(reads),
{
    connection_gets_its_stream(m, frames, channel);
    relay::stream_arrives(channel, reads, frames);
}

/// What a target sends, the client writes to the connection, byte for byte and in
/// order, whatever else goes over the link.
pub proof fn target_stream_reaches_the_client<S, P>(
    m: client::ClientView<S, P>,
    frames: Seq<FrameView>,
    channel: u16,
    reads: Seq<Seq<u8>>,
)
    requires
        m.channels.contains_key(channel),
        relay::are_reads(reads),
        relay::concerning(channel, frames) == relay::sent(channel, reads),
    ensures
        relay::poured(client::delivered(m, frames, channel)) == relay::joined(reads),
{
    client::connection_gets_its_stream(m, frames, channel);
    relay::stream_arrives(channel, reads, frames);
}

// --- laws of the datagrams --------------------------------------------------

/// A datagram that a client sends from a socket that is open goes to the host and the port
/// that the client named, as it is, and nothing else changes.
pub proof fn datagram_goes_where_it_is_addressed<T, U>(
    m: ServerView<T, U>,
    channel: u16,
    host: Seq<char>,
    port: u16,
    body: Seq<u8>,
)
    requires
        m.udp.contains_key(channel),
        !host.contains(','),
    ensures
        server_step(
            m,
            FrameView {
                channel,
                cmd: 0x420d,
                data: encode_utf8(host) + seq![0x2cu8] + encode_utf8(decimal::digits(port as nat))
                    + seq![0x2cu8] + body,
            },
        ) == (m, ServerActionView::SendUdp { channel, host, port, body }),
{
    payload::udp_data_is_laid_out(host, port);
    payload::udp_data_reads_back(host, port, body);
}

/// A datagram from `host` and `port` is handed to the client on the channel of its socket,
/// with them and as it is.
pub proof fn datagram_comes_with_its_sender(
    channel: u16,
    host: Seq<char>,
    port: u16,
    body: Seq<u8>,
)
    ensures
        datagram_view(channel, host, port, body) == (FrameView {
            channel,
            cmd: 0x420d,
            data: encode_utf8(host) + seq![0x2cu8] + encode_utf8(decimal::digits(port as nat))
                + seq![0x2cu8] + body,
        }),
        !host.contains(',') ==> payload::udp_data(datagram_view(channel, host, port, body).data)
            == Ok::<(Seq<char>, u16, Seq<u8>), payload::UdpDataError>((host, port, body)),
{
    payload::udp_data_is_laid_out(host, port);
    if !host.contains(',') {
        payload::udp_data_reads_back(host, port, body);
    }
}

/// A client that asks for a socket gets one of IPv4 if it names the family 2 or none, and one
/// of IPv6 if it names another.
pub proof fn socket_has_the_family_asked_for<T, U>(
    m: ServerView<T, U>,
    channel: u16,
    family: u16,
    other: Seq<char>,
)
    requires
        payload::number16(text::trim(other)) is None,
    ensures
        server_step(
            m,
            FrameView {
                channel,
                cmd: 0x420c,
                data: encode_utf8(decimal::digits(family as nat)),
            },
        ) == (m, ServerActionView::OpenUdp { channel, v4: family == 2 }),
        server_step(m, FrameView { channel, cmd: 0x420c, data: encode_utf8(other) }) == (
            m,
            ServerActionView::OpenUdp { channel, v4: true },
        ),
{
    let none = Seq::<char>::empty();
    payload::family_is_read(none, family, none, other, seq![]);
    assert(none + decimal::digits(family as nat) + none =~= decimal::digits(family as nat));
}

/// A datagram for a socket that is not open goes nowhere, and neither does one whose payload
/// cannot be read; a socket is closed once.
pub proof fn datagrams_need_an_open_socket<T, U>(m: ServerView<T, U>, f: FrameView)
    ensures
        f.cmd == 0x420d && (!m.udp.contains_key(f.channel) || payload::udp_data(f.data) is Err)
            ==> server_step(m, f) == (m, ServerActionView::Ignore),
        f.cmd == 0x420e && !m.udp.contains_key(f.channel) ==> server_step(m, f) == (
            m,
            ServerActionView::Ignore,
        ),
        f.cmd == 0x420e && m.udp.contains_key(f.channel) ==> {
            let (after, action) = server_step(m, f);
            &&& action == ServerActionView::CloseUdp { channel: f.channel }
            &&& !after.udp.contains_key(f.channel)
            &&& after.tcp == m.tcp
            &&& server_step(after, f) == (after, ServerActionView::Ignore)
        },
{
}

// --- laws of the other commands ---------------------------------------------

/// Each command of a client has what it asks for done, on its channel and with its payload:
/// a ping is answered, an end ends, a query is put to the name servers, a request for hosts is
/// answered. None of them opens or closes anything.
pub proof fn requests_are_met<T, U>(m: ServerView<T, U>, channel: u16, data: Seq<u8>)
    ensures
        server_step(m, FrameView { channel, cmd: 0x4200, data }) == (m, ServerActionView::Exit),
        server_step(m, FrameView { channel, cmd: 0x4201, data }) == (
            m,
            ServerActionView::Send(FrameView { channel, cmd: 0x4202, data }),
        ),
        server_step(m, FrameView { channel, cmd: 0x4208, data }) == (
            m,
            ServerActionView::ListHosts,
        ),
        server_step(m, FrameView { channel, cmd: 0x420a, data }) == (
            m,
            ServerActionView::Resolve { channel, query: data },
        ),
{
}

/// The bytes of a connection that is open are handed to it as they are, however many; a frame
/// that ends it, in either direction, closes it once. Frames for a connection that is not open
/// come to nothing.
pub proof fn connection_frames_reach_their_connection<T, U>(
    m: ServerView<T, U>,
    channel: u16,
    data: Seq<u8>,
    end: u16,
)
    requires
        end == 0x4204 || end == 0x4205,
    ensures
        ({
            let bytes = FrameView { channel, cmd: 0x4206, data };
            let close = FrameView { channel, cmd: end, data };
            let (after, action) = server_step(m, close);
            if m.tcp.contains_key(channel) {
                &&& server_step(m, bytes) == (m, ServerActionView::Deliver { channel, data })
                &&& action == ServerActionView::Close { channel }
                &&& after.tcp == m.tcp.remove(channel)
                &&& after.udp == m.udp
                &&& server_step(after, close) == (after, ServerActionView::Ignore)
                &&& server_step(after, bytes) == (after, ServerActionView::Ignore)
            } else {
                &&& server_step(m, bytes) == (m, ServerActionView::Ignore)
                &&& server_step(m, close) == (m, ServerActionView::Ignore)
            }
        }),
{
}

/// A command that is no request to a server comes to nothing.
pub proof fn other_commands_come_to_nothing<T, U>(m: ServerView<T, U>, f: FrameView)
    requires
        f.cmd < 0x4200 || f.cmd > 0x420e || f.cmd == 0x4202 || f.cmd == 0x4207 || f.cmd == 0x4209
            || f.cmd == 0x420b,
    ensures
        server_step(m, f) == (m, ServerActionView::Ignore),
{
}

/// A server connects to the host and the port that a client names, with the family if there
/// is one; where it cannot tell them it opens nothing and tells the client that the connection
/// takes nothing.
pub proof fn connections_go_where_they_are_addressed<T, U>(
    m: ServerView<T, U>,
    channel: u16,
    family: u16,
    host: Seq<char>,
    port: u16,
    bad: Seq<u8>,
)
    requires
        !host.contains(','),
        payload::connect_payload(bad) is Err,
    ensures
        ({
            let h = encode_utf8(host);
            let c = seq![0x2cu8];
            let p = encode_utf8(decimal::digits(port as nat));
            let f = encode_utf8(decimal::digits(family as nat));
            &&& server_step(
                m,
                FrameView { channel, cmd: 0x4203, data: f + c + h + c + p },
            ) == (
                m,
                ServerActionView::Connect {
                    channel,
                    target: ConnectView { family: Some(family), host, port },
                },
            )
            &&& host.len() > 0 && !text::is_white(host[0]) ==> server_step(
                m,
                FrameView { channel, cmd: 0x4203, data: h + c + p },
            ) == (
                m,
                ServerActionView::Connect {
                    channel,
                    target: ConnectView { family: None, host, port },
                },
            )
            &&& server_step(m, FrameView { channel, cmd: 0x4203, data: bad }) == (
                m,
                ServerActionView::Send(FrameView { channel, cmd: 0x4204, data: seq![] }),
            )
        }),
{
    let p = decimal::digits(port as nat);
    payload::connect_is_laid_out(family, host, port);
    payload::connect_reads_back(family, host, port);
    if host.len() > 0 && !text::is_white(host[0]) {
        payload::old_connect_reads_back(host, port);
        text::lemma_encode_ascii(',');
        text::lemma_encode_concat(host, seq![',']);
        text::lemma_encode_concat(host + seq![','], p);
    }
}

/// A server greets with a ping that carries the word `chicken`, and then with no routes, both
/// on channel 0.
pub proof fn greeting_is_spelled()
    ensures
        greeting_frames() == seq![
            FrameView {
                channel: 0,
                cmd: 0x4201,
                data: seq![
                    'c' as u8,
                    'h' as u8,
                    'i' as u8,
                    'c' as u8,
                    'k' as u8,
                    'e' as u8,
                    'n' as u8,
                ],
            },
            FrameView { channel: 0, cmd: 0x4207, data: seq![] },
        ],
{
    assert(chicken() =~= seq![
        'c' as u8,
        'h' as u8,
        'i' as u8,
        'c' as u8,
        'k' as u8,
        'e' as u8,
        'n' as u8,
    ]);
}

} // verus!
