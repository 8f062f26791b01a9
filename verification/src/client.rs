//! The client: what it listens on, how it numbers connections, and what it does
//! with the frames of the server.

use std::collections::HashMap;
use vstd::prelude::*;
use vstd::utf8::encode_utf8;

use crate::decimal;
use crate::probe::{PROBE_BURST_FRAMES, PROBE_CHANNEL_BASE};
use crate::relay;
use crate::ssnet::frame::{
    Frame, FrameView, AF_INET, AF_INET6, CMD_DNS_REQ, CMD_DNS_RESPONSE, CMD_PING, CMD_PONG,
    CMD_TCP_CONNECT, CMD_TCP_DATA, CMD_TCP_EOF, CMD_TCP_STOP_SENDING,
};
use crate::ssnet::payload;
use crate::ssnet::payload::encode_connect;
use crate::text;
use crate::text::{chars_of, find_char};

verus! {

/// The port of the TCP listeners unless another one is asked for.
pub const REDIRECT_PORT_TCP: u16 = 12300;

/// The port of the DNS listener unless another one is asked for.
pub const REDIRECT_PORT_DNS: u16 = 12353;

/// What the client is told on its command line.
#[derive(Debug)]
pub struct ClientArgs {
    /// The shell command that runs the server.
    pub remote_cmd: String,
    /// The networks whose traffic goes through the tunnel.
    pub subnets: Vec<String>,
    /// The port of the TCP listeners, 0 for the usual one.
    pub listen_port: u16,
    /// Redirect the traffic with rules of the packet filter.
    pub manage_iptables: bool,
    /// Forward DNS queries too.
    pub dns: bool,
    /// The port of the DNS listener, 0 for the usual one.
    pub dns_listen_port: u16,
    /// The delay between frames, in microseconds, that a failed probe of the link
    /// switches on; 0 for no probe.
    pub probe_fallback_us: u64,
}

// --- address families -------------------------------------------------------

/// Addresses and networks are of IPv6 where there is a colon in them.
pub open spec fn has_colon(s: Seq<char>) -> bool {
    s.contains(':')
}

/// Tests for a colon.
fn is_v6(s: &str) -> (r: bool)
    ensures
        r == has_colon(s@),
{
    let v: Vec<char> = chars_of(s);
    proof {
        text::lemma_find(v@, ':');
    }
    match find_char(v.as_slice(), ':') {
        Some(i) => {
            assert(s@[i as int] == ':');
            true
        },
        None => false,
    }
}

/// The texts with a colon (`v6`) or without, in their order.
pub open spec fn of_family(subnets: Seq<Seq<char>>, v6: bool) -> Seq<Seq<char>>
    decreases subnets.len(),
{
    if subnets.len() == 0 {
        seq![]
    } else if has_colon(subnets.last()) == v6 {
        of_family(subnets.drop_last(), v6).push(subnets.last())
    } else {
        of_family(subnets.drop_last(), v6)
    }
}

/// The networks of IPv4 and those of IPv6, each in the order given.
pub fn split_subnets_by_family(subnets: &[String]) -> (r: (Vec<String>, Vec<String>))
    ensures
        text::texts(r.0@) == of_family(text::texts(subnets@), false),
        text::texts(r.1@) == of_family(text::texts(subnets@), true),
{
    let mut v4: Vec<String> = Vec::new();
    let mut v6: Vec<String> = Vec::new();
    let n: usize = subnets.len();
    let ghost all = text::texts(subnets@);
    assert(text::texts(v4@) =~= of_family(all.take(0), false));
    assert(text::texts(v6@) =~= of_family(all.take(0), true));
    for i in 0..n
        invariant
            n == subnets@.len(),
            all == text::texts(subnets@),
            text::texts(v4@) == of_family(all.take(i as int), false),
            text::texts(v6@) == of_family(all.take(i as int), true),
    {
        let s: String = subnets[i].clone();
        let ghost (b4, b6) = (text::texts(v4@), text::texts(v6@));
        assert(all.take(i + 1).drop_last() =~= all.take(i as int));
        assert(all.take(i + 1).last() == s@);
        if is_v6(s.as_str()) {
            v6.push(s);
            assert(text::texts(v6@) =~= b6.push(s@));
        } else {
            v4.push(s);
            assert(text::texts(v4@) =~= b4.push(s@));
        }
    }
    assert(all.take(n as int) =~= all);
    (v4, v6)
}

/// Each network falls to one family, and none is lost or made up.
pub proof fn subnets_are_parted(subnets: Seq<Seq<char>>)
    ensures
        of_family(subnets, false).to_multiset().add(of_family(subnets, true).to_multiset())
            == subnets.to_multiset(),
        forall|i: int|
            0 <= i < of_family(subnets, false).len() ==> !has_colon(
                #[trigger] of_family(subnets, false)[i],
            ),
        forall|i: int|
            0 <= i < of_family(subnets, true).len() ==> has_colon(
                #[trigger] of_family(subnets, true)[i],
            ),
    decreases subnets.len(),
{
    broadcast use vstd::seq_lib::group_to_multiset_ensures;
    if subnets.len() == 0 {
        assert(subnets =~= seq![]);
        assert(of_family(subnets, false).to_multiset().add(of_family(subnets, true).to_multiset())
            =~= subnets.to_multiset());
    } else {
        let rest = subnets.drop_last();
        subnets_are_parted(rest);
        assert(subnets =~= rest.push(subnets.last()));
        assert(of_family(subnets, false).to_multiset().add(of_family(subnets, true).to_multiset())
            =~= subnets.to_multiset());
    }
}

/// The socket family under which an address is named to the server.
pub open spec fn family_of(host: Seq<char>) -> u16 {
    if has_colon(host) {
        AF_INET6
    } else {
        AF_INET
    }
}

/// The frame that asks the server to connect to `host` and `port`.
pub open spec fn connect_view(channel: u16, host: Seq<char>, port: u16) -> FrameView {
    FrameView {
        channel,
        cmd: CMD_TCP_CONNECT,
        data: encode_utf8(payload::connect_line(family_of(host), host, port)),
    }
}

/// The frame that asks the server to connect to `host` and `port`, the first one of
/// every connection.
pub fn connect_frame(channel: u16, host: &str, port: u16) -> (r: Frame)
    ensures
        r@ == connect_view(channel, host@, port),
{
    let family: u16 = if is_v6(host) {
        AF_INET6
    } else {
        AF_INET
    };
    Frame::new(channel, CMD_TCP_CONNECT, encode_connect(family, host, port))
}

// --- connections ------------------------------------------------------------

/// The last channel that connections and queries are given. All those above are
/// left to the probe.
pub const LAST_CHANNEL: u16 = 0xFEFF;

/// The channel that follows `id` in the order in which they are given away.
pub open spec fn id_after(id: u16) -> u16 {
    if id >= LAST_CHANNEL {
        1
    } else {
        (id + 1) as u16
    }
}

/// The connections and the DNS queries that are under way. `S` is how the payloads
/// of a connection are handed on, `P` is who asked a query.
pub struct ClientMux<S, P> {
    next_id: u16,
    channels: HashMap<u16, S>,
    queries: HashMap<u16, P>,
}

/// What a `ClientMux` holds.
#[verifier::ext_equal]
#[verifier::reject_recursive_types(S)]
#[verifier::reject_recursive_types(P)]
pub struct ClientView<S, P> {
    /// The channel that is given away next.
    pub next_id: u16,
    pub channels: Map<u16, S>,
    pub queries: Map<u16, P>,
}

impl<S, P> View for ClientMux<S, P> {
    type V = ClientView<S, P>;

    closed spec fn view(&self) -> ClientView<S, P> {
        ClientView { next_id: self.next_id, channels: self.channels@, queries: self.queries@ }
    }
}

/// What the client does with a frame of the server.
#[derive(Debug)]
pub enum ClientAction<P> {
    /// Nothing.
    Ignore,
    /// Send this frame to the server.
    Send(Frame),
    /// Hand these bytes to the connection of this channel.
    Deliver { channel: u16, data: Vec<u8> },
    /// The connection of this channel gets no more.
    Close { channel: u16 },
    /// Send this reply to the one who asked.
    Answer { peer: P, data: Vec<u8> },
}

/// What a `ClientAction` says.
#[verifier::ext_equal]
pub enum ClientActionView<P> {
    Ignore,
    Send(FrameView),
    Deliver { channel: u16, data: Seq<u8> },
    Close { channel: u16 },
    Answer { peer: P, data: Seq<u8> },
}

impl<P> View for ClientAction<P> {
    type V = ClientActionView<P>;

    open spec fn view(&self) -> ClientActionView<P> {
        match self {
            ClientAction::Ignore => ClientActionView::Ignore,
            ClientAction::Send(f) => ClientActionView::Send(f@),
            ClientAction::Deliver { channel, data } => ClientActionView::Deliver {
                channel: *channel,
                data: data@,
            },
            ClientAction::Close { channel } => ClientActionView::Close { channel: *channel },
            ClientAction::Answer { peer, data } => ClientActionView::Answer {
                peer: *peer,
                data: data@,
            },
        }
    }
}

/// What the client does with a frame of the server, and what it holds after that.
pub open spec fn client_step<S, P>(m: ClientView<S, P>, f: FrameView) -> (
    ClientView<S, P>,
    ClientActionView<P>,
) {
    if f.cmd == CMD_PING {
        (
            m,
            ClientActionView::Send(
                FrameView { channel: f.channel, cmd: CMD_PONG, data: f.data },
            ),
        )
    } else if f.cmd == CMD_TCP_DATA && m.channels.contains_key(f.channel) {
        (m, ClientActionView::Deliver { channel: f.channel, data: f.data })
    } else if (f.cmd == CMD_TCP_EOF || f.cmd == CMD_TCP_STOP_SENDING) && m.channels.contains_key(
        f.channel,
    ) {
        (
            ClientView { channels: m.channels.remove(f.channel), ..m },
            ClientActionView::Close { channel: f.channel },
        )
    } else if f.cmd == CMD_DNS_RESPONSE && m.queries.contains_key(f.channel) {
        (
            ClientView { queries: m.queries.remove(f.channel), ..m },
            if f.data.len() == 0 {
                ClientActionView::Ignore
            } else {
                ClientActionView::Answer { peer: m.queries[f.channel], data: f.data }
            },
        )
    } else {
        (m, ClientActionView::Ignore)
    }
}

/// The frame that forwards a DNS query of `peer`, and what the client holds after that.
pub open spec fn ask_step<S, P>(m: ClientView<S, P>, peer: P, query: Seq<u8>) -> (
    ClientView<S, P>,
    FrameView,
) {
    (
        ClientView {
            next_id: id_after(m.next_id),
            queries: m.queries.insert(m.next_id, peer),
            ..m
        },
        FrameView { channel: m.next_id, cmd: CMD_DNS_REQ, data: query },
    )
}

impl<S, P> ClientMux<S, P> {
    /// The next channel is one that may be given away.
    pub open spec fn wf(&self) -> bool {
        1 <= self@.next_id <= LAST_CHANNEL
    }

    /// No connection and no query.
    pub fn new() -> (r: Self)
        ensures
            r.wf(),
            r@ == (ClientView::<S, P> {
                next_id: 1,
                channels: Map::empty(),
                queries: Map::empty(),
            }),
    {
        ClientMux { next_id: 1, channels: HashMap::new(), queries: HashMap::new() }
    }

    fn take_id(&mut self) -> (id: u16)
        requires
            old(self).wf(),
        ensures
            final(self).wf(),
            id == old(self)@.next_id,
            final(self)@ == (ClientView { next_id: id_after(id), ..old(self)@ }),
    {
        let id: u16 = self.next_id;
        self.next_id = if id >= LAST_CHANNEL {
            1
        } else {
            id + 1
        };
        id
    }

    /// Takes a new connection in, whose payloads go to `sink`, and gives its channel.
    pub fn accept(&mut self, sink: S) -> (id: u16)
        requires
            old(self).wf(),
        ensures
            final(self).wf(),
            id == old(self)@.next_id,
            final(self)@ == (ClientView {
                next_id: id_after(id),
                channels: old(self)@.channels.insert(id, sink),
                ..old(self)@
            }),
    {
        broadcast use vstd::std_specs::hash::group_hash_axioms;

        let id: u16 = self.take_id();
        self.channels.insert(id, sink);
        id
    }

    /// Takes a DNS query in, and gives the frame that forwards it.
    pub fn ask(&mut self, peer: P, query: Vec<u8>) -> (r: Frame)
        requires
            old(self).wf(),
        ensures
            final(self).wf(),
            (final(self)@, r@) == ask_step(old(self)@, peer, query@),
    {
        broadcast use vstd::std_specs::hash::group_hash_axioms;

        let id: u16 = self.take_id();
        self.queries.insert(id, peer);
        Frame::new(id, CMD_DNS_REQ, query)
    }

    /// Where the payloads of a connection go.
    pub fn sink(&self, channel: u16) -> (r: Option<&S>)
        ensures
            match r {
                Some(s) => self@.channels.contains_key(channel) && *s == self@.channels[channel],
                None => !self@.channels.contains_key(channel),
            },
    {
        broadcast use vstd::std_specs::hash::group_hash_axioms;

        self.channels.get(&channel)
    }

    /// Forgets a connection that both sides are done with.
    pub fn close(&mut self, channel: u16)
        requires
            old(self).wf(),
        ensures
            final(self).wf(),
            final(self)@ == (ClientView {
                channels: old(self)@.channels.remove(channel),
                ..old(self)@
            }),
    {
        broadcast use vstd::std_specs::hash::group_hash_axioms;

        self.channels.remove(&channel);
    }

    /// What to do with a frame of the server.
    pub fn on_frame(&mut self, f: Frame) -> (r: ClientAction<P>)
        requires
            old(self).wf(),
        ensures
            final(self).wf(),
            (final(self)@, r@) == client_step(old(self)@, f@),
    {
        broadcast use vstd::std_specs::hash::group_hash_axioms;

        let channel: u16 = f.channel;
        match f.cmd {
            CMD_PING => ClientAction::Send(Frame::new(channel, CMD_PONG, f.data)),
            CMD_TCP_DATA => {
                if self.channels.contains_key(&channel) {
                    ClientAction::Deliver { channel, data: f.data }
                } else {
                    ClientAction::Ignore
                }
            },
            CMD_TCP_EOF | CMD_TCP_STOP_SENDING => match self.channels.remove(&channel) {
                Some(_) => ClientAction::Close { channel },
                None => {
                    assert(self@.channels =~= old(self)@.channels);
                    ClientAction::Ignore
                },
            },
            CMD_DNS_RESPONSE => match self.queries.remove(&channel) {
                Some(peer) => {
                    if f.data.len() == 0 {
                        ClientAction::Ignore
                    } else {
                        ClientAction::Answer { peer, data: f.data }
                    }
                },
                None => {
                    assert(self@.queries =~= old(self)@.queries);
                    ClientAction::Ignore
                },
            },
            _ => ClientAction::Ignore,
        }
    }
}

// --- laws of the connections ------------------------------------------------

/// The channel that is given away `n` turns after `id`.
pub open spec fn id_later(id: u16, n: nat) -> u16
    decreases n,
{
    if n == 0 {
        id
    } else {
        id_after(id_later(id, (n - 1) as nat))
    }
}

proof fn lemma_id_later(id: u16, n: nat)
    requires
        1 <= id <= LAST_CHANNEL,
    ensures
        id_later(id, n) == (id - 1 + n) % (LAST_CHANNEL as int) + 1,
    decreases n,
{
    if n > 0 {
        lemma_id_later(id, (n - 1) as nat);
    }
}

/// No connection and no query is ever given channel 0 or a channel of the probe.
pub proof fn channels_keep_off_the_probe(id: u16, n: nat, i: int)
    requires
        1 <= id <= LAST_CHANNEL,
        0 <= i < PROBE_BURST_FRAMES,
    ensures
        1 <= id_later(id, n) <= LAST_CHANNEL,
        id_later(id, n) != PROBE_CHANNEL_BASE + i,
{
    lemma_id_later(id, n);
}

/// A channel is given away again only after all others were.
pub proof fn channels_repeat_late(id: u16, i: nat, j: nat)
    requires
        1 <= id <= LAST_CHANNEL,
        i < j < i + LAST_CHANNEL,
    ensures
        id_later(id, i) != id_later(id, j),
{
    lemma_id_later(id, i);
    lemma_id_later(id, j);
}

/// A `PING` is answered with a `PONG` on its channel that carries its payload, and
/// nothing else comes of it.
pub proof fn ping_is_echoed<S, P>(m: ClientView<S, P>, f: FrameView)
    requires
        f.cmd == CMD_PING,
    ensures
        client_step(m, f) == (
            m,
            ClientActionView::<P>::Send(
                FrameView { channel: f.channel, cmd: CMD_PONG, data: f.data },
            ),
        ),
{
}

/// A frame changes nothing on other channels than its own, and starts nothing.
pub proof fn frame_stays_on_its_channel<S, P>(m: ClientView<S, P>, f: FrameView, channel: u16)
    requires
        channel != f.channel,
    ensures
        ({
            let after = client_step(m, f).0;
            &&& after.next_id == m.next_id
            &&& after.channels.contains_key(channel) == m.channels.contains_key(channel)
            &&& m.channels.contains_key(channel) ==> after.channels[channel] == m.channels[channel]
            &&& after.queries.contains_key(channel) == m.queries.contains_key(channel)
            &&& m.queries.contains_key(channel) ==> after.queries[channel] == m.queries[channel]
        }),
{
}

/// A frame leaves behind no connection and no query that was not there before.
pub proof fn frame_starts_nothing<S, P>(m: ClientView<S, P>, f: FrameView)
    ensures
        client_step(m, f).0.channels.submap_of(m.channels),
        client_step(m, f).0.queries.submap_of(m.queries),
{
}

/// The reply to a query goes to the one who asked it, as long as its channel was not
/// given to another query since; a second reply goes to nobody.
pub proof fn reply_reaches_the_asker<S, P>(m: ClientView<S, P>, f: FrameView, peer: P)
    requires
        f.cmd == CMD_DNS_RESPONSE,
        f.data.len() > 0,
        m.queries.contains_key(f.channel),
        m.queries[f.channel] == peer,
    ensures
        client_step(m, f).1 == (ClientActionView::Answer { peer, data: f.data }),
        client_step(client_step(m, f).0, f) == (client_step(m, f).0, ClientActionView::<P>::Ignore),
{
}

/// The payloads that the connection of a channel is handed when these frames arrive.
pub open spec fn delivered<S, P>(
    m: ClientView<S, P>,
    frames: Seq<FrameView>,
    to: u16,
) -> Seq<Seq<u8>>
    decreases frames.len(),
{
    if frames.len() == 0 {
        seq![]
    } else {
        let (after, action) = client_step(m, frames[0]);
        let rest = delivered(after, frames.drop_first(), to);
        match action {
            ClientActionView::Deliver { channel, data } => if channel == to {
                seq![data] + rest
            } else {
                rest
            },
            _ => rest,
        }
    }
}

proof fn lemma_nothing_delivered<S, P>(m: ClientView<S, P>, frames: Seq<FrameView>, to: u16)
    requires
        !m.channels.contains_key(to),
    ensures
        delivered(m, frames, to) == Seq::<Seq<u8>>::empty(),
    decreases frames.len(),
{
    if frames.len() > 0 {
        lemma_nothing_delivered(client_step(m, frames[0]).0, frames.drop_first(), to);
    }
}

/// A connection writes to its socket just what the frames of its channel carry, up
/// to the first that closes it, whatever other frames come in between.
pub proof fn connection_gets_its_stream<S, P>(
    m: ClientView<S, P>,
    frames: Seq<FrameView>,
    channel: u16,
)
    requires
        m.channels.contains_key(channel),
    ensures
        relay::poured(delivered(m, frames, channel)) == relay::received(channel, frames),
    decreases frames.len(),
{
    if frames.len() > 0 {
        let f = frames[0];
        let rest = frames.drop_first();
        let after = client_step(m, f).0;
        if after.channels.contains_key(channel) {
            connection_gets_its_stream(after, rest, channel);
            if relay::concerns(channel, f) {
                let all = delivered(m, frames, channel);
                assert(all.drop_first() =~= delivered(after, rest, channel));
            }
        } else {
            lemma_nothing_delivered(after, rest, channel);
        }
    }
}

// --- laws of the other commands ---------------------------------------------

/// The networks of a family come in the order in which they were given: those of the first
/// of two lists and then those of the second; and one network is of IPv6 just where there is a
/// colon in it.
pub proof fn subnets_keep_their_order(a: Seq<Seq<char>>, b: Seq<Seq<char>>, s: Seq<char>, v6: bool)
    ensures
        of_family(a + b, v6) == of_family(a, v6) + of_family(b, v6),
        of_family(seq![s], v6) == if s.contains(':') == v6 {
            seq![s]
        } else {
            seq![]
        },
    decreases b.len(),
{
    if b.len() == 0 {
        assert(a + b =~= a);
        assert(of_family(a, v6) + of_family(b, v6) =~= of_family(a, v6));
    } else {
        subnets_keep_their_order(a, b.drop_last(), s, v6);
        assert((a + b).drop_last() =~= a + b.drop_last());
        assert((a + b).last() == b.last());
        assert(of_family(a + b, v6) =~= of_family(a, v6) + of_family(b, v6));
    }
    assert(seq![s].last() == s);
    assert(of_family(seq![s].drop_last(), v6) =~= seq![]);
    assert(of_family(seq![s], v6) =~= if s.contains(':') == v6 {
        seq![s]
    } else {
        seq![]
    });
}

/// The first frame of a connection names the family, 10 where there is a colon in the host
/// and 2 otherwise, the host and the port, with a comma between each two.
pub proof fn connect_frame_is_laid_out(channel: u16, host: Seq<char>, port: u16)
    ensures
        connect_view(channel, host, port) == (FrameView {
            channel,
            cmd: 0x4203,
            data: encode_utf8(
                decimal::digits(
                    if host.contains(':') {
                        10
                    } else {
                        2
                    },
                ),
            ) + seq![0x2cu8] + encode_utf8(host) + seq![0x2cu8] + encode_utf8(
                decimal::digits(port as nat),
            ),
        }),
{
    payload::connect_is_laid_out(family_of(host), host, port);
}

/// The bytes of a connection that is known are handed to it as they are, however many; a frame
/// that ends it, in either direction, closes it once. Frames for a connection that is not known
/// come to nothing.
pub proof fn connection_frames_reach_their_connection<S, P>(
    m: ClientView<S, P>,
    channel: u16,
    data: Seq<u8>,
    end: u16,
)
    requires
        end == 0x4204 || end == 0x4205,
    ensures
        ({
            let bytes = FrameView { channel, cmd: 0x4206, data };
            let close = FrameView { channel, cmd: end, data };
            let (after, action) = client_step(m, close);
            if m.channels.contains_key(channel) {
                &&& client_step(m, bytes) == (
                    m,
                    ClientActionView::<P>::Deliver { channel, data },
                )
                &&& action == ClientActionView::<P>::Close { channel }
                &&& after == (ClientView { channels: m.channels.remove(channel), ..m })
                &&& client_step(after, close) == (after, ClientActionView::<P>::Ignore)
                &&& client_step(after, bytes) == (after, ClientActionView::<P>::Ignore)
            } else {
                &&& client_step(m, bytes) == (m, ClientActionView::<P>::Ignore)
                &&& client_step(m, close) == (m, ClientActionView::<P>::Ignore)
            }
        }),
{
}

/// The reply to a query that is under way goes to the one who asked it, however long it is,
/// unless it is empty; and the query is over either way. A reply to no query goes to nobody.
pub proof fn reply_ends_the_query<S, P>(m: ClientView<S, P>, channel: u16, data: Seq<u8>)
    ensures
        ({
            let f = FrameView { channel, cmd: 0x420b, data };
            let (after, action) = client_step(m, f);
            if m.queries.contains_key(channel) {
                &&& after == (ClientView { queries: m.queries.remove(channel), ..m })
                &&& data.len() > 0 ==> action == ClientActionView::Answer {
                    peer: m.queries[channel],
                    data,
                }
                &&& data.len() == 0 ==> action == ClientActionView::<P>::Ignore
            } else {
                client_step(m, f) == (m, ClientActionView::<P>::Ignore)
            }
        }),
{
}

/// A ping is answered, and a command that is none for a client comes to nothing.
pub proof fn other_commands_come_to_nothing<S, P>(m: ClientView<S, P>, f: FrameView)
    ensures
        f.cmd == 0x4201 ==> client_step(m, f) == (
            m,
            ClientActionView::<P>::Send(
                FrameView { channel: f.channel, cmd: 0x4202, data: f.data },
            ),
        ),
        f.cmd < 0x4201 || f.cmd == 0x4202 || f.cmd == 0x4203 || (0x4207 <= f.cmd <= 0x420a)
            || f.cmd > 0x420b ==> client_step(m, f) == (m, ClientActionView::<P>::Ignore),
{
}

/// A query is forwarded as it is, on a channel of its own, on which its reply comes back to the
/// one who asked, and the next connection or query is given the channel after that: the next
/// number, or 1 after the last one.
pub proof fn query_is_forwarded<S, P>(m: ClientView<S, P>, peer: P, query: Seq<u8>)
    requires
        1 <= m.next_id <= 0xfeff,
    ensures
        ({
            let (after, f) = ask_step(m, peer, query);
            &&& f == (FrameView { channel: m.next_id, cmd: 0x420a, data: query })
            &&& after.queries == m.queries.insert(m.next_id, peer)
            &&& after.channels == m.channels
            &&& after.next_id == if m.next_id == 0xfeff {
                1
            } else {
                m.next_id + 1
            }
        }),
{
}

/// The channels are given away in the order of their numbers, and from 1 on again after the
/// last one.
pub proof fn channels_are_numbered_in_order(id: u16, n: nat)
    requires
        1 <= id <= 0xfeff,
    ensures
        id_later(id, n) == (id - 1 + n) % 0xfeff + 1,
        id_later(id, n + 1) == id_after(id_later(id, n)),
{
    lemma_id_later(id, n);
}

} // verus!
