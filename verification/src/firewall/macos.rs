//! Redirection on macOS, by rules of `pf`.

use vstd::prelude::*;
use vstd::slice::slice_subrange;

use crate::decimal;
use crate::decimal::push_decimal;
use crate::ip::{IpAddr, IpView, SocketTarget, TargetView};
use crate::split;
use crate::split::lines_of;
use crate::ssnet::frame;
use crate::ssnet::frame::{from_be, to_be};
use crate::text;
use crate::text::{chars_of, has_prefix, string_of, trimmed};

verus! {

// --- rules ------------------------------------------------------------------

/// The rules for one network: redirect its connections that arrive on the loopback
/// interface to the port, and route those that go out to that interface.
pub open spec fn subnet_rules(v6: bool, subnet: Seq<char>, port: u16) -> Seq<char> {
    if v6 {
        "rdr pass on lo0 inet6 proto tcp from any to "@ + subnet + " -> ::1 port "@
            + decimal::digits(port as nat) + "\n"@
            + "pass out route-to lo0 inet6 proto tcp from any to "@ + subnet + " keep state\n"@
    } else {
        "rdr pass on lo0 inet proto tcp from any to "@ + subnet + " -> 127.0.0.1 port "@
            + decimal::digits(port as nat) + "\n"@
            + "pass out route-to lo0 inet proto tcp from any to "@ + subnet + " keep state\n"@
    }
}

/// The rules for several networks.
pub open spec fn subnets_rules(v6: bool, subnets: Seq<Seq<char>>, port: u16) -> Seq<char>
    decreases subnets.len(),
{
    if subnets.len() == 0 {
        seq![]
    } else {
        subnets_rules(v6, subnets.drop_last(), port) + subnet_rules(v6, subnets.last(), port)
    }
}

/// The rule that redirects DNS queries to the port.
pub open spec fn dns_rule(port: u16) -> Seq<char> {
    "rdr pass on lo0 inet proto udp from any to any port 53 -> 127.0.0.1 port "@
        + decimal::digits(port as nat) + "\n"@
}

/// All the rules: those for IPv4, that for DNS if it is wanted, those for IPv6.
pub open spec fn pf_rules(
    tcp_port: u16,
    dns_port: u16,
    subnets_v4: Seq<Seq<char>>,
    subnets_v6: Seq<Seq<char>>,
    dns: bool,
) -> Seq<char> {
    subnets_rules(false, subnets_v4, tcp_port) + (if dns {
        dns_rule(dns_port)
    } else {
        seq![]
    }) + subnets_rules(true, subnets_v6, tcp_port)
}

/// The anchor that holds the rules.
pub open spec fn anchor_name(chain: Seq<char>) -> Seq<char> {
    "com.rushtle/"@ + chain
}

/// Rules to be loaded into an anchor.
#[derive(Debug)]
pub struct PfRules {
    pub anchor: String,
    pub rules: String,
}

fn push_subnets(s: &mut String, v6: bool, subnets: &[String], port: u16)
    ensures
        final(s)@ == old(s)@ + subnets_rules(v6, text::texts(subnets@), port),
{
    let ghost start = s@;
    let ghost all = text::texts(subnets@);
    let n: usize = subnets.len();
    assert(start + subnets_rules(v6, all.take(0), port) =~= start);
    for i in 0..n
        invariant
            n == subnets@.len(),
            all == text::texts(subnets@),
            s@ == start + subnets_rules(v6, all.take(i as int), port),
    {
        let ghost before = s@;
        let subnet: &str = subnets[i].as_str();
        if v6 {
            s.append("rdr pass on lo0 inet6 proto tcp from any to ");
            s.append(subnet);
            s.append(" -> ::1 port ");
            push_decimal(s, port as u64);
            s.append("\n");
            s.append("pass out route-to lo0 inet6 proto tcp from any to ");
            s.append(subnet);
            s.append(" keep state\n");
        } else {
            s.append("rdr pass on lo0 inet proto tcp from any to ");
            s.append(subnet);
            s.append(" -> 127.0.0.1 port ");
            push_decimal(s, port as u64);
            s.append("\n");
            s.append("pass out route-to lo0 inet proto tcp from any to ");
            s.append(subnet);
            s.append(" keep state\n");
        }
        assert(s@ =~= before + subnet_rules(v6, subnet@, port));
        assert(all.take(i + 1).drop_last() =~= all.take(i as int));
        assert(all.take(i + 1).last() == subnet@);
        assert(s@ =~= start + subnets_rules(v6, all.take(i + 1), port));
    }
    assert(all.take(n as int) =~= all);
}

/// The rules that redirect TCP connections to the networks to `tcp_port` and, with
/// `dns`, DNS queries to `dns_port`. `None` if there is nothing to redirect.
pub fn install(
    chain: &str,
    tcp_port: u16,
    dns_port: u16,
    subnets_v4: &[String],
    subnets_v6: &[String],
    dns: bool,
) -> (r: Option<PfRules>)
    ensures
        ({
            let rules = pf_rules(
                tcp_port,
                dns_port,
                text::texts(subnets_v4@),
                text::texts(subnets_v6@),
                dns,
            );
            match r {
                Some(p) => {
                    &&& rules.len() > 0
                    &&& p.anchor@ == anchor_name(chain@)
                    &&& p.rules@ == rules
                },
                None => rules.len() == 0,
            }
        }),
{
    let mut rules: String = String::new();
    push_subnets(&mut rules, false, subnets_v4, tcp_port);
    if dns {
        rules.append("rdr pass on lo0 inet proto udp from any to any port 53 -> 127.0.0.1 port ");
        push_decimal(&mut rules, dns_port as u64);
        rules.append("\n");
    }
    push_subnets(&mut rules, true, subnets_v6, tcp_port);
    assert(rules@ =~= pf_rules(
        tcp_port,
        dns_port,
        text::texts(subnets_v4@),
        text::texts(subnets_v6@),
        dns,
    ));
    let v: Vec<char> = chars_of(rules.as_str());
    if v.len() == 0 {
        return None;
    }
    let mut anchor: String = String::new();
    anchor.append("com.rushtle/");
    anchor.append(chain);
    assert(anchor@ =~= anchor_name(chain@));
    Some(PfRules { anchor, rules })
}

/// There is nothing to redirect just where there is no network and no DNS.
pub proof fn nothing_to_redirect(
    tcp_port: u16,
    dns_port: u16,
    subnets_v4: Seq<Seq<char>>,
    subnets_v6: Seq<Seq<char>>,
    dns: bool,
)
    ensures
        pf_rules(tcp_port, dns_port, subnets_v4, subnets_v6, dns).len() == 0 <==> {
            &&& subnets_v4.len() == 0
            &&& subnets_v6.len() == 0
            &&& !dns
        },
{
    reveal_strlit("\n");
}

/// What is known of the rules once they are in effect, to take them down again.
#[derive(Debug)]
pub struct PfState {
    pub anchor: String,
    /// What `pf` gave to the one who enabled it.
    pub enable_token: Option<String>,
}

/// What a `PfState` says.
#[verifier::ext_equal]
pub struct PfStateView {
    pub anchor: Seq<char>,
    pub enable_token: Option<Seq<char>>,
}

impl View for PfState {
    type V = PfStateView;

    open spec fn view(&self) -> PfStateView {
        PfStateView { anchor: self.anchor@, enable_token: string_view(self.enable_token) }
    }
}

/// What introduces the token.
pub open spec fn token_label() -> Seq<char> {
    "Token : "@
}

/// The token in the first of these lines that has one.
pub open spec fn token_in(lines: Seq<Seq<char>>) -> Option<Seq<char>>
    decreases lines.len(),
{
    if lines.len() == 0 {
        None
    } else if text::starts_with(lines[0], token_label()) {
        Some(text::trim(lines[0].skip(token_label().len() as int)))
    } else {
        token_in(lines.drop_first())
    }
}

/// What an optional string says.
pub open spec fn string_view(s: Option<String>) -> Option<Seq<char>> {
    match s {
        Some(t) => Some(t@),
        None => None,
    }
}

/// What is known of the rules of an anchor after `pf` was enabled, with these messages.
pub open spec fn state_after(anchor: Seq<char>, messages: Seq<char>) -> PfStateView {
    PfStateView { anchor, enable_token: token_in(split::lines(messages)) }
}

/// What is known of the rules of an anchor after `pf` was enabled, with these messages.
pub fn enabled(anchor: String, messages: &str) -> (r: PfState)
    ensures
        r@ == state_after(anchor@, messages@),
{
    let v: Vec<char> = chars_of(messages);
    let lines: Vec<&[char]> = lines_of(v.as_slice());
    let ghost all = split::lines(messages@);
    let n: usize = lines.len();
    assert(all.skip(0) =~= all);
    for i in 0..n
        invariant
            n == lines@.len(),
            text::parts(lines@) == all,
            all == split::lines(messages@),
            token_in(all.skip(i as int)) == token_in(all),
    {
        let line: &[char] = lines[i];
        assert(all.skip(i as int)[0] == line@) by {
            assert(all[i as int] == lines@[i as int]@);
        }
        if has_prefix(line, "Token : ") {
            proof {
                reveal_strlit("Token : ");
            }
            let m: usize = line.len();
            let rest: &[char] = slice_subrange(line, 8, m);
            assert(rest@ =~= line@.skip(token_label().len() as int));
            return PfState { anchor, enable_token: Some(string_of(trimmed(rest))) };
        }
        assert(all.skip(i as int).drop_first() =~= all.skip(i + 1));
    }
    assert(all.skip(n as int) =~= seq![]);
    PfState { anchor, enable_token: None }
}

/// What a list of argument lists says.
pub open spec fn arg_lists(v: Seq<Vec<String>>) -> Seq<Seq<Seq<char>>> {
    Seq::new(v.len(), |i: int| text::texts(v[i]@))
}

/// The arguments that load rules from the standard input into an anchor.
pub open spec fn load_args(anchor: Seq<char>) -> Seq<Seq<char>> {
    seq!["-a"@, anchor, "-f"@, "-"@]
}

/// The arguments that empty an anchor.
pub open spec fn flush_args(anchor: Seq<char>) -> Seq<Seq<char>> {
    seq!["-a"@, anchor, "-F"@, "all"@]
}

/// The arguments that give a token back.
pub open spec fn release_args(token: Seq<char>) -> Seq<Seq<char>> {
    seq!["-X"@, token]
}

fn word(s: &str) -> (r: String)
    ensures
        r@ == s@,
{
    let mut w: String = String::new();
    w.append(s);
    assert(w@ =~= s@);
    w
}

/// The arguments with which `pfctl` loads the rules of an anchor from its standard
/// input.
pub fn load(anchor: &str) -> (r: Vec<String>)
    ensures
        text::texts(r@) == load_args(anchor@),
{
    let r: Vec<String> = vec![word("-a"), word(anchor), word("-f"), word("-")];
    assert(text::texts(r@) =~= load_args(anchor@));
    r
}

/// What to do to take rules down, and what is known of rules after that: nothing.
pub open spec fn take_down(state: Option<PfStateView>) -> (
    Option<PfStateView>,
    Seq<Seq<Seq<char>>>,
) {
    match state {
        Some(st) => match st.enable_token {
            Some(t) => (None, seq![flush_args(st.anchor), release_args(t)]),
            None => (None, seq![flush_args(st.anchor)]),
        },
        None => (None, seq![]),
    }
}

/// What is known of rules that may be in effect.
pub open spec fn known(state: Option<PfState>) -> Option<PfStateView> {
    match state {
        Some(st) => Some(st@),
        None => None,
    }
}

/// The arguments of the `pfctl` commands that take the rules down, in order: empty the
/// anchor, and give the token back if there is one. None if no rules are in effect.
pub fn remove(state: &mut Option<PfState>) -> (r: Vec<Vec<String>>)
    ensures
        (known(*final(state)), arg_lists(r@)) == take_down(known(*old(state))),
{
    let mut r: Vec<Vec<String>> = Vec::new();
    let mut st: Option<PfState> = None;
    std::mem::swap(&mut st, state);
    match st {
        Some(st) => {
            let flush: Vec<String> = vec![
                word("-a"),
                word(st.anchor.as_str()),
                word("-F"),
                word("all"),
            ];
            assert(text::texts(flush@) =~= flush_args(st.anchor@));
            r.push(flush);
            match &st.enable_token {
                Some(t) => {
                    let release: Vec<String> = vec![word("-X"), word(t.as_str())];
                    assert(text::texts(release@) =~= release_args(t@));
                    r.push(release);
                },
                None => {},
            }
            assert(arg_lists(r@) =~= take_down(Some(st@)).1);
        },
        None => {
            assert(arg_lists(r@) =~= seq![]);
        },
    }
    r
}

/// What was put into effect is taken down once: the anchor that was loaded is emptied, the
/// token that `pf` gave is given back, and a second removal does nothing.
pub proof fn removal_undoes_install(anchor: Seq<char>, messages: Seq<char>)
    ensures
        ({
            let st = state_after(anchor, messages);
            let (left, commands) = take_down(Some(st));
            &&& commands.len() > 0
            &&& commands[0] == flush_args(anchor)
            &&& match token_in(split::lines(messages)) {
                Some(token) => commands == seq![flush_args(anchor), release_args(token)],
                None => commands == seq![flush_args(anchor)],
            }
            &&& left is None
            &&& take_down(left) == (None::<PfStateView>, Seq::<Seq<Seq<char>>>::empty())
        }),
{
}

// --- lookup -----------------------------------------------------------------

/// The request number of the lookup of a translation.
pub const DIOCNATLOOK: u64 = 0xc0604417;

/// The direction of connections that come in.
pub const PF_IN: u8 = 1;

/// The direction of connections that go out.
pub const PF_OUT: u8 = 2;

/// The number of the family of IPv4.
pub const PF_AF_INET: u8 = 2;

/// The number of the family of IPv6.
pub const PF_AF_INET6: u8 = 30;

/// The number of the protocol TCP.
pub const PF_PROTO_TCP: u8 = 6;

/// The number of bytes of a request.
pub const NATLOOK_LEN: usize = 96;

/// Four bytes of which the first two hold a port, the higher one first.
#[derive(Clone, Copy, Debug)]
pub struct PfStateXport {
    pub raw: [u8; 4],
}

impl PfStateXport {
    /// Sets the port, and leaves the other bytes alone.
    pub fn set_port(&mut self, port: u16)
        ensures
            final(self).raw@ == frame::be_bytes(port) + old(self).raw@.subrange(2, 4),
    {
        let b: (u8, u8) = to_be(port);
        assert(frame::be_bytes(port) == seq![b.0, b.1]);
        self.raw = [b.0, b.1, self.raw[2], self.raw[3]];
        assert(self.raw@ =~= frame::be_bytes(port) + old(self).raw@.subrange(2, 4));
    }

    /// The port.
    pub fn port(&self) -> (r: u16)
        ensures
            r == frame::be_number(self.raw@[0], self.raw@[1]),
    {
        from_be(self.raw[0], self.raw[1])
    }
}

/// The port that was set is the port.
pub proof fn port_is_kept(port: u16, rest: Seq<u8>)
    ensures
        ({
            let raw = frame::be_bytes(port) + rest;
            frame::be_number(raw[0], raw[1]) == port
        }),
{
}

/// The bytes of the groups of an IPv6 address.
pub open spec fn group_bytes(groups: Seq<u16>) -> Seq<u8>
    decreases groups.len(),
{
    if groups.len() == 0 {
        seq![]
    } else {
        group_bytes(groups.drop_last()) + frame::be_bytes(groups.last())
    }
}

/// The groups of an IPv6 address of these bytes.
pub open spec fn byte_groups(b: Seq<u8>) -> Seq<u16> {
    Seq::new(8, |i: int| frame::be_number(b[2 * i], b[2 * i + 1]))
}

/// So many zero bytes.
pub open spec fn zeros(n: nat) -> Seq<u8> {
    Seq::new(n, |i: int| 0u8)
}

/// The request that asks for the original destination of a connection between `peer`
/// and `local`: their addresses, room for the original ones, their ports, room for the
/// original ones, and then the family, the protocol and the direction.
pub open spec fn request_bytes(
    saddr: Seq<u8>,
    daddr: Seq<u8>,
    sport: u16,
    dport: u16,
    af: u8,
    direction: u8,
) -> Seq<u8> {
    saddr + daddr + zeros(32) + (frame::be_bytes(sport) + zeros(2)) + (frame::be_bytes(dport)
        + zeros(2)) + zeros(8) + seq![af, PF_PROTO_TCP, 0u8, direction] + zeros(12)
}

/// The request for a connection between `peer` and `local`, which are of one family.
pub open spec fn request(peer: TargetView, local: TargetView, direction: u8) -> Option<Seq<u8>> {
    match (peer, local) {
        (
            TargetView::V4 { octets: s, port: sport },
            TargetView::V4 { octets: d, port: dport },
        ) => Some(
            request_bytes(s + zeros(12), d + zeros(12), sport, dport, PF_AF_INET, direction),
        ),
        (
            TargetView::V6 { groups: s, port: sport, .. },
            TargetView::V6 { groups: d, port: dport, .. },
        ) => Some(
            request_bytes(group_bytes(s), group_bytes(d), sport, dport, PF_AF_INET6, direction),
        ),
        _ => None,
    }
}

fn push_zeros(v: &mut Vec<u8>, n: usize)
    ensures
        final(v)@ == old(v)@ + zeros(n as nat),
{
    let ghost start = v@;
    for i in 0..n
        invariant
            v@ =~= start + zeros(i as nat),
    {
        v.push(0);
    }
}

fn push_groups(v: &mut Vec<u8>, g: &[u16; 8])
    ensures
        final(v)@ == old(v)@ + group_bytes(g@),
{
    let ghost start = v@;
    assert(start + group_bytes(g@.take(0)) =~= start);
    for i in 0..8
        invariant
            v@ == start + group_bytes(g@.take(i as int)),
    {
        let ghost before = v@;
        let b: (u8, u8) = to_be(g[i]);
        v.push(b.0);
        v.push(b.1);
        assert(v@ =~= before + frame::be_bytes(g@[i as int])) by {
            assert(frame::be_bytes(g@[i as int]) == seq![b.0, b.1]);
        }
        assert(g@.take(i + 1).drop_last() =~= g@.take(i as int));
        assert(v@ =~= start + group_bytes(g@.take(i + 1)));
    }
    assert(g@.take(8) =~= g@);
}

fn push_rest(v: &mut Vec<u8>, sport: u16, dport: u16, af: u8, direction: u8)
    ensures
        final(v)@ == old(v)@ + zeros(32) + (frame::be_bytes(sport) + zeros(2)) + (frame::be_bytes(
            dport,
        ) + zeros(2)) + zeros(8) + seq![af, PF_PROTO_TCP, 0u8, direction] + zeros(12),
{
    let ghost start = v@;
    push_zeros(v, 32);
    let mut sx: PfStateXport = PfStateXport { raw: [0, 0, 0, 0] };
    sx.set_port(sport);
    let mut dx: PfStateXport = PfStateXport { raw: [0, 0, 0, 0] };
    dx.set_port(dport);
    let none: [u8; 4] = [0, 0, 0, 0];
    assert(none@.subrange(2, 4) =~= zeros(2));
    v.extend_from_slice(sx.raw.as_slice());
    v.extend_from_slice(dx.raw.as_slice());
    push_zeros(v, 8);
    v.push(af);
    v.push(PF_PROTO_TCP);
    v.push(0);
    v.push(direction);
    push_zeros(v, 12);
    assert(v@ =~= start + zeros(32) + (frame::be_bytes(sport) + zeros(2)) + (frame::be_bytes(dport)
        + zeros(2)) + zeros(8) + seq![af, PF_PROTO_TCP, 0u8, direction] + zeros(12));
}

/// The request that asks for the original destination of a connection between `peer`
/// and `local`; `None` if they are not of one family.
pub fn natlook(peer: &SocketTarget, local: &SocketTarget, direction: u8) -> (r: Option<Vec<u8>>)
    ensures
        match r {
            Some(b) => request(peer@, local@, direction) == Some(b@),
            None => request(peer@, local@, direction) is None,
        },
{
    let mut v: Vec<u8> = Vec::new();
    match (*peer, *local) {
        (
            SocketTarget::V4 { octets: s, port: sport },
            SocketTarget::V4 { octets: d, port: dport },
        ) => {
            v.extend_from_slice(s.as_slice());
            push_zeros(&mut v, 12);
            v.extend_from_slice(d.as_slice());
            push_zeros(&mut v, 12);
            assert(v@ =~= (s@ + zeros(12)) + (d@ + zeros(12)));
            push_rest(&mut v, sport, dport, PF_AF_INET, direction);
            Some(v)
        },
        (
            SocketTarget::V6 { groups: s, port: sport, .. },
            SocketTarget::V6 { groups: d, port: dport, .. },
        ) => {
            push_groups(&mut v, &s);
            push_groups(&mut v, &d);
            assert(v@ =~= group_bytes(s@) + group_bytes(d@));
            push_rest(&mut v, sport, dport, PF_AF_INET6, direction);
            Some(v)
        },
        _ => None,
    }
}

/// The original destination that an answered request holds.
pub open spec fn answer(b: Seq<u8>) -> (IpView, u16) {
    (
        if b[80] == PF_AF_INET {
            IpView::V4(b.subrange(48, 52))
        } else {
            IpView::V6(byte_groups(b.subrange(48, 64)))
        },
        frame::be_number(b[76], b[77]),
    )
}

/// Reads the original destination off an answered request.
pub fn original_dst(b: &[u8]) -> (r: (IpAddr, u16))
    requires
        b@.len() == NATLOOK_LEN,
    ensures
        (r.0@, r.1) == answer(b@),
{
    let x: PfStateXport = PfStateXport { raw: [b[76], b[77], b[78], b[79]] };
    let port: u16 = x.port();
    if b[80] == PF_AF_INET {
        let a: [u8; 4] = [b[48], b[49], b[50], b[51]];
        assert(a@ =~= b@.subrange(48, 52));
        (IpAddr::V4(a), port)
    } else {
        let g: [u16; 8] = [
            from_be(b[48], b[49]),
            from_be(b[50], b[51]),
            from_be(b[52], b[53]),
            from_be(b[54], b[55]),
            from_be(b[56], b[57]),
            from_be(b[58], b[59]),
            from_be(b[60], b[61]),
            from_be(b[62], b[63]),
        ];
        assert(g@ =~= byte_groups(b@.subrange(48, 64)));
        (IpAddr::V6(g), port)
    }
}

/// The direction of the first request for a connection, of the second, and so on until
/// one is answered: going out, then coming in, and no more.
pub open spec fn direction_at(attempt: u8) -> Option<u8> {
    if attempt == 0 {
        Some(PF_OUT)
    } else if attempt == 1 {
        Some(PF_IN)
    } else {
        None
    }
}

/// The direction of the request after so many that were not answered; `None` if there
/// is none to try any more.
pub fn direction(attempt: u8) -> (r: Option<u8>)
    ensures
        r == direction_at(attempt),
{
    match attempt {
        0 => Some(PF_OUT),
        1 => Some(PF_IN),
        _ => None,
    }
}

proof fn lemma_group_bytes(g: Seq<u16>)
    ensures
        group_bytes(g).len() == 2 * g.len(),
        forall|i: int|
            0 <= i < g.len() ==> {
                &&& group_bytes(g)[2 * i] == frame::be_bytes(#[trigger] g[i])[0]
                &&& group_bytes(g)[2 * i + 1] == frame::be_bytes(g[i])[1]
            },
    decreases g.len(),
{
    if g.len() > 0 {
        let rest = g.drop_last();
        lemma_group_bytes(rest);
        assert forall|i: int| 0 <= i < g.len() implies {
            &&& group_bytes(g)[2 * i] == frame::be_bytes(#[trigger] g[i])[0]
            &&& group_bytes(g)[2 * i + 1] == frame::be_bytes(g[i])[1]
        } by {
            if i < rest.len() {
                assert(rest[i] == g[i]);
            }
        }
    }
}

/// The bytes of an IPv6 address stand for its groups.
pub proof fn groups_read_back(g: Seq<u16>)
    requires
        g.len() == 8,
    ensures
        byte_groups(group_bytes(g)) == g,
{
    lemma_group_bytes(g);
    assert forall|i: int| 0 <= i < 8 implies #[trigger] byte_groups(group_bytes(g))[i] == g[i] by {
        assert(group_bytes(g)[2 * i] == frame::be_bytes(g[i])[0]);
    }
    assert(byte_groups(group_bytes(g)) =~= g);
}

/// A request has the size that its number announces, and each of its fields where `pf`
/// looks for it.
pub proof fn request_is_laid_out(
    saddr: Seq<u8>,
    daddr: Seq<u8>,
    sport: u16,
    dport: u16,
    af: u8,
    direction: u8,
)
    requires
        saddr.len() == 16,
        daddr.len() == 16,
    ensures
        ({
            let b = request_bytes(saddr, daddr, sport, dport, af, direction);
            &&& b.len() == NATLOOK_LEN
            &&& (DIOCNATLOOK / 0x10000) % 0x2000 == NATLOOK_LEN
            &&& b.subrange(0, 16) == saddr
            &&& b.subrange(16, 32) == daddr
            &&& frame::be_number(b[64], b[65]) == sport
            &&& frame::be_number(b[68], b[69]) == dport
            &&& b[80] == af
            &&& b[81] == PF_PROTO_TCP
            &&& b[83] == direction
        }),
{
    let b = request_bytes(saddr, daddr, sport, dport, af, direction);
    assert(b.subrange(0, 16) =~= saddr);
    assert(b.subrange(16, 32) =~= daddr);
    assert(b[64] == frame::be_bytes(sport)[0] && b[65] == frame::be_bytes(sport)[1]);
    assert(b[68] == frame::be_bytes(dport)[0] && b[69] == frame::be_bytes(dport)[1]);
}

// --- what the rules say -----------------------------------------------------

/// The two lines for one network: connections to it that arrive on the loopback interface go to
/// the port, and those that go out are routed to that interface.
pub proof fn network_has_two_lines(subnet: Seq<char>, port: u16)
    ensures
        subnet_rules(false, subnet, port) == split::of_lines(
            seq![
                "rdr pass on lo0 inet proto tcp from any to "@ + subnet + " -> 127.0.0.1 port "@
                    + decimal::digits(port as nat),
                "pass out route-to lo0 inet proto tcp from any to "@ + subnet + " keep state"@,
            ],
        ),
        subnet_rules(true, subnet, port) == split::of_lines(
            seq![
                "rdr pass on lo0 inet6 proto tcp from any to "@ + subnet + " -> ::1 port "@
                    + decimal::digits(port as nat),
                "pass out route-to lo0 inet6 proto tcp from any to "@ + subnet + " keep state"@,
            ],
        ),
{
    reveal_strlit("\n");
    reveal_strlit(" keep state");
    reveal_strlit(" keep state\n");
    assert(" keep state\n"@ =~= " keep state"@ + seq!['\n']);
    assert("\n"@ =~= seq!['\n']);
    let a4 = "rdr pass on lo0 inet proto tcp from any to "@ + subnet + " -> 127.0.0.1 port "@
        + decimal::digits(port as nat);
    let b4 = "pass out route-to lo0 inet proto tcp from any to "@ + subnet + " keep state"@;
    let a6 = "rdr pass on lo0 inet6 proto tcp from any to "@ + subnet + " -> ::1 port "@
        + decimal::digits(port as nat);
    let b6 = "pass out route-to lo0 inet6 proto tcp from any to "@ + subnet + " keep state"@;
    lemma_two_lines(a4, b4);
    lemma_two_lines(a6, b6);
    assert(subnet_rules(false, subnet, port) =~= a4 + seq!['\n'] + (b4 + seq!['\n']));
    assert(subnet_rules(true, subnet, port) =~= a6 + seq!['\n'] + (b6 + seq!['\n']));
}

proof fn lemma_two_lines(a: Seq<char>, b: Seq<char>)
    ensures
        split::of_lines(seq![a, b]) == a + seq!['\n'] + (b + seq!['\n']),
{
    let ls = seq![a, b];
    let l1 = ls.drop_first();
    assert(l1 =~= seq![b]);
    assert(l1.drop_first() =~= seq![]);
    reveal_with_fuel(split::of_lines, 3);
    assert(split::of_lines(l1) =~= b + seq!['\n']);
}

/// The rules of several networks are those of the first of them and then those of the others.
pub proof fn networks_come_in_order(
    v6: bool,
    a: Seq<Seq<char>>,
    b: Seq<Seq<char>>,
    subnet: Seq<char>,
    port: u16,
)
    ensures
        subnets_rules(v6, a + b, port) == subnets_rules(v6, a, port) + subnets_rules(v6, b, port),
        subnets_rules(v6, seq![subnet], port) == subnet_rules(v6, subnet, port),
        subnets_rules(v6, seq![], port).len() == 0,
    decreases b.len(),
{
    if b.len() == 0 {
        assert(a + b =~= a);
        assert(subnets_rules(v6, a, port) + subnets_rules(v6, b, port) =~= subnets_rules(
            v6,
            a,
            port,
        ));
    } else {
        networks_come_in_order(v6, a, b.drop_last(), subnet, port);
        assert((a + b).drop_last() =~= a + b.drop_last());
        assert((a + b).last() == b.last());
        assert(subnets_rules(v6, a + b, port) =~= subnets_rules(v6, a, port) + subnets_rules(
            v6,
            b,
            port,
        ));
    }
    assert(seq![subnet].last() == subnet);
    assert(subnets_rules(v6, seq![subnet].drop_last(), port) =~= seq![]);
    assert(subnets_rules(v6, seq![subnet], port) =~= subnet_rules(v6, subnet, port));
}

/// The rules are those of the networks of IPv4, with `dns` the one that redirects all queries
/// to the port for them, and those of the networks of IPv6; all in an anchor that is named after
/// the chain.
pub proof fn rules_cover_what_is_wanted(
    tcp_port: u16,
    dns_port: u16,
    subnets_v4: Seq<Seq<char>>,
    subnets_v6: Seq<Seq<char>>,
    dns: bool,
    chain: Seq<char>,
)
    ensures
        pf_rules(tcp_port, dns_port, subnets_v4, subnets_v6, dns) == subnets_rules(
            false,
            subnets_v4,
            tcp_port,
        ) + (if dns {
            "rdr pass on lo0 inet proto udp from any to any port 53 -> 127.0.0.1 port "@
                + decimal::digits(dns_port as nat) + seq!['\n']
        } else {
            seq![]
        }) + subnets_rules(true, subnets_v6, tcp_port),
        anchor_name(chain) == "com.rushtle/"@ + chain,
{
    reveal_strlit("\n");
    assert("\n"@ =~= seq!['\n']);
}

/// The rules redirect the connections to every network that is asked for, of either family, to
/// the port.
pub proof fn every_network_is_redirected(
    tcp_port: u16,
    dns_port: u16,
    subnets_v4: Seq<Seq<char>>,
    subnets_v6: Seq<Seq<char>>,
    dns: bool,
    i: int,
)
    ensures
        ({
            let rules = pf_rules(tcp_port, dns_port, subnets_v4, subnets_v6, dns);
            let port = decimal::digits(tcp_port as nat);
            &&& 0 <= i < subnets_v4.len() ==> text::contains_text(
                rules,
                "rdr pass on lo0 inet proto tcp from any to "@ + subnets_v4[i]
                    + " -> 127.0.0.1 port "@ + port + seq!['\n'],
            )
            &&& 0 <= i < subnets_v6.len() ==> text::contains_text(
                rules,
                "rdr pass on lo0 inet6 proto tcp from any to "@ + subnets_v6[i] + " -> ::1 port "@
                    + port + seq!['\n'],
            )
        }),
{
    let rules = pf_rules(tcp_port, dns_port, subnets_v4, subnets_v6, dns);
    let port = decimal::digits(tcp_port as nat);
    let four = subnets_rules(false, subnets_v4, tcp_port);
    let six = subnets_rules(true, subnets_v6, tcp_port);
    let mid = if dns {
        dns_rule(dns_port)
    } else {
        seq![]
    };
    let none = Seq::<char>::empty();
    reveal_strlit("\n");
    assert("\n"@ =~= seq!['\n']);
    if 0 <= i < subnets_v4.len() {
        let line = "rdr pass on lo0 inet proto tcp from any to "@ + subnets_v4[i]
            + " -> 127.0.0.1 port "@ + port + seq!['\n'];
        let (a, b) = lemma_rules_around(false, subnets_v4, tcp_port, i);
        let rest = subnet_rules(false, subnets_v4[i], tcp_port).skip(line.len() as int);
        assert(subnet_rules(false, subnets_v4[i], tcp_port) =~= line + rest);
        assert(rules =~= a + line + (rest + b + mid + six));
        lemma_contained(a, line, rest + b + mid + six);
    }
    if 0 <= i < subnets_v6.len() {
        let line = "rdr pass on lo0 inet6 proto tcp from any to "@ + subnets_v6[i]
            + " -> ::1 port "@ + port + seq!['\n'];
        let (a, b) = lemma_rules_around(true, subnets_v6, tcp_port, i);
        let rest = subnet_rules(true, subnets_v6[i], tcp_port).skip(line.len() as int);
        assert(subnet_rules(true, subnets_v6[i], tcp_port) =~= line + rest);
        assert(rules =~= (four + mid + a) + line + (rest + b));
        lemma_contained(four + mid + a, line, rest + b);
    }
}

proof fn lemma_contained(a: Seq<char>, p: Seq<char>, b: Seq<char>)
    ensures
        text::contains_text(a + p + b, p),
{
    let s = a + p + b;
    let i = a.len() as int;
    assert(s.subrange(i, i + p.len()) =~= p);
    assert(text::occurs_at(s, p, i));
}

proof fn lemma_rules_around(v6: bool, subnets: Seq<Seq<char>>, port: u16, i: int) -> (r: (
    Seq<char>,
    Seq<char>,
))
    requires
        0 <= i < subnets.len(),
    ensures
        subnets_rules(v6, subnets, port) == r.0 + subnet_rules(v6, subnets[i], port) + r.1,
{
    let before = subnets.take(i);
    let one = seq![subnets[i]];
    let after = subnets.skip(i + 1);
    networks_come_in_order(v6, before, one + after, subnets[i], port);
    networks_come_in_order(v6, one, after, subnets[i], port);
    assert(before + (one + after) =~= subnets);
    let r = (subnets_rules(v6, before, port), subnets_rules(v6, after, port));
    assert(subnets_rules(v6, subnets, port) =~= r.0 + subnet_rules(v6, subnets[i], port) + r.1);
    r
}

/// The token is what follows `Token : ` in the first line of the messages that starts so, without
/// white space around it; messages without such a line hold none.
pub proof fn token_is_found(
    before: Seq<Seq<char>>,
    pad: Seq<char>,
    token: Seq<char>,
    after: Seq<Seq<char>>,
)
    requires
        forall|i: int|
            0 <= i < before.len() ==> !text::starts_with(#[trigger] before[i], "Token : "@),
        text::all_white(pad),
        token.len() > 0,
        !text::is_white(token[0]),
        !text::is_white(token.last()),
    ensures
        token_in(before + seq!["Token : "@ + pad + token + pad] + after) == Some(token),
        token_in(before) is None,
    decreases before.len(),
{
    let line = "Token : "@ + pad + token + pad;
    let all = before + seq![line] + after;
    if before.len() == 0 {
        assert(all[0] == line);
        let n = "Token : "@.len() as int;
        assert(line.take(n) =~= "Token : "@);
        assert(line.skip(n) =~= pad + token + pad);
        text::white_space_around_is_trimmed(pad, token, pad);
    } else {
        let rest = before.drop_first();
        assert(!text::starts_with(before[0], "Token : "@));
        assert forall|i: int| 0 <= i < rest.len() implies !text::starts_with(
            #[trigger] rest[i],
            "Token : "@,
        ) by {
            assert(rest[i] == before[i + 1]);
        }
        token_is_found(rest, pad, token, after);
        assert(all[0] == before[0]);
        assert(all.drop_first() =~= rest + seq![line] + after);
    }
}

/// The arguments of the commands: one loads the rules of an anchor from the standard input, one
/// empties the anchor, and one gives a token back.
pub proof fn commands_are_spelled(anchor: Seq<char>, token: Seq<char>, messages: Seq<char>)
    ensures
        load_args(anchor) == seq!["-a"@, anchor, "-f"@, "-"@],
        take_down(Some(PfStateView { anchor, enable_token: None })).1 == seq![
            seq!["-a"@, anchor, "-F"@, "all"@],
        ],
        take_down(Some(PfStateView { anchor, enable_token: Some(token) })).1 == seq![
            seq!["-a"@, anchor, "-F"@, "all"@],
            seq!["-X"@, token],
        ],
        take_down(None).1.len() == 0,
        state_after(anchor, messages).anchor == anchor,
        state_after(anchor, messages).enable_token == token_in(split::lines(messages)),
{
}

/// A request for a connection of IPv4 holds the address and port of its peer, and then those of
/// its own end, where `pf` looks for them: at 0 and 16 the addresses, at 64 and 68 the ports, the
/// higher byte first; and at 80 the family, the protocol, and the direction. All else is zero.
pub proof fn v4_request_is_laid_out(
    peer: Seq<u8>,
    peer_port: u16,
    local: Seq<u8>,
    local_port: u16,
    direction: u8,
)
    requires
        peer.len() == 4,
        local.len() == 4,
    ensures
        ({
            let r = request(
                TargetView::V4 { octets: peer, port: peer_port },
                TargetView::V4 { octets: local, port: local_port },
                direction,
            );
            let b = r->0;
            &&& r is Some
            &&& b.len() == 96
            &&& b.subrange(0, 4) == peer
            &&& b.subrange(16, 20) == local
            &&& 256 * b[64] + b[65] == peer_port
            &&& 256 * b[68] + b[69] == local_port
            &&& b[80] == 2
            &&& b[81] == 6
            &&& b[83] == direction
            &&& forall|i: int|
                4 <= i < 16 || 20 <= i < 64 || 66 <= i < 68 || 70 <= i < 80 || i == 82 || 84 <= i
                    < 96 ==> #[trigger] b[i] == 0
        }),
{
    let b = request_bytes(
        peer + zeros(12),
        local + zeros(12),
        peer_port,
        local_port,
        PF_AF_INET,
        direction,
    );
    request_is_laid_out(
        peer + zeros(12),
        local + zeros(12),
        peer_port,
        local_port,
        PF_AF_INET,
        direction,
    );
    assert(b.subrange(0, 4) =~= peer);
    assert(b.subrange(16, 20) =~= local);
    frame::higher_byte_comes_first(0, b[64], b[65]);
    frame::higher_byte_comes_first(0, b[68], b[69]);
}

/// A request for a connection of IPv6 holds the groups of both addresses, the higher byte of
/// each first, and is laid out like one of IPv4 otherwise. There is none for two ends of
/// different families.
pub proof fn v6_request_is_laid_out(
    peer: Seq<u16>,
    peer_port: u16,
    local: Seq<u16>,
    local_port: u16,
    scope: u32,
    direction: u8,
    other: Seq<u8>,
    i: int,
)
    requires
        peer.len() == 8,
        local.len() == 8,
        0 <= i < 8,
    ensures
        ({
            let p = TargetView::V6 { groups: peer, scope, port: peer_port };
            let l = TargetView::V6 { groups: local, scope, port: local_port };
            let four = TargetView::V4 { octets: other, port: peer_port };
            let r = request(p, l, direction);
            let b = r->0;
            &&& r is Some
            &&& b.len() == 96
            &&& 256 * b[2 * i] + b[2 * i + 1] == peer[i]
            &&& 256 * b[16 + 2 * i] + b[16 + 2 * i + 1] == local[i]
            &&& 256 * b[64] + b[65] == peer_port
            &&& 256 * b[68] + b[69] == local_port
            &&& b[80] == 30
            &&& b[81] == 6
            &&& b[83] == direction
            &&& request(p, four, direction) is None
            &&& request(four, p, direction) is None
        }),
{
    let s = group_bytes(peer);
    let d = group_bytes(local);
    lemma_group_bytes(peer);
    lemma_group_bytes(local);
    let b = request_bytes(s, d, peer_port, local_port, PF_AF_INET6, direction);
    request_is_laid_out(s, d, peer_port, local_port, PF_AF_INET6, direction);
    assert(s[2 * i] == frame::be_bytes(peer[i])[0] && s[2 * i + 1] == frame::be_bytes(peer[i])[1]);
    assert(d[2 * i] == frame::be_bytes(local[i])[0] && d[2 * i + 1] == frame::be_bytes(
        local[i],
    )[1]);
    assert(b.subrange(0, 16)[2 * i] == b[2 * i]);
    assert(b.subrange(0, 16)[2 * i + 1] == b[2 * i + 1]);
    assert(b.subrange(16, 32)[2 * i] == b[16 + 2 * i]);
    assert(b.subrange(16, 32)[2 * i + 1] == b[16 + 2 * i + 1]);
    frame::higher_byte_comes_first(peer[i], b[64], b[65]);
    frame::higher_byte_comes_first(local[i], b[68], b[69]);
}

/// An answer holds the original destination: its address at 48, in four bytes or, if the family
/// at 80 is another than 2, in eight groups, and its port at 76, the higher byte of each first.
pub proof fn answer_is_read(b: Seq<u8>, i: int)
    requires
        b.len() == 96,
        0 <= i < 8,
    ensures
        ({
            let (address, port) = answer(b);
            &&& port == 256 * b[76] + b[77]
            &&& b[80] == 2 ==> address == IpView::V4(seq![b[48], b[49], b[50], b[51]])
            &&& b[80] != 2 ==> {
                &&& address matches IpView::V6(g)
                &&& g.len() == 8
                &&& g[i] == 256 * b[48 + 2 * i] + b[49 + 2 * i]
            }
        }),
{
    frame::higher_byte_comes_first(0, b[76], b[77]);
    frame::higher_byte_comes_first(0, b[48 + 2 * i], b[49 + 2 * i]);
    assert(b.subrange(48, 52) =~= seq![b[48], b[49], b[50], b[51]]);
    let c = b.subrange(48, 64);
    assert(c[2 * i] == b[48 + 2 * i]);
    assert(c[2 * i + 1] == b[49 + 2 * i]);
}

/// A connection is looked up as going out, then as coming in, and no more.
pub proof fn two_directions_are_tried(attempt: u8)
    ensures
        direction_at(0) == Some(2u8),
        direction_at(1) == Some(1u8),
        attempt >= 2 ==> direction_at(attempt) is None,
{
}

} // verus!
