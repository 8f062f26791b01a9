//! The payloads of the commands that carry text.
//!
//! * `TCP_CONNECT`: `family,host,port`, or `host,port` from older peers
//! * `UDP_OPEN`: `family`
//! * `UDP_DATA`: `host,port,` and the raw bytes of the datagram
//! * `HOST_LIST`: lines of the form `name,address`

use vstd::prelude::*;
use vstd::slice::slice_subrange;
use vstd::utf8::encode_utf8;

use crate::decimal::{
    digits, is_digit, lemma_digits, lemma_digits_free, lemma_parse_digits,
    other_text_is_no_number, parse_unsigned, push_decimal, read_u16,
};
use crate::ssnet::frame::AF_INET;
use crate::split::{lemma_split_one, lemma_split_snoc, split};
use crate::text;
use crate::text::{
    bytes_of, decode, decoded, find, find_byte, find_char, lemma_decoded_encode,
    lemma_encode_ascii, lemma_encode_concat, lemma_encode_free, lemma_find_after, lemma_trim_same,
    string_of, trim, trim_end, trimmed, trimmed_end, CharClass,
};

verus! {

// --- TCP_CONNECT ------------------------------------------------------------

/// Where a stream is to be connected to.
#[derive(Debug, Clone)]
pub struct ConnectTarget {
    /// The socket family that the peer names; `None` in the two part form.
    pub family: Option<u16>,
    pub host: String,
    pub port: u16,
}

/// What a `ConnectTarget` says.
#[verifier::ext_equal]
pub struct ConnectView {
    pub family: Option<u16>,
    pub host: Seq<char>,
    pub port: u16,
}

impl View for ConnectTarget {
    type V = ConnectView;

    open spec fn view(&self) -> ConnectView {
        ConnectView { family: self.family, host: self.host@, port: self.port }
    }
}

/// Why a `TCP_CONNECT` payload is not accepted.
#[derive(Debug)]
pub enum ConnectError {
    /// It is not UTF-8.
    NotUtf8,
    /// It has fewer than two parts; the text that was cut into parts.
    BadShape(String),
    /// The family is not a 16 bit number.
    BadFamily,
    /// The port is not a 16 bit number.
    BadPort,
}

/// What a `ConnectError` says.
#[verifier::ext_equal]
pub enum ConnectErrorView {
    NotUtf8,
    BadShape(Seq<char>),
    BadFamily,
    BadPort,
}

impl View for ConnectError {
    type V = ConnectErrorView;

    open spec fn view(&self) -> ConnectErrorView {
        match self {
            ConnectError::NotUtf8 => ConnectErrorView::NotUtf8,
            ConnectError::BadShape(s) => ConnectErrorView::BadShape(s@),
            ConnectError::BadFamily => ConnectErrorView::BadFamily,
            ConnectError::BadPort => ConnectErrorView::BadPort,
        }
    }
}

/// A 16 bit number in decimal.
pub open spec fn number16(s: Seq<char>) -> Option<u16> {
    match parse_unsigned(s, u16::MAX as nat) {
        Some(n) => Some(n as u16),
        None => None,
    }
}

/// What is left of a `TCP_CONNECT` text without the NULs at its end, and without
/// the white space then at either end.
pub open spec fn connect_text(s: Seq<char>) -> Seq<char> {
    trim(trim_end(s, CharClass::Nul))
}

/// The target that the text `s` names: cut at its first two commas it has three
/// parts, family, host and port, or only the last two of them.
pub open spec fn connect_target(s: Seq<char>) -> Result<ConnectView, ConnectErrorView> {
    match find(s, ',') {
        None => Err(ConnectErrorView::BadShape(s)),
        Some(i) => {
            let first = s.take(i);
            let rest = s.skip(i + 1);
            match find(rest, ',') {
                None => match number16(rest) {
                    Some(port) => Ok(ConnectView { family: None, host: first, port }),
                    None => Err(ConnectErrorView::BadPort),
                },
                Some(j) => match (number16(first), number16(rest.skip(j + 1))) {
                    (Some(family), Some(port)) => Ok(
                        ConnectView { family: Some(family), host: rest.take(j), port },
                    ),
                    (None, _) => Err(ConnectErrorView::BadFamily),
                    (_, None) => Err(ConnectErrorView::BadPort),
                },
            }
        },
    }
}

/// The target that a `TCP_CONNECT` payload names.
pub open spec fn connect_payload(payload: Seq<u8>) -> Result<ConnectView, ConnectErrorView> {
    match decoded(payload) {
        None => Err(ConnectErrorView::NotUtf8),
        Some(s) => connect_target(connect_text(s)),
    }
}

/// Reads a `TCP_CONNECT` payload.
pub fn parse_connect(payload: &[u8]) -> (r: Result<ConnectTarget, ConnectError>)
    ensures
        match r {
            Ok(t) => connect_payload(payload@) == Ok::<ConnectView, ConnectErrorView>(t@),
            Err(e) => connect_payload(payload@) == Err::<ConnectView, ConnectErrorView>(e@),
        },
{
    let all: Vec<char> = match decode(payload) {
        Some(v) => v,
        None => {
            return Err(ConnectError::NotUtf8);
        },
    };
    let s: &[char] = trimmed(trimmed_end(all.as_slice(), CharClass::Nul));
    let n: usize = s.len();
    let i: usize = match find_char(s, ',') {
        Some(i) => i,
        None => {
            return Err(ConnectError::BadShape(string_of(s)));
        },
    };
    let first: &[char] = slice_subrange(s, 0, i);
    let rest: &[char] = slice_subrange(s, i + 1, n);
    assert(first@ =~= s@.take(i as int));
    assert(rest@ =~= s@.skip(i + 1));
    match find_char(rest, ',') {
        None => match read_u16(rest) {
            Some(port) => Ok(ConnectTarget { family: None, host: string_of(first), port }),
            None => Err(ConnectError::BadPort),
        },
        Some(j) => {
            let m: usize = rest.len();
            let host: &[char] = slice_subrange(rest, 0, j);
            let tail: &[char] = slice_subrange(rest, j + 1, m);
            assert(host@ =~= rest@.take(j as int));
            assert(tail@ =~= rest@.skip(j + 1));
            match read_u16(first) {
                None => Err(ConnectError::BadFamily),
                Some(family) => match read_u16(tail) {
                    None => Err(ConnectError::BadPort),
                    Some(port) => Ok(
                        ConnectTarget { family: Some(family), host: string_of(host), port },
                    ),
                },
            }
        },
    }
}

/// The text of a `TCP_CONNECT` payload.
pub open spec fn connect_line(family: u16, host: Seq<char>, port: u16) -> Seq<char> {
    digits(family as nat) + seq![','] + host + seq![','] + digits(port as nat)
}

/// Writes a `TCP_CONNECT` payload.
pub fn encode_connect(family: u16, host: &str, port: u16) -> (r: Vec<u8>)
    ensures
        r@ == encode_utf8(connect_line(family, host@, port)),
{
    let mut s: String = String::new();
    push_decimal(&mut s, family as u64);
    s.push(',');
    s.append(host);
    s.push(',');
    push_decimal(&mut s, port as u64);
    assert(s@ =~= connect_line(family, host@, port));
    bytes_of(s.as_str())
}

/// A `TCP_CONNECT` payload that was written for a host without a comma reads as
/// the family, host and port that it was written for.
pub proof fn connect_reads_back(family: u16, host: Seq<char>, port: u16)
    requires
        !host.contains(','),
    ensures
        connect_payload(encode_utf8(connect_line(family, host, port))) == Ok::<
            ConnectView,
            ConnectErrorView,
        >(ConnectView { family: Some(family), host, port }),
{
    let f = digits(family as nat);
    let p = digits(port as nat);
    let s = connect_line(family, host, port);
    lemma_decoded_encode(s);
    lemma_digits(family as nat);
    lemma_digits(port as nat);
    assert(is_digit(f[0]));
    assert(is_digit(p.last()));
    assert(s[0] == f[0]);
    assert(s.last() == p.last());
    assert(trim_end(s, CharClass::Nul) == s);
    lemma_trim_same(s);
    let rest = host + seq![','] + p;
    assert(s =~= f + seq![','] + rest);
    lemma_digits_free(family as nat, ',');
    lemma_find_after(f, ',', rest);
    lemma_find_after(host, ',', p);
    lemma_parse_digits(family as nat, u16::MAX as nat);
    lemma_parse_digits(port as nat, u16::MAX as nat);
}

// --- UDP_OPEN ---------------------------------------------------------------

/// The family that a `UDP_OPEN` payload names, IPv4 where it names none.
pub open spec fn udp_family(payload: Seq<u8>) -> u16 {
    match decoded(payload) {
        Some(s) => match number16(trim(s)) {
            Some(n) => n,
            None => AF_INET,
        },
        None => AF_INET,
    }
}

/// Reads a `UDP_OPEN` payload.
pub fn parse_udp_open(payload: &[u8]) -> (r: u16)
    ensures
        r == udp_family(payload@),
{
    match decode(payload) {
        Some(v) => match read_u16(trimmed(v.as_slice())) {
            Some(n) => n,
            None => AF_INET,
        },
        None => AF_INET,
    }
}

// --- UDP_DATA ---------------------------------------------------------------

/// Why a `UDP_DATA` payload is not accepted.
#[derive(Clone, Copy, Debug, PartialEq, Eq, Structural)]
pub enum UdpDataError {
    /// It has fewer than two commas.
    Commas,
    /// The host is not UTF-8.
    HostNotUtf8,
    /// The port is not UTF-8.
    PortNotUtf8,
    /// The port is not a 16 bit number.
    BadPort,
}

/// The host, the port and the datagram of a `UDP_DATA` payload: what stands before
/// its first comma, between the first two, and after the second.
pub open spec fn udp_data(payload: Seq<u8>) -> Result<(Seq<char>, u16, Seq<u8>), UdpDataError> {
    match find(payload, 0x2c) {
        None => Err(UdpDataError::Commas),
        Some(i) => {
            let rest = payload.skip(i + 1);
            match find(rest, 0x2c) {
                None => Err(UdpDataError::Commas),
                Some(j) => match (decoded(payload.take(i)), decoded(rest.take(j))) {
                    (None, _) => Err(UdpDataError::HostNotUtf8),
                    (_, None) => Err(UdpDataError::PortNotUtf8),
                    (Some(host), Some(p)) => match number16(p) {
                        None => Err(UdpDataError::BadPort),
                        Some(port) => Ok((host, port, rest.skip(j + 1))),
                    },
                },
            }
        },
    }
}

/// Reads a `UDP_DATA` payload.
pub fn parse_udp_data(payload: &[u8]) -> (r: Result<(String, u16, &[u8]), UdpDataError>)
    ensures
        match r {
            Ok((host, port, body)) => udp_data(payload@) == Ok::<
                (Seq<char>, u16, Seq<u8>),
                UdpDataError,
            >((host@, port, body@)),
            Err(e) => udp_data(payload@) == Err::<(Seq<char>, u16, Seq<u8>), UdpDataError>(e),
        },
{
    let n: usize = payload.len();
    let i: usize = match find_byte(payload, 0x2c) {
        Some(i) => i,
        None => {
            return Err(UdpDataError::Commas);
        },
    };
    let head: &[u8] = slice_subrange(payload, 0, i);
    let rest: &[u8] = slice_subrange(payload, i + 1, n);
    assert(head@ =~= payload@.take(i as int));
    assert(rest@ =~= payload@.skip(i + 1));
    let m: usize = rest.len();
    let j: usize = match find_byte(rest, 0x2c) {
        Some(j) => j,
        None => {
            return Err(UdpDataError::Commas);
        },
    };
    let mid: &[u8] = slice_subrange(rest, 0, j);
    let body: &[u8] = slice_subrange(rest, j + 1, m);
    assert(mid@ =~= rest@.take(j as int));
    assert(body@ =~= rest@.skip(j + 1));
    let host: Vec<char> = match decode(head) {
        Some(v) => v,
        None => {
            return Err(UdpDataError::HostNotUtf8);
        },
    };
    let port: Vec<char> = match decode(mid) {
        Some(v) => v,
        None => {
            return Err(UdpDataError::PortNotUtf8);
        },
    };
    match read_u16(port.as_slice()) {
        Some(p) => Ok((string_of(host.as_slice()), p, body)),
        None => Err(UdpDataError::BadPort),
    }
}

/// The text before the datagram in a `UDP_DATA` payload.
pub open spec fn udp_prefix(host: Seq<char>, port: u16) -> Seq<char> {
    host + seq![','] + digits(port as nat) + seq![',']
}

/// Writes a `UDP_DATA` payload.
pub fn encode_udp_data(peer_ip: &str, peer_port: u16, body: &[u8]) -> (r: Vec<u8>)
    ensures
        r@ == encode_utf8(udp_prefix(peer_ip@, peer_port)) + body@,
{
    let mut s: String = String::new();
    s.append(peer_ip);
    s.push(',');
    push_decimal(&mut s, peer_port as u64);
    s.push(',');
    assert(s@ =~= udp_prefix(peer_ip@, peer_port));
    let mut out: Vec<u8> = bytes_of(s.as_str());
    out.extend_from_slice(body);
    assert(out@ =~= encode_utf8(udp_prefix(peer_ip@, peer_port)) + body@);
    out
}

/// A `UDP_DATA` payload that was written for a host without a comma reads as the
/// host, port and datagram that it was written for, whatever the datagram holds.
pub proof fn udp_data_reads_back(host: Seq<char>, port: u16, body: Seq<u8>)
    requires
        !host.contains(','),
    ensures
        udp_data(encode_utf8(udp_prefix(host, port)) + body) == Ok::<
            (Seq<char>, u16, Seq<u8>),
            UdpDataError,
        >((host, port, body)),
{
    let h = encode_utf8(host);
    let d = digits(port as nat);
    let p = encode_utf8(d);
    let c = seq![0x2cu8];
    let payload = encode_utf8(udp_prefix(host, port)) + body;
    lemma_encode_ascii(',');
    lemma_encode_concat(host + seq![','] + d, seq![',']);
    lemma_encode_concat(host + seq![','], d);
    lemma_encode_concat(host, seq![',']);
    let rest = p + c + body;
    assert(payload =~= h + c + rest);
    lemma_encode_free(host, ',');
    lemma_digits_free(port as nat, ',');
    lemma_encode_free(d, ',');
    lemma_find_after(h, 0x2c, rest);
    lemma_find_after(p, 0x2c, body);
    lemma_decoded_encode(host);
    lemma_decoded_encode(d);
    lemma_parse_digits(port as nat, u16::MAX as nat);
}

// --- HOST_LIST --------------------------------------------------------------

/// The names and addresses of a list of hosts.
pub open spec fn host_views(v: Seq<(String, String)>) -> Seq<(Seq<char>, Seq<char>)> {
    Seq::new(v.len(), |i: int| (v[i].0@, v[i].1@))
}

/// One line of a `HOST_LIST` payload.
pub open spec fn host_line(name: Seq<char>, ip: Seq<char>) -> Seq<u8> {
    encode_utf8(name) + seq![0x2cu8] + encode_utf8(ip)
}

/// A `HOST_LIST` payload: the lines of all hosts with a line feed between each two.
pub open spec fn host_list(hosts: Seq<(Seq<char>, Seq<char>)>) -> Seq<u8>
    decreases hosts.len(),
{
    if hosts.len() == 0 {
        seq![]
    } else if hosts.len() == 1 {
        host_line(hosts[0].0, hosts[0].1)
    } else {
        host_list(hosts.drop_last()) + seq![0x0au8] + host_line(hosts.last().0, hosts.last().1)
    }
}

/// Writes a `HOST_LIST` payload.
pub fn encode_host_list(entries: &[(String, String)]) -> (r: Vec<u8>)
    ensures
        r@ == host_list(host_views(entries@)),
{
    let mut out: Vec<u8> = Vec::new();
    let mut i: usize = 0;
    while i < entries.len()
        invariant
            i <= entries@.len(),
            out@ == host_list(host_views(entries@).take(i as int)),
        decreases entries.len() - i,
    {
        let ghost before = host_views(entries@).take(i as int);
        let ghost after = host_views(entries@).take(i + 1);
        let ghost start = out@;
        assert(after.drop_last() =~= before);
        if i > 0 {
            out.push(0x0a);
        }
        let name: Vec<u8> = bytes_of(entries[i].0.as_str());
        let ip: Vec<u8> = bytes_of(entries[i].1.as_str());
        out.extend_from_slice(name.as_slice());
        out.push(0x2c);
        out.extend_from_slice(ip.as_slice());
        let ghost line = host_line(after.last().0, after.last().1);
        if i > 0 {
            assert(out@ =~= start + seq![0x0au8] + line);
        } else {
            assert(out@ =~= line);
        }
        i += 1;
    }
    assert(host_views(entries@).take(entries@.len() as int) =~= host_views(entries@));
    out
}

/// The lines of a list of hosts.
pub open spec fn host_lines(hosts: Seq<(Seq<char>, Seq<char>)>) -> Seq<Seq<u8>> {
    Seq::new(hosts.len(), |i: int| host_line(hosts[i].0, hosts[i].1))
}

/// No name and no address holds a line feed.
pub open spec fn hosts_on_one_line(hosts: Seq<(Seq<char>, Seq<char>)>) -> bool {
    forall|i: int|
        0 <= i < hosts.len() ==> !(#[trigger] hosts[i]).0.contains('\n') && !hosts[i].1.contains(
            '\n',
        )
}

/// Cut at its line feeds, the payload for one or more hosts gives one line for each
/// host, in order, if no name and no address holds a line feed.
pub proof fn host_list_cuts_into_lines(hosts: Seq<(Seq<char>, Seq<char>)>)
    requires
        hosts.len() > 0,
        hosts_on_one_line(hosts),
    ensures
        split(host_list(hosts), 0x0a) == host_lines(hosts),
    decreases hosts.len(),
{
    let name = hosts.last().0;
    let ip = hosts.last().1;
    let line = host_line(name, ip);
    lemma_encode_free(name, '\n');
    lemma_encode_free(ip, '\n');
    assert(!line.contains(0x0a)) by {
        assert forall|j: int| 0 <= j < line.len() implies line[j] != 0x0a by {
            let n = encode_utf8(name);
            let a = encode_utf8(ip);
            if j < n.len() {
                assert(n.contains(n[j]));
            } else if j > n.len() {
                assert(a.contains(a[j - n.len() - 1]));
            }
        }
    }
    if hosts.len() == 1 {
        lemma_split_one(line, 0x0a);
        assert(host_lines(hosts) =~= seq![line]);
    } else {
        host_list_cuts_into_lines(hosts.drop_last());
        lemma_split_snoc(host_list(hosts.drop_last()), 0x0a, line);
        assert(host_lines(hosts) =~= host_lines(hosts.drop_last()).push(line));
    }
}

// --- laws of the layouts ----------------------------------------------------

/// A `TCP_CONNECT` payload is the family, the host and the port, with a comma between each
/// two.
pub proof fn connect_is_laid_out(family: u16, host: Seq<char>, port: u16)
    ensures
        encode_utf8(connect_line(family, host, port)) == encode_utf8(digits(family as nat))
            + seq![0x2cu8] + encode_utf8(host) + seq![0x2cu8] + encode_utf8(digits(port as nat)),
{
    let f = digits(family as nat);
    let p = digits(port as nat);
    let c = seq![','];
    lemma_encode_ascii(',');
    lemma_encode_concat(f, c);
    lemma_encode_concat(f + c, host);
    lemma_encode_concat(f + c + host, c);
    lemma_encode_concat(f + c + host + c, p);
}

/// A `UDP_DATA` payload is the host, the port and the datagram, with a comma between each
/// two.
pub proof fn udp_data_is_laid_out(host: Seq<char>, port: u16)
    ensures
        encode_utf8(udp_prefix(host, port)) == encode_utf8(host) + seq![0x2cu8] + encode_utf8(
            digits(port as nat),
        ) + seq![0x2cu8],
{
    let p = digits(port as nat);
    let c = seq![','];
    lemma_encode_ascii(',');
    lemma_encode_concat(host, c);
    lemma_encode_concat(host + c, p);
    lemma_encode_concat(host + c + p, c);
}

/// A `TCP_CONNECT` payload of an older peer, which names no family, reads as its host and
/// port.
pub proof fn old_connect_reads_back(host: Seq<char>, port: u16)
    requires
        !host.contains(','),
        host.len() > 0 ==> !text::is_white(host[0]),
    ensures
        connect_payload(encode_utf8(host + seq![','] + digits(port as nat))) == Ok::<
            ConnectView,
            ConnectErrorView,
        >(ConnectView { family: None, host, port }),
{
    let p = digits(port as nat);
    let s = host + seq![','] + p;
    lemma_decoded_encode(s);
    lemma_digits(port as nat);
    assert(is_digit(p.last()));
    assert(s.last() == p.last());
    assert(trim_end(s, CharClass::Nul) == s);
    assert(s[0] == if host.len() > 0 {
        host[0]
    } else {
        ','
    });
    lemma_trim_same(s);
    lemma_find_after(host, ',', p);
    lemma_digits_free(port as nat, ',');
    assert forall|j: int| 0 <= j < p.len() implies p[j] != ',' by {
        assert(p.contains(p[j]));
    }
    text::lemma_find_none(p, ',');
    lemma_parse_digits(port as nat, u16::MAX as nat);
}

/// White space around the text of a `TCP_CONNECT` payload makes no difference, and neither do
/// NULs behind it.
pub proof fn padding_of_a_target_is_ignored(
    before: Seq<char>,
    s: Seq<char>,
    after: Seq<char>,
    nuls: Seq<char>,
)
    requires
        text::all_white(before),
        text::all_white(after),
        forall|i: int| 0 <= i < nuls.len() ==> #[trigger] nuls[i] == '\0',
        s.len() > 0,
        !text::is_white(s[0]),
        !text::is_white(s.last()),
        s.last() != '\0',
    ensures
        connect_payload(encode_utf8(before + s + after + nuls)) == connect_payload(encode_utf8(s)),
{
    let t = before + s + after;
    lemma_decoded_encode(s);
    lemma_decoded_encode(t + nuls);
    assert forall|i: int| 0 <= i < nuls.len() implies text::in_class(
        CharClass::Nul,
        #[trigger] nuls[i],
    ) by {}
    text::lemma_trim_end_pad(t, nuls, CharClass::Nul);
    assert(t.last() != '\0') by {
        if after.len() > 0 {
            assert(t.last() == after[after.len() - 1]);
            assert(text::is_white(after[after.len() - 1]));
        } else {
            assert(t.last() == s.last());
        }
    }
    assert(trim_end(t, CharClass::Nul) == t);
    assert(trim_end(s, CharClass::Nul) == s);
    text::white_space_around_is_trimmed(before, s, after);
    lemma_trim_same(s);
}

/// A text without a comma, or with a port or a family that is no 16 bit number, is no target;
/// neither is what is not UTF-8.
pub proof fn bad_target_is_not_read(family: Seq<char>, host: Seq<char>, port: Seq<char>, b: Seq<u8>)
    requires
        !family.contains(','),
        !host.contains(','),
        !port.contains(','),
    ensures
        connect_target(host) == Err::<ConnectView, ConnectErrorView>(
            ConnectErrorView::BadShape(host),
        ),
        number16(port) is None ==> connect_target(host + seq![','] + port) == Err::<
            ConnectView,
            ConnectErrorView,
        >(ConnectErrorView::BadPort),
        number16(family) is None ==> connect_target(
            family + seq![','] + (host + seq![','] + port),
        ) == Err::<ConnectView, ConnectErrorView>(ConnectErrorView::BadFamily),
        number16(family) is Some && number16(port) is None ==> connect_target(
            family + seq![','] + (host + seq![','] + port),
        ) == Err::<ConnectView, ConnectErrorView>(ConnectErrorView::BadPort),
        decoded(b) is None ==> connect_payload(b) == Err::<ConnectView, ConnectErrorView>(
            ConnectErrorView::NotUtf8,
        ),
{
    lemma_find_after(host, ',', port);
    lemma_find_after(family, ',', host + seq![','] + port);
    assert forall|j: int| 0 <= j < host.len() implies host[j] != ',' by {
        assert(host.contains(host[j]));
    }
    assert forall|j: int| 0 <= j < port.len() implies port[j] != ',' by {
        assert(port.contains(port[j]));
    }
    text::lemma_find_none(host, ',');
    text::lemma_find_none(port, ',');
}

/// A 16 bit number is read from its digits, and nothing greater is one.
pub proof fn sixteen_bits(n: nat)
    ensures
        number16(digits(n)) == if n <= 65535 {
            Some(n as u16)
        } else {
            None
        },
{
    if n <= 65535 {
        lemma_parse_digits(n, u16::MAX as nat);
    } else {
        other_text_is_no_number(n, u16::MAX as nat, seq![], 0);
    }
}

/// A `UDP_OPEN` payload with a number names that family, with whatever white space around the
/// number; one that holds no number, or is not UTF-8, names the family 2.
pub proof fn family_is_read(before: Seq<char>, n: u16, after: Seq<char>, s: Seq<char>, b: Seq<u8>)
    requires
        text::all_white(before),
        text::all_white(after),
    ensures
        udp_family(encode_utf8(before + digits(n as nat) + after)) == n,
        number16(trim(s)) is None ==> udp_family(encode_utf8(s)) == 2,
        decoded(b) is None ==> udp_family(b) == 2,
{
    let d = digits(n as nat);
    lemma_decoded_encode(before + d + after);
    lemma_decoded_encode(s);
    lemma_digits(n as nat);
    assert(is_digit(d[0]) && is_digit(d.last()));
    text::white_space_around_is_trimmed(before, d, after);
    lemma_parse_digits(n as nat, u16::MAX as nat);
}

/// What has no comma, or only one, is no `UDP_DATA` payload, and neither is one whose port is
/// no 16 bit number.
pub proof fn bad_datagram_is_not_read(
    a: Seq<u8>,
    rest: Seq<u8>,
    host: Seq<char>,
    port: Seq<char>,
)
    requires
        !a.contains(0x2c),
        !rest.contains(0x2c),
        !host.contains(','),
        !port.contains(','),
        number16(port) is None,
    ensures
        udp_data(a) == Err::<(Seq<char>, u16, Seq<u8>), UdpDataError>(UdpDataError::Commas),
        udp_data(a + seq![0x2cu8] + rest) == Err::<(Seq<char>, u16, Seq<u8>), UdpDataError>(
            UdpDataError::Commas,
        ),
        udp_data(
            encode_utf8(host) + seq![0x2cu8] + (encode_utf8(port) + seq![0x2cu8] + rest),
        ) == Err::<(Seq<char>, u16, Seq<u8>), UdpDataError>(UdpDataError::BadPort),
{
    assert forall|j: int| 0 <= j < a.len() implies a[j] != 0x2c by {
        assert(a.contains(a[j]));
    }
    assert forall|j: int| 0 <= j < rest.len() implies rest[j] != 0x2c by {
        assert(rest.contains(rest[j]));
    }
    text::lemma_find_none(a, 0x2c);
    text::lemma_find_none(rest, 0x2c);
    lemma_find_after(a, 0x2c, rest);
    let h = encode_utf8(host);
    let p = encode_utf8(port);
    lemma_encode_free(host, ',');
    lemma_encode_free(port, ',');
    lemma_find_after(p, 0x2c, rest);
    lemma_find_after(h, 0x2c, p + seq![0x2cu8] + rest);
    lemma_decoded_encode(host);
    lemma_decoded_encode(port);
}

/// A `HOST_LIST` payload has a line for each host: its name, a comma and its address; hosts
/// are added at the end, behind a line feed.
pub proof fn host_list_is_laid_out(
    hosts: Seq<(Seq<char>, Seq<char>)>,
    name: Seq<char>,
    ip: Seq<char>,
)
    ensures
        ({
            let line = encode_utf8(name) + seq![0x2cu8] + encode_utf8(ip);
            &&& host_list(seq![]) == Seq::<u8>::empty()
            &&& host_list(seq![(name, ip)]) == line
            &&& hosts.len() > 0 ==> host_list(hosts.push((name, ip))) == host_list(hosts)
                + seq![0x0au8] + line
        }),
{
    assert(hosts.push((name, ip)).drop_last() =~= hosts);
}

} // verus!
