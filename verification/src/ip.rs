//! IP addresses as text.

use vstd::prelude::*;
use vstd::slice::slice_subrange;

use crate::decimal::{
    all_digits, digit_value, digits, is_digit, lemma_digits, lemma_digits_free,
    lemma_digits_short, lemma_parse_digits, parse_digits, push_decimal, read_digits, value,
};
use crate::split::{
    lemma_split_cons, lemma_split_one, of_parts, parts_make_up_the_text, split, split_at_char,
};
use crate::text::{
    chars_of, find, find_char, find_sub, find_text, lemma_find_after, lemma_find_none, parts,
};

verus! {

/// An IP address: the four bytes of an IPv4 address, or the eight groups of an
/// IPv6 address.
#[derive(Clone, Copy, Debug, PartialEq, Eq)]
pub enum IpAddr {
    V4([u8; 4]),
    V6([u16; 8]),
}

/// What an IP address is, as mathematical values.
#[verifier::ext_equal]
pub enum IpView {
    V4(Seq<u8>),
    V6(Seq<u16>),
}

impl View for IpAddr {
    type V = IpView;

    open spec fn view(&self) -> IpView {
        match self {
            IpAddr::V4(a) => IpView::V4(a@),
            IpAddr::V6(a) => IpView::V6(a@),
        }
    }
}

// --- IPv4 -------------------------------------------------------------------

/// One byte of a dotted address: one to three digits without a leading zero.
pub open spec fn octet(s: Seq<char>) -> Option<nat> {
    if s.len() <= 3 && (s.len() > 1 ==> s[0] != '0') {
        parse_digits(s, 255)
    } else {
        None
    }
}

/// The address that a dotted text stands for: four bytes between three dots.
pub open spec fn ipv4(s: Seq<char>) -> Option<Seq<u8>> {
    let p = split(s, '.');
    if p.len() == 4 && octet(p[0]) is Some && octet(p[1]) is Some && octet(p[2]) is Some && octet(
        p[3],
    ) is Some {
        Some(
            seq![
                octet(p[0])->0 as u8,
                octet(p[1])->0 as u8,
                octet(p[2])->0 as u8,
                octet(p[3])->0 as u8,
            ],
        )
    } else {
        None
    }
}

fn read_octet(v: &[char]) -> (r: Option<u8>)
    ensures
        match r {
            Some(b) => octet(v@) == Some(b as nat),
            None => octet(v@) is None,
        },
{
    if v.len() > 3 || (v.len() > 1 && v[0] == '0') {
        return None;
    }
    match read_digits(v, 255) {
        Some(n) => Some(n as u8),
        None => None,
    }
}

/// Reads a dotted IPv4 address.
pub fn read_ipv4(v: &[char]) -> (r: Option<[u8; 4]>)
    ensures
        match r {
            Some(a) => ipv4(v@) == Some(a@),
            None => ipv4(v@) is None,
        },
{
    let p: Vec<&[char]> = split_at_char(v, '.');
    let ghost q = parts(p@);
    if p.len() != 4 {
        return None;
    }
    assert(q[0] == p@[0]@ && q[1] == p@[1]@ && q[2] == p@[2]@ && q[3] == p@[3]@);
    match (read_octet(p[0]), read_octet(p[1]), read_octet(p[2]), read_octet(p[3])) {
        (Some(a), Some(b), Some(c), Some(d)) => {
            let r: [u8; 4] = [a, b, c, d];
            assert(r@ =~= seq![a, b, c, d]);
            Some(r)
        },
        _ => None,
    }
}

/// The dotted text of four bytes.
pub open spec fn dotted(a: Seq<u8>) -> Seq<char> {
    digits(a[0] as nat) + seq!['.'] + digits(a[1] as nat) + seq!['.'] + digits(a[2] as nat)
        + seq!['.'] + digits(a[3] as nat)
}

/// The dotted text of an IPv4 address.
pub fn write_ipv4(a: [u8; 4]) -> (r: String)
    ensures
        r@ == dotted(a@),
{
    let mut s: String = String::new();
    push_decimal(&mut s, a[0] as u64);
    s.push('.');
    push_decimal(&mut s, a[1] as u64);
    s.push('.');
    push_decimal(&mut s, a[2] as u64);
    s.push('.');
    push_decimal(&mut s, a[3] as u64);
    assert(s@ =~= dotted(a@));
    s
}

// --- IPv6 -------------------------------------------------------------------

/// A hexadecimal digit, in either case.
pub open spec fn is_hex(c: char) -> bool {
    is_digit(c) || 'a' <= c <= 'f' || 'A' <= c <= 'F'
}

/// The number that a hexadecimal digit stands for.
pub open spec fn hex_value(c: char) -> nat {
    if is_digit(c) {
        (c as u32 - 48) as nat
    } else if 'a' <= c <= 'f' {
        (c as u32 - 87) as nat
    } else {
        (c as u32 - 55) as nat
    }
}

/// The number that a text of hexadecimal digits stands for.
pub open spec fn hex_number(s: Seq<char>) -> nat
    decreases s.len(),
{
    if s.len() == 0 {
        0
    } else {
        hex_number(s.drop_last()) * 16 + hex_value(s.last())
    }
}

/// One group of an IPv6 address: one to four hexadecimal digits.
pub open spec fn group(s: Seq<char>) -> Option<u16> {
    if 1 <= s.len() <= 4 && (forall|i: int| 0 <= i < s.len() ==> is_hex(#[trigger] s[i])) {
        Some(hex_number(s) as u16)
    } else {
        None
    }
}

/// The groups that the texts `p` stand for, if each stands for one.
pub open spec fn group_list(p: Seq<Seq<char>>) -> Option<Seq<u16>>
    decreases p.len(),
{
    if p.len() == 0 {
        Some(seq![])
    } else {
        match (group_list(p.drop_last()), group(p.last())) {
            (Some(a), Some(g)) => Some(a.push(g)),
            _ => None,
        }
    }
}

/// As `group_list`, but the last text may be a dotted IPv4 address, which stands
/// for two groups.
pub open spec fn group_list_v4(p: Seq<Seq<char>>) -> Option<Seq<u16>> {
    if p.len() > 0 && ipv4(p.last()) is Some {
        let a = ipv4(p.last())->0;
        match group_list(p.drop_last()) {
            Some(g) => Some(
                g.push((a[0] * 256 + a[1]) as u16).push((a[2] * 256 + a[3]) as u16),
            ),
            None => None,
        }
    } else {
        group_list(p)
    }
}

/// The texts between the colons of `s`; none if `s` is empty.
pub open spec fn colon_parts(s: Seq<char>) -> Seq<Seq<char>> {
    if s.len() == 0 {
        seq![]
    } else {
        split(s, ':')
    }
}

/// Two colons.
pub open spec fn gap() -> Seq<char> {
    seq![':', ':']
}

/// The address that a text stands for: eight groups between colons, where one
/// double colon may stand for one or more groups of zero, and where a dotted IPv4
/// address may stand for the last two groups.
pub open spec fn ipv6(s: Seq<char>) -> Option<Seq<u16>> {
    match find_text(s, gap()) {
        None => match group_list_v4(colon_parts(s)) {
            Some(g) => if g.len() == 8 {
                Some(g)
            } else {
                None
            },
            None => None,
        },
        Some(k) => match (
            group_list(colon_parts(s.take(k))),
            group_list_v4(colon_parts(s.skip(k + 2))),
        ) {
            (Some(h), Some(t)) => if h.len() + t.len() <= 7 {
                Some(h + Seq::new((8 - h.len() - t.len()) as nat, |i: int| 0u16) + t)
            } else {
                None
            },
            _ => None,
        },
    }
}

/// The address that a text stands for.
pub open spec fn ip(s: Seq<char>) -> Option<IpView> {
    if ipv4(s) is Some {
        Some(IpView::V4(ipv4(s)->0))
    } else if ipv6(s) is Some {
        Some(IpView::V6(ipv6(s)->0))
    } else {
        None
    }
}

fn read_hex(c: char) -> (r: Option<u16>)
    ensures
        match r {
            Some(d) => is_hex(c) && hex_value(c) == d && d < 16,
            None => !is_hex(c),
        },
{
    if c >= '0' && c <= '9' {
        Some((c as u32 - 48) as u16)
    } else if c >= 'a' && c <= 'f' {
        Some((c as u32 - 87) as u16)
    } else if c >= 'A' && c <= 'F' {
        Some((c as u32 - 55) as u16)
    } else {
        None
    }
}

fn read_group(v: &[char]) -> (r: Option<u16>)
    ensures
        r == group(v@),
{
    if v.len() == 0 || v.len() > 4 {
        return None;
    }
    let mut acc: u32 = 0;
    let mut i: usize = 0;
    while i < v.len()
        invariant
            1 <= v@.len() <= 4,
            i <= v@.len(),
            acc == hex_number(v@.take(i as int)),
            i == 0 ==> acc == 0,
            i == 1 ==> acc < 0x10,
            i == 2 ==> acc < 0x100,
            i == 3 ==> acc < 0x1000,
            i == 4 ==> acc < 0x10000,
            forall|j: int| 0 <= j < i ==> is_hex(#[trigger] v@[j]),
        decreases v.len() - i,
    {
        assert(v@.take(i + 1).drop_last() =~= v@.take(i as int));
        match read_hex(v[i]) {
            Some(d) => {
                acc = acc * 16 + d as u32;
            },
            None => {
                assert(!is_hex(v@[i as int]));
                return None;
            },
        }
        i += 1;
    }
    assert(v@.take(v@.len() as int) =~= v@);
    Some(acc as u16)
}

/// Reads the first `n` texts of `p` as groups.
fn read_groups(p: &Vec<&[char]>, n: usize) -> (r: Option<Vec<u16>>)
    requires
        n <= p@.len(),
    ensures
        match r {
            Some(g) => group_list(parts(p@).take(n as int)) == Some(g@),
            None => group_list(parts(p@).take(n as int)) is None,
        },
    decreases n,
{
    let ghost q = parts(p@).take(n as int);
    if n == 0 {
        return Some(Vec::new());
    }
    assert(q.drop_last() =~= parts(p@).take(n - 1));
    assert(q.last() == p@[n - 1]@);
    match (read_groups(p, n - 1), read_group(p[n - 1])) {
        (Some(mut a), Some(g)) => {
            a.push(g);
            Some(a)
        },
        _ => None,
    }
}

fn read_groups_v4(p: &Vec<&[char]>) -> (r: Option<Vec<u16>>)
    ensures
        match r {
            Some(g) => group_list_v4(parts(p@)) == Some(g@),
            None => group_list_v4(parts(p@)) is None,
        },
{
    let ghost q = parts(p@);
    let n: usize = p.len();
    if n > 0 {
        assert(q.last() == p@[n - 1]@);
        assert(q.drop_last() =~= q.take(n - 1));
        match read_ipv4(p[n - 1]) {
            Some(a) => {
                return match read_groups(p, n - 1) {
                    Some(mut g) => {
                        g.push(a[0] as u16 * 256 + a[1] as u16);
                        g.push(a[2] as u16 * 256 + a[3] as u16);
                        Some(g)
                    },
                    None => None,
                };
            },
            None => {},
        }
    }
    assert(q.take(n as int) =~= q);
    read_groups(p, n)
}

fn read_colon_parts<'a>(v: &'a [char]) -> (r: Vec<&'a [char]>)
    ensures
        parts(r@) == colon_parts(v@),
{
    if v.len() == 0 {
        let r: Vec<&'a [char]> = Vec::new();
        assert(parts(r@) =~= colon_parts(v@));
        r
    } else {
        split_at_char(v, ':')
    }
}

/// Reads an IPv6 address.
pub fn read_ipv6(v: &[char]) -> (r: Option<[u16; 8]>)
    ensures
        match r {
            Some(a) => ipv6(v@) == Some(a@),
            None => ipv6(v@) is None,
        },
{
    let pair: Vec<char> = vec![':', ':'];
    assert(pair@ =~= gap());
    let n: usize = v.len();
    match find_sub(v, pair.as_slice()) {
        None => match read_groups_v4(&read_colon_parts(v)) {
            Some(g) => {
                if g.len() == 8 {
                    let r: [u16; 8] = [g[0], g[1], g[2], g[3], g[4], g[5], g[6], g[7]];
                    assert(r@ =~= g@);
                    Some(r)
                } else {
                    None
                }
            },
            None => None,
        },
        Some(k) => {
            let head: &[char] = slice_subrange(v, 0, k);
            let tail: &[char] = slice_subrange(v, k + 2, n);
            assert(head@ =~= v@.take(k as int));
            assert(tail@ =~= v@.skip(k + 2));
            let hp: Vec<&[char]> = read_colon_parts(head);
            let tp: Vec<&[char]> = read_colon_parts(tail);
            assert(parts(hp@).take(hp@.len() as int) =~= parts(hp@));
            match (read_groups(&hp, hp.len()), read_groups_v4(&tp)) {
                (Some(h), Some(t)) => filled(&h, &t),
                _ => None,
            }
        },
    }
}

/// Puts as many zero groups between `h` and `t` as make eight in all, and at
/// least one.
fn filled(h: &Vec<u16>, t: &Vec<u16>) -> (r: Option<[u16; 8]>)
    ensures
        match r {
            Some(a) => h@.len() + t@.len() <= 7 && a@ == h@ + Seq::new(
                (8 - h@.len() - t@.len()) as nat,
                |i: int| 0u16,
            ) + t@,
            None => h@.len() + t@.len() > 7,
        },
{
    if h.len() > 7 || t.len() > 7 - h.len() {
        return None;
    }
    let mut r: [u16; 8] = [0, 0, 0, 0, 0, 0, 0, 0];
    let mut i: usize = 0;
    while i < h.len()
        invariant
            i <= h@.len() <= 7,
            forall|j: int| 0 <= j < i ==> r@[j] == h@[j],
            forall|j: int| i <= j < 8 ==> r@[j] == 0,
        decreases h.len() - i,
    {
        r[i] = h[i];
        i += 1;
    }
    let start: usize = 8 - t.len();
    let mut k: usize = 0;
    while k < t.len()
        invariant
            k <= t@.len(),
            h@.len() + t@.len() <= 7,
            start == 8 - t@.len(),
            forall|j: int| 0 <= j < h@.len() ==> r@[j] == h@[j],
            forall|j: int| h@.len() <= j < start ==> r@[j] == 0,
            forall|j: int| 0 <= j < k ==> r@[start + j] == t@[j],
        decreases t.len() - k,
    {
        r[start + k] = t[k];
        k += 1;
    }
    assert forall|j: int| start <= j < 8 implies r@[j] == t@[j - start] by {
        assert(r@[start + (j - start)] == t@[j - start]);
    }
    assert(r@ =~= h@ + Seq::new((8 - h@.len() - t@.len()) as nat, |i: int| 0u16) + t@);
    Some(r)
}

/// Reads an IP address of either family.
pub fn read_ip(v: &[char]) -> (r: Option<IpAddr>)
    ensures
        match r {
            Some(a) => ip(v@) == Some(a@),
            None => ip(v@) is None,
        },
{
    match read_ipv4(v) {
        Some(a) => Some(IpAddr::V4(a)),
        None => match read_ipv6(v) {
            Some(a) => Some(IpAddr::V6(a)),
            None => None,
        },
    }
}

// --- targets of datagrams ---------------------------------------------------

/// Where a datagram goes: an address and a port, and for IPv6 a scope.
#[derive(Clone, Copy, Debug, PartialEq, Eq)]
pub enum SocketTarget {
    V4 { octets: [u8; 4], port: u16 },
    V6 { groups: [u16; 8], scope: u32, port: u16 },
}

/// What a `SocketTarget` is, as mathematical values.
#[verifier::ext_equal]
pub enum TargetView {
    V4 { octets: Seq<u8>, port: u16 },
    V6 { groups: Seq<u16>, scope: u32, port: u16 },
}

impl View for SocketTarget {
    type V = TargetView;

    open spec fn view(&self) -> TargetView {
        match self {
            SocketTarget::V4 { octets, port } => TargetView::V4 { octets: octets@, port: *port },
            SocketTarget::V6 { groups, scope, port } => TargetView::V6 {
                groups: groups@,
                scope: *scope,
                port: *port,
            },
        }
    }
}

/// An IPv6 address and its scope: the number after a percent sign, zero if there is none.
pub open spec fn scoped_ipv6(s: Seq<char>) -> Option<(Seq<u16>, u32)> {
    match find(s, '%') {
        None => match ipv6(s) {
            Some(a) => Some((a, 0)),
            None => None,
        },
        Some(k) => match (ipv6(s.take(k)), parse_digits(s.skip(k + 1), u32::MAX as nat)) {
            (Some(a), Some(n)) => Some((a, n as u32)),
            _ => None,
        },
    }
}

/// The target that a host text and a port stand for: a dotted IPv4 address, or an
/// IPv6 address, perhaps with a scope, in square brackets.
pub open spec fn target(host: Seq<char>, port: u16) -> Option<TargetView> {
    if ipv4(host) is Some {
        Some(TargetView::V4 { octets: ipv4(host)->0, port })
    } else if host.len() >= 2 && host[0] == '[' && host.last() == ']' {
        match scoped_ipv6(host.subrange(1, host.len() - 1)) {
            Some((groups, scope)) => Some(TargetView::V6 { groups, scope, port }),
            None => None,
        }
    } else {
        None
    }
}

fn read_scoped_ipv6(v: &[char]) -> (r: Option<([u16; 8], u32)>)
    ensures
        match r {
            Some((a, n)) => scoped_ipv6(v@) == Some((a@, n)),
            None => scoped_ipv6(v@) is None,
        },
{
    let n: usize = v.len();
    match find_char(v, '%') {
        None => match read_ipv6(v) {
            Some(a) => Some((a, 0)),
            None => None,
        },
        Some(k) => {
            let head: &[char] = slice_subrange(v, 0, k);
            let tail: &[char] = slice_subrange(v, k + 1, n);
            assert(head@ =~= v@.take(k as int));
            assert(tail@ =~= v@.skip(k + 1));
            match (read_ipv6(head), read_digits(tail, u32::MAX as u64)) {
                (Some(a), Some(s)) => Some((a, s as u32)),
                _ => None,
            }
        },
    }
}

/// Reads the target of a datagram from a host text and a port.
pub fn read_target(host: &str, port: u16) -> (r: Option<SocketTarget>)
    ensures
        match r {
            Some(t) => target(host@, port) == Some(t@),
            None => target(host@, port) is None,
        },
{
    let v: Vec<char> = chars_of(host);
    match read_ipv4(v.as_slice()) {
        Some(octets) => {
            return Some(SocketTarget::V4 { octets, port });
        },
        None => {},
    }
    let n: usize = v.len();
    if n >= 2 && v[0] == '[' && v[n - 1] == ']' {
        match read_scoped_ipv6(slice_subrange(v.as_slice(), 1, n - 1)) {
            Some((groups, scope)) => Some(SocketTarget::V6 { groups, scope, port }),
            None => None,
        }
    } else {
        None
    }
}

// --- laws -------------------------------------------------------------------

proof fn lemma_octet(b: u8)
    ensures
        octet(digits(b as nat)) == Some(b as nat),
        !digits(b as nat).contains('.'),
{
    lemma_digits(b as nat);
    lemma_digits_short(b as nat);
    lemma_digits_free(b as nat, '.');
    lemma_parse_digits(b as nat, 255);
}

/// The dotted text of an IPv4 address reads as that address.
pub proof fn dotted_reads_back(a: Seq<u8>)
    requires
        a.len() == 4,
    ensures
        ipv4(dotted(a)) == Some(a),
{
    let d0 = digits(a[0] as nat);
    let d1 = digits(a[1] as nat);
    let d2 = digits(a[2] as nat);
    let d3 = digits(a[3] as nat);
    lemma_octet(a[0]);
    lemma_octet(a[1]);
    lemma_octet(a[2]);
    lemma_octet(a[3]);
    let t2 = d2 + seq!['.'] + d3;
    let t1 = d1 + seq!['.'] + t2;
    assert(dotted(a) =~= d0 + seq!['.'] + t1);
    lemma_split_one(d3, '.');
    lemma_split_cons(d2, '.', d3);
    lemma_split_cons(d1, '.', t2);
    lemma_split_cons(d0, '.', t1);
    assert(split(dotted(a), '.') =~= seq![d0, d1, d2, d3]);
    assert(ipv4(dotted(a))->0 =~= a);
}

proof fn lemma_digits_are(p: Seq<char>)
    requires
        p.len() > 0,
        all_digits(p),
        p.len() > 1 ==> p[0] != '0',
    ensures
        digits(value(p)) == p,
        p.len() > 1 ==> value(p) > 0,
    decreases p.len(),
{
    let rest = p.drop_last();
    let d = digit_value(p.last());
    assert(is_digit(p[p.len() - 1]));
    assert(is_digit(p[0]));
    if p.len() == 1 {
        assert(rest =~= seq![]);
        assert(value(rest) == 0);
        assert(digits(value(p)) =~= p);
    } else {
        assert forall|i: int| 0 <= i < rest.len() implies is_digit(#[trigger] rest[i]) by {
            assert(rest[i] == p[i]);
        }
        lemma_digits_are(rest);
        assert(value(rest) > 0) by {
            if rest.len() == 1 {
                assert(rest.drop_last() =~= seq![]);
                assert(value(rest.drop_last()) == 0);
            }
        }
        assert((value(rest) * 10 + d) / 10 == value(rest));
        assert((value(rest) * 10 + d) % 10 == d);
        assert(digits(value(p)) =~= p);
    }
}

proof fn lemma_octet_text(p: Seq<char>)
    requires
        octet(p) is Some,
    ensures
        octet(p)->0 <= 255,
        p == digits(octet(p)->0),
{
    lemma_digits_are(p);
}

/// A text is an IPv4 address just where it is the dotted text of that address: four numbers up
/// to 255 in decimal, without zeros before them, and nothing else.
pub proof fn ipv4_is_dotted(s: Seq<char>, a: Seq<u8>)
    ensures
        ipv4(s) == Some(a) <==> a.len() == 4 && s == digits(a[0] as nat) + seq!['.'] + digits(
            a[1] as nat,
        ) + seq!['.'] + digits(a[2] as nat) + seq!['.'] + digits(a[3] as nat),
{
    if a.len() == 4 {
        dotted_reads_back(a);
    }
    if ipv4(s) == Some(a) {
        let p = split(s, '.');
        parts_make_up_the_text(s, '.');
        lemma_octet_text(p[0]);
        lemma_octet_text(p[1]);
        lemma_octet_text(p[2]);
        lemma_octet_text(p[3]);
        let p1 = p.drop_first();
        let p2 = p1.drop_first();
        let p3 = p2.drop_first();
        assert(of_parts(p3, '.') == p[3]);
        assert(of_parts(p2, '.') == p[2] + seq!['.'] + p[3]);
        assert(of_parts(p1, '.') == p[1] + seq!['.'] + (p[2] + seq!['.'] + p[3]));
        assert(s =~= dotted(a));
    }
}

/// A hexadecimal digit counts what it stands for, in either case.
pub proof fn hexadecimal_digits_count(c: char)
    ensures
        is_hex(c) <==> '0' <= c <= '9' || 'a' <= c <= 'f' || 'A' <= c <= 'F',
        '0' <= c <= '9' ==> hex_value(c) == c as u32 - '0' as u32,
        'a' <= c <= 'f' ==> hex_value(c) == c as u32 - 'a' as u32 + 10,
        'A' <= c <= 'F' ==> hex_value(c) == c as u32 - 'A' as u32 + 10,
{
}

/// A group is one to four hexadecimal digits: each one counts sixteen times what the next one
/// does.
pub proof fn group_is_read(s: Seq<char>)
    ensures
        group(s) is Some <==> 1 <= s.len() <= 4 && forall|i: int|
            0 <= i < s.len() ==> is_hex(#[trigger] s[i]),
        group(s) is Some && s.len() == 1 ==> group(s)->0 == hex_value(s[0]),
        group(s) is Some && s.len() > 1 ==> group(s.drop_last()) is Some && group(s)->0 == 16
            * group(s.drop_last())->0 + hex_value(s.last()),
{
    if group(s) is Some {
        let rest = s.drop_last();
        assert(is_hex(s[s.len() - 1]));
        if s.len() == 1 {
            assert(rest =~= seq![]);
            assert(hex_number(rest) == 0);
        } else {
            assert forall|i: int| 0 <= i < rest.len() implies is_hex(#[trigger] rest[i]) by {
                assert(rest[i] == s[i]);
            }
            lemma_hex_bound(rest);
            lemma_hex_bound(s);
        }
    }
}

proof fn lemma_hex_bound(s: Seq<char>)
    requires
        s.len() <= 4,
        forall|i: int| 0 <= i < s.len() ==> is_hex(#[trigger] s[i]),
    ensures
        s.len() == 0 ==> hex_number(s) == 0,
        s.len() == 1 ==> hex_number(s) < 0x10,
        s.len() == 2 ==> hex_number(s) < 0x100,
        s.len() == 3 ==> hex_number(s) < 0x1000,
        s.len() == 4 ==> hex_number(s) < 0x10000,
    decreases s.len(),
{
    if s.len() > 0 {
        let rest = s.drop_last();
        assert(is_hex(s[s.len() - 1]));
        assert forall|i: int| 0 <= i < rest.len() implies is_hex(#[trigger] rest[i]) by {
            assert(rest[i] == s[i]);
        }
        lemma_hex_bound(rest);
    }
}

/// A datagram for a host that is the text of an IPv4 address goes there.
pub proof fn ipv4_target_is_read(a: Seq<u8>, port: u16)
    requires
        a.len() == 4,
    ensures
        target(dotted(a), port) == Some(TargetView::V4 { octets: a, port }),
{
    dotted_reads_back(a);
}

/// One for a host that is an IPv6 address goes there only if it stands in square brackets,
/// perhaps with a scope behind a percent sign.
pub proof fn ipv6_target_is_read(s: Seq<char>, a: Seq<u16>, scope: u32, port: u16)
    requires
        ipv6(s) == Some(a),
        ipv4(s) is None,
        s.len() > 0,
        s[0] != '[',
        !s.contains('%'),
    ensures
        target(seq!['['] + s + seq![']'], port) == Some(
            TargetView::V6 { groups: a, scope: 0, port },
        ),
        target(seq!['['] + s + seq!['%'] + digits(scope as nat) + seq![']'], port) == Some(
            TargetView::V6 { groups: a, scope, port },
        ),
        target(s, port) is None,
{
    let d = digits(scope as nat);
    let plain = seq!['['] + s + seq![']'];
    let inner = s + seq!['%'] + d;
    let scoped = seq!['['] + s + seq!['%'] + d + seq![']'];
    lemma_bracket_is_no_ipv4(plain);
    lemma_bracket_is_no_ipv4(scoped);
    assert(plain.subrange(1, plain.len() - 1) =~= s);
    assert(scoped.subrange(1, scoped.len() - 1) =~= inner);
    lemma_find_after(s, '%', d);
    assert forall|j: int| 0 <= j < s.len() implies s[j] != '%' by {
        assert(s.contains(s[j]));
    }
    lemma_find_none(s, '%');
    lemma_parse_digits(scope as nat, u32::MAX as nat);
}

proof fn lemma_bracket_is_no_ipv4(s: Seq<char>)
    requires
        s.len() > 0,
        s[0] == '[',
    ensures
        ipv4(s) is None,
{
    if ipv4(s) is Some {
        let a = ipv4(s)->0;
        ipv4_is_dotted(s, a);
        lemma_digits(a[0] as nat);
        assert(s[0] == digits(a[0] as nat)[0]);
        assert(is_digit(digits(a[0] as nat)[0]));
    }
}

/// A host that is neither the text of an IPv4 address nor something in square brackets is no
/// target, and neither is one with anything else in the brackets than an IPv6 address, nor with
/// anything else than a 32 bit number behind the percent sign.
pub proof fn other_host_is_no_target(host: Seq<char>, s: Seq<char>, scope: Seq<char>, port: u16)
    requires
        !s.contains('%'),
    ensures
        ipv4(host) is None && (host.len() < 2 || host[0] != '[' || host.last() != ']') ==> target(
            host,
            port,
        ) is None,
        ipv6(s) is None ==> target(seq!['['] + s + seq![']'], port) is None,
        ipv6(s) is None || parse_digits(scope, u32::MAX as nat) is None ==> target(
            seq!['['] + s + seq!['%'] + scope + seq![']'],
            port,
        ) is None,
{
    let plain = seq!['['] + s + seq![']'];
    let inner = s + seq!['%'] + scope;
    let scoped = seq!['['] + s + seq!['%'] + scope + seq![']'];
    lemma_bracket_is_no_ipv4(plain);
    lemma_bracket_is_no_ipv4(scoped);
    assert(plain.subrange(1, plain.len() - 1) =~= s);
    assert(scoped.subrange(1, scoped.len() - 1) =~= inner);
    lemma_find_after(s, '%', scope);
    assert forall|j: int| 0 <= j < s.len() implies s[j] != '%' by {
        assert(s.contains(s[j]));
    }
    lemma_find_none(s, '%');
}

} // verus!
