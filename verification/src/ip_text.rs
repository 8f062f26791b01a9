//! IP addresses written as text.

use vstd::prelude::*;

use crate::decimal;
use crate::ip;
use crate::ip::{write_ipv4, IpAddr, IpView};
use crate::split;
use crate::text;

verus! {

/// A number in hexadecimal, in lower case and without leading zeros.
pub open spec fn hex(n: nat) -> Seq<char>
    decreases n,
{
    if n < 16 {
        seq![decimal::hex_char(n)]
    } else {
        hex(n / 16).push(decimal::hex_char(n % 16))
    }
}

/// Groups in hexadecimal with a colon between each two.
pub open spec fn joined(g: Seq<u16>) -> Seq<char>
    decreases g.len(),
{
    if g.len() == 0 {
        seq![]
    } else if g.len() == 1 {
        hex(g[0] as nat)
    } else {
        joined(g.drop_last()) + seq![':'] + hex(g.last() as nat)
    }
}

/// The number of zero groups in a row from `i` on.
pub open spec fn zero_run(g: Seq<u16>, i: int) -> nat
    decreases g.len() - i,
{
    if 0 <= i < g.len() && g[i] == 0 {
        zero_run(g, i + 1) + 1
    } else {
        0
    }
}

/// The first of the longest rows of zero groups that start before `n`: where it starts,
/// and how long it is.
pub open spec fn longest_run(g: Seq<u16>, n: int) -> (int, nat)
    decreases n,
{
    if n <= 0 {
        (0, 0)
    } else if zero_run(g, n - 1) > longest_run(g, n - 1).1 {
        (n - 1, zero_run(g, n - 1))
    } else {
        longest_run(g, n - 1)
    }
}

/// The address stands for one of IPv4.
pub open spec fn is_mapped(g: Seq<u16>) -> bool {
    g[0] == 0 && g[1] == 0 && g[2] == 0 && g[3] == 0 && g[4] == 0 && g[5] == 0xffff
}

/// The IPv4 address in the last two groups.
pub open spec fn low_octets(g: Seq<u16>) -> Seq<u8> {
    seq![(g[6] / 256) as u8, (g[6] % 256) as u8, (g[7] / 256) as u8, (g[7] % 256) as u8]
}

/// The text of an IPv6 address. A double colon stands for the first of the longest rows
/// of zero groups, if it has more than one group; an address that stands for one of
/// IPv4 shows it.
pub open spec fn ipv6_text(g: Seq<u16>) -> Seq<char> {
    let (start, len) = longest_run(g, 8);
    if is_mapped(g) {
        seq![':', ':', 'f', 'f', 'f', 'f', ':'] + ip::dotted(low_octets(g))
    } else if len > 1 {
        joined(g.take(start)) + seq![':', ':'] + joined(g.skip(start + len))
    } else {
        joined(g)
    }
}

/// The text of an IP address.
pub open spec fn ip_text(a: IpView) -> Seq<char> {
    match a {
        IpView::V4(o) => ip::dotted(o),
        IpView::V6(g) => ipv6_text(g),
    }
}

fn push_hex_digit(s: &mut String, d: u16)
    requires
        d < 16,
    ensures
        final(s)@ == old(s)@.push(decimal::hex_char(d as nat)),
{
    let c: char = if d < 10 {
        (48 + d as u8) as char
    } else {
        (87 + d as u8) as char
    };
    s.push(c);
}

/// Appends `n` in hexadecimal.
fn push_hex_number(s: &mut String, n: u16)
    ensures
        final(s)@ == old(s)@ + hex(n as nat),
    decreases n,
{
    if n >= 16 {
        push_hex_number(s, n / 16);
    }
    push_hex_digit(s, n % 16);
    assert(s@ =~= old(s)@ + hex(n as nat));
}

fn push_groups(s: &mut String, g: &[u16; 8], from: usize, to: usize)
    requires
        from <= to <= 8,
    ensures
        final(s)@ == old(s)@ + joined(g@.subrange(from as int, to as int)),
{
    let ghost start = s@;
    let mut i: usize = from;
    assert(start + joined(g@.subrange(from as int, from as int)) =~= start);
    while i < to
        invariant
            from <= i <= to <= 8,
            s@ == start + joined(g@.subrange(from as int, i as int)),
        decreases to - i,
    {
        let ghost before = g@.subrange(from as int, i as int);
        let ghost after = g@.subrange(from as int, i + 1);
        assert(after.drop_last() =~= before);
        if i > from {
            s.push(':');
        }
        push_hex_number(s, g[i]);
        assert(s@ =~= start + joined(after));
        i += 1;
    }
}

fn find_run(g: &[u16; 8]) -> (r: (usize, usize))
    ensures
        (r.0 as int, r.1 as nat) == longest_run(g@, 8),
        r.0 + r.1 <= 8,
{
    let mut best: (usize, usize) = (0, 0);
    let mut i: usize = 0;
    while i < 8
        invariant
            i <= 8,
            (best.0 as int, best.1 as nat) == longest_run(g@, i as int),
            best.0 + best.1 <= 8,
        decreases 8 - i,
    {
        let mut len: usize = 0;
        while i + len < 8 && g[i + len] == 0
            invariant
                i < 8,
                i + len <= 8,
                zero_run(g@, i as int) == len + zero_run(g@, i + len),
            decreases 8 - len,
        {
            len += 1;
        }
        if len > best.1 {
            best = (i, len);
        }
        i += 1;
    }
    best
}

/// The text of an IPv6 address.
pub fn write_ipv6(g: [u16; 8]) -> (r: String)
    ensures
        r@ == ipv6_text(g@),
{
    let mut s: String = String::new();
    if g[0] == 0 && g[1] == 0 && g[2] == 0 && g[3] == 0 && g[4] == 0 && g[5] == 0xffff {
        s.push(':');
        s.push(':');
        s.push('f');
        s.push('f');
        s.push('f');
        s.push('f');
        s.push(':');
        let o: [u8; 4] = [
            (g[6] / 256) as u8,
            (g[6] % 256) as u8,
            (g[7] / 256) as u8,
            (g[7] % 256) as u8,
        ];
        assert(o@ =~= low_octets(g@));
        let v4: String = write_ipv4(o);
        s.append(v4.as_str());
        assert(s@ =~= ipv6_text(g@));
        return s;
    }
    let (start, len) = find_run(&g);
    if len > 1 {
        push_groups(&mut s, &g, 0, start);
        s.push(':');
        s.push(':');
        push_groups(&mut s, &g, start + len, 8);
        assert(g@.subrange(0, start as int) =~= g@.take(start as int));
        assert(g@.subrange(start + len, 8) =~= g@.skip(start + len));
        assert(s@ =~= ipv6_text(g@));
    } else {
        push_groups(&mut s, &g, 0, 8);
        assert(g@.subrange(0, 8) =~= g@);
        assert(s@ =~= ipv6_text(g@));
    }
    s
}

/// The text of an IP address.
pub fn write_ip(a: &IpAddr) -> (r: String)
    ensures
        r@ == ip_text(a@),
{
    match a {
        IpAddr::V4(o) => write_ipv4(*o),
        IpAddr::V6(g) => write_ipv6(*g),
    }
}

// --- laws -------------------------------------------------------------------

/// The text is made of hexadecimal digits.
pub open spec fn all_hex(s: Seq<char>) -> bool {
    forall|i: int| 0 <= i < s.len() ==> ip::is_hex(#[trigger] s[i])
}

proof fn lemma_hex(n: nat)
    ensures
        hex(n).len() > 0,
        all_hex(hex(n)),
        ip::hex_number(hex(n)) == n,
    decreases n,
{
    if n < 16 {
        assert(hex(n).drop_last() =~= Seq::<char>::empty());
        assert(ip::hex_number(hex(n).drop_last()) == 0);
    } else {
        lemma_hex(n / 16);
        assert(hex(n).drop_last() =~= hex(n / 16));
    }
}

proof fn lemma_group(n: u16)
    ensures
        ip::group(hex(n as nat)) == Some(n),
{
    lemma_hex(n as nat);
    reveal_with_fuel(hex, 4);
}

/// The groups as texts.
pub open spec fn group_texts(g: Seq<u16>) -> Seq<Seq<char>> {
    Seq::new(g.len(), |i: int| hex(g[i] as nat))
}

proof fn lemma_group_list(g: Seq<u16>)
    ensures
        ip::group_list(group_texts(g)) == Some(g),
    decreases g.len(),
{
    let p = group_texts(g);
    if g.len() == 0 {
        assert(ip::group_list(p)->0 =~= g);
    } else {
        assert(p.drop_last() =~= group_texts(g.drop_last()));
        lemma_group_list(g.drop_last());
        lemma_group(g.last());
        assert(g.drop_last().push(g.last()) =~= g);
    }
}

/// Two colons stand side by side at this place.
pub open spec fn pair_at(s: Seq<char>, i: int) -> bool {
    s[i] == ':' && s[i + 1] == ':'
}

/// No two colons stand side by side.
pub open spec fn no_gap(s: Seq<char>) -> bool {
    forall|i: int| 0 <= i < s.len() - 1 ==> !#[trigger] pair_at(s, i)
}

proof fn lemma_joined(g: Seq<u16>)
    requires
        g.len() > 0,
    ensures
        joined(g).len() > 0,
        split::split(joined(g), ':') == group_texts(g),
        no_gap(joined(g)),
        joined(g)[0] != ':',
        joined(g).last() != ':',
        !joined(g).contains('.'),
        !joined(g).contains(','),
        g.len() > 1 ==> joined(g).contains(':'),
    decreases g.len(),
{
    let last = hex(g.last() as nat);
    let j = joined(g);
    lemma_hex(g.last() as nat);
    assert(!last.contains(':'));
    if g.len() == 1 {
        split::lemma_split_one(last, ':');
        assert(group_texts(g) =~= seq![last]);
    } else {
        let a = joined(g.drop_last());
        lemma_joined(g.drop_last());
        split::lemma_split_snoc(a, ':', last);
        assert(group_texts(g) =~= group_texts(g.drop_last()).push(last));
        assert forall|i: int| 0 <= i < j.len() - 1 implies !#[trigger] pair_at(j, i) by {
            if i + 1 < a.len() {
                assert(!pair_at(a, i));
                assert(a[i] == j[i] && a[i + 1] == j[i + 1]);
            } else if i + 1 == a.len() {
                assert(a.last() == j[i]);
            } else if i == a.len() {
                assert(j[i + 1] == last[0]);
            } else {
                assert(last[i - a.len() - 1] == j[i]);
            }
        }
        assert(j[0] == a[0]);
        assert(j.last() == last.last());
        assert forall|c: char| j.contains(c) && c != ':' implies a.contains(c) || last.contains(
            c,
        ) by {
            let i = choose|i: int| 0 <= i < j.len() && j[i] == c;
            if i < a.len() {
                assert(a[i] == c);
            } else {
                assert(last[i - a.len() - 1] == c);
            }
        }
        assert(j[a.len() as int] == ':');
    }
    assert(!last.contains('.'));
    assert(!last.contains(','));
}

proof fn lemma_no_gap(s: Seq<char>, i: int)
    requires
        no_gap(s),
    ensures
        !text::occurs_at(s, ip::gap(), i),
{
    if text::occurs_at(s, ip::gap(), i) {
        let w = s.subrange(i, i + 2);
        assert(w[0] == s[i] && w[1] == s[i + 1]);
        assert(ip::gap()[0] == ':' && ip::gap()[1] == ':');
        assert(pair_at(s, i));
    }
}

/// The groups of a text of joined groups.
proof fn lemma_parts(g: Seq<u16>)
    ensures
        ip::group_list(ip::colon_parts(joined(g))) == Some(g),
        ip::group_list_v4(ip::colon_parts(joined(g))) == Some(g),
{
    lemma_group_list(g);
    let p = ip::colon_parts(joined(g));
    if g.len() == 0 {
        assert(p =~= group_texts(g));
    } else {
        lemma_joined(g);
        let last = hex(g.last() as nat);
        lemma_hex(g.last() as nat);
        assert(p.last() == last);
        assert(!last.contains('.'));
        split::lemma_split_one(last, '.');
    }
}

proof fn lemma_zero_run(g: Seq<u16>, i: int)
    requires
        0 <= i <= g.len(),
    ensures
        i + zero_run(g, i) <= g.len(),
        forall|k: int| i <= k < i + zero_run(g, i) ==> g[k] == 0,
    decreases g.len() - i,
{
    if i < g.len() && g[i] == 0 {
        lemma_zero_run(g, i + 1);
    }
}

proof fn lemma_longest_run(g: Seq<u16>, n: int)
    requires
        0 <= n <= g.len(),
    ensures
        ({
            let (start, len) = longest_run(g, n);
            &&& 0 <= start
            &&& start + len <= g.len()
            &&& forall|k: int| start <= k < start + len ==> g[k] == 0
        }),
    decreases n,
{
    if n > 0 {
        lemma_longest_run(g, n - 1);
        lemma_zero_run(g, n - 1);
    }
}

proof fn lemma_first_gap(a: Seq<char>, b: Seq<char>)
    requires
        no_gap(a),
        a.len() > 0 ==> a.last() != ':',
    ensures
        text::find_text(a + seq![':', ':'] + b, ip::gap()) == Some(a.len() as int),
{
    let s = a + seq![':', ':'] + b;
    let k = a.len() as int;
    assert(s.subrange(k, k + 2) =~= ip::gap());
    assert(text::occurs_at(s, ip::gap(), k));
    assert forall|j: int| 0 <= j < k implies !text::occurs_at(s, ip::gap(), j) by {
        if text::occurs_at(s, ip::gap(), j) {
            let w = s.subrange(j, j + 2);
            assert(w[0] == s[j] && w[1] == s[j + 1]);
            assert(ip::gap()[0] == ':' && ip::gap()[1] == ':');
            if j + 1 < k {
                assert(a[j] == s[j] && a[j + 1] == s[j + 1]);
                assert(pair_at(a, j));
            } else {
                assert(a.last() == s[j]);
            }
        }
    }
    assert(text::occurs_first(s, ip::gap(), k));
    text::lemma_find_text_first(s, ip::gap(), k);
}

proof fn lemma_gap_is_found(h: Seq<u16>, t: Seq<u16>)
    requires
        h.len() + t.len() <= 7,
    ensures
        ip::ipv6(joined(h) + seq![':', ':'] + joined(t)) == Some(
            h + Seq::new((8 - h.len() - t.len()) as nat, |i: int| 0u16) + t,
        ),
{
    let a = joined(h);
    let b = joined(t);
    let s = a + seq![':', ':'] + b;
    let k = a.len() as int;
    if h.len() > 0 {
        lemma_joined(h);
    }
    lemma_first_gap(a, b);
    lemma_parts(h);
    lemma_parts(t);
    assert(s.take(k) =~= a);
    assert(s.skip(k + 2) =~= b);
}

proof fn lemma_gap_is_plain(h: Seq<u16>, t: Seq<u16>)
    ensures
        ({
            let s = joined(h) + seq![':', ':'] + joined(t);
            &&& !s.contains('.')
            &&& !s.contains(',')
            &&& s.contains(':')
        }),
{
    let a = joined(h);
    let b = joined(t);
    let s = a + seq![':', ':'] + b;
    let k = a.len() as int;
    if h.len() > 0 {
        lemma_joined(h);
    }
    if t.len() > 0 {
        lemma_joined(t);
    }
    assert(s[k] == ':');
    assert forall|c: char| s.contains(c) && c != ':' implies a.contains(c) || b.contains(c) by {
        let i = choose|i: int| 0 <= i < s.len() && s[i] == c;
        if i < k {
            assert(a[i] == c);
        } else {
            assert(b[i - k - 2] == c);
        }
    }
}

proof fn lemma_dotted_plain(a: Seq<u8>)
    requires
        a.len() == 4,
    ensures
        !ip::dotted(a).contains(':'),
        !ip::dotted(a).contains(','),
{
    let d0 = decimal::digits(a[0] as nat);
    let d1 = decimal::digits(a[1] as nat);
    let d2 = decimal::digits(a[2] as nat);
    let d3 = decimal::digits(a[3] as nat);
    let s = ip::dotted(a);
    assert forall|c: char| s.contains(c) && c != '.' implies decimal::is_digit(c) by {
        decimal::lemma_digits(a[0] as nat);
        decimal::lemma_digits(a[1] as nat);
        decimal::lemma_digits(a[2] as nat);
        decimal::lemma_digits(a[3] as nat);
        let i = choose|i: int| 0 <= i < s.len() && s[i] == c;
        let n0 = d0.len() as int;
        let n1 = n0 + 1 + d1.len() as int;
        let n2 = n1 + 1 + d2.len() as int;
        if i < n0 {
            assert(s[i] == d0[i]);
        } else if n0 < i < n1 {
            assert(s[i] == d1[i - n0 - 1]);
        } else if n1 < i < n2 {
            assert(s[i] == d2[i - n1 - 1]);
        } else if n2 < i {
            assert(s[i] == d3[i - n2 - 1]);
        }
    }
    assert(!decimal::is_digit(':'));
    assert(!decimal::is_digit(','));
}

proof fn lemma_mapped(g: Seq<u16>)
    requires
        g.len() == 8,
        is_mapped(g),
    ensures
        ip::ipv6(ipv6_text(g)) == Some(g),
        ip::ipv4(ipv6_text(g)) is None,
        ipv6_text(g).contains(':'),
        !ipv6_text(g).contains(','),
{
    let d = ip::dotted(low_octets(g));
    let s = ipv6_text(g);
    let f = seq!['f', 'f', 'f', 'f'];
    ip::dotted_reads_back(low_octets(g));
    lemma_dotted_plain(low_octets(g));
    assert(s.subrange(0, 2) =~= ip::gap());
    assert(text::occurs_at(s, ip::gap(), 0));
    assert(text::occurs_first(s, ip::gap(), 0));
    text::lemma_find_text_first(s, ip::gap(), 0);
    let t = f + seq![':'] + d;
    assert(s.skip(2) =~= t);
    assert(s.take(0) =~= seq![]);
    assert(!f.contains(':'));
    split::lemma_split_cons(f, ':', d);
    split::lemma_split_one(d, ':');
    let p = ip::colon_parts(t);
    assert(p =~= seq![f, d]);
    assert(p.drop_last() =~= seq![f]);
    assert(f =~= hex(0xffff)) by {
        reveal_with_fuel(hex, 4);
        assert(hex(15) =~= seq!['f']);
        assert(hex(255) =~= seq!['f', 'f']);
        assert(hex(4095) =~= seq!['f', 'f', 'f']);
    }
    lemma_group_list(seq![0xffffu16]);
    assert(group_texts(seq![0xffffu16]) =~= seq![f]);
    let o = low_octets(g);
    assert((o[0] * 256 + o[1]) as u16 == g[6]);
    assert((o[2] * 256 + o[3]) as u16 == g[7]);
    let tail = seq![0xffffu16].push(g[6]).push(g[7]);
    assert(ip::group_list_v4(p) == Some(tail));
    assert(Seq::<u16>::empty() + Seq::new(5, |i: int| 0u16) + tail =~= g);
    assert(ip::group_list(ip::colon_parts(s.take(0))) == Some(Seq::<u16>::empty()));
    assert(s[0] == ':');
    text::lemma_find(s, '.');
    match text::find(s, '.') {
        Some(i) => {
            assert(i > 0);
            let first = split::split(s, '.')[0];
            assert(first == s.take(i));
            assert(first[0] == ':');
            assert(!decimal::all_digits(first)) by {
                assert(!decimal::is_digit(first[0]));
            }
        },
        None => {},
    }
    assert forall|c: char| s.contains(c) && c != ':' && c != 'f' implies d.contains(c) by {
        let i = choose|i: int| 0 <= i < s.len() && s[i] == c;
        assert(d[i - 7] == c);
    }
}

proof fn lemma_ipv6_text(g: Seq<u16>)
    requires
        g.len() == 8,
    ensures
        ip::ipv6(ipv6_text(g)) == Some(g),
        ip::ipv4(ipv6_text(g)) is None,
        ipv6_text(g).contains(':'),
        !ipv6_text(g).contains(','),
{
    let (start, len) = longest_run(g, 8);
    let s = ipv6_text(g);
    lemma_longest_run(g, 8);
    if is_mapped(g) {
        lemma_mapped(g);
    } else if len > 1 {
        let h = g.take(start);
        let t = g.skip(start + len);
        lemma_gap_is_found(h, t);
        lemma_gap_is_plain(h, t);
        assert(h + Seq::new((8 - h.len() - t.len()) as nat, |i: int| 0u16) + t =~= g);
        split::lemma_split_one(s, '.');
    } else {
        lemma_joined(g);
        lemma_parts(g);
        assert forall|i: int| !text::occurs_at(s, ip::gap(), i) by {
            lemma_no_gap(s, i);
        }
        assert(!text::contains_text(s, ip::gap()));
        split::lemma_split_one(s, '.');
    }
}

/// The address has as many parts as its family has.
pub open spec fn is_address(a: IpView) -> bool {
    match a {
        IpView::V4(o) => o.len() == 4,
        IpView::V6(g) => g.len() == 8,
    }
}

/// The text of an address reads as that address.
pub proof fn ip_text_reads_back(a: IpView)
    requires
        is_address(a),
    ensures
        ip::ip(ip_text(a)) == Some(a),
{
    match a {
        IpView::V4(o) => {
            ip::dotted_reads_back(o);
        },
        IpView::V6(g) => {
            lemma_ipv6_text(g);
        },
    }
}

/// The text of an address tells its family by whether there is a colon in it, and holds
/// no comma.
pub proof fn colon_tells_the_family(a: IpView)
    requires
        is_address(a),
    ensures
        ip_text(a).contains(':') <==> a is V6,
        !ip_text(a).contains(','),
{
    match a {
        IpView::V4(o) => {
            lemma_dotted_plain(o);
        },
        IpView::V6(g) => {
            lemma_ipv6_text(g);
        },
    }
}

/// Every character is a printable one of ASCII, and no blank.
pub open spec fn is_plain(s: Seq<char>) -> bool {
    forall|i: int| 0 <= i < s.len() ==> '!' <= #[trigger] s[i] <= '~'
}

proof fn lemma_plain_hex(n: nat)
    ensures
        is_plain(hex(n)),
        hex(n).len() > 0,
{
    lemma_hex(n);
    let h = hex(n);
    assert forall|i: int| 0 <= i < h.len() implies '!' <= #[trigger] h[i] <= '~' by {
        assert(ip::is_hex(h[i]));
    }
}

proof fn lemma_plain_joined(g: Seq<u16>)
    ensures
        is_plain(joined(g)),
        g.len() > 0 ==> joined(g).len() > 0,
    decreases g.len(),
{
    if g.len() > 0 {
        lemma_plain_hex(g.last() as nat);
        lemma_plain_joined(g.drop_last());
    }
}

proof fn lemma_plain_dotted(a: Seq<u8>)
    requires
        a.len() == 4,
    ensures
        is_plain(ip::dotted(a)),
        ip::dotted(a).len() > 0,
{
    decimal::lemma_digits(a[0] as nat);
    decimal::lemma_digits(a[1] as nat);
    decimal::lemma_digits(a[2] as nat);
    decimal::lemma_digits(a[3] as nat);
    lemma_plain_digits(a[0] as nat);
    lemma_plain_digits(a[1] as nat);
    lemma_plain_digits(a[2] as nat);
    lemma_plain_digits(a[3] as nat);
}

proof fn lemma_plain_digits(n: nat)
    ensures
        is_plain(decimal::digits(n)),
{
    decimal::lemma_digits(n);
    let d = decimal::digits(n);
    assert forall|i: int| 0 <= i < d.len() implies '!' <= #[trigger] d[i] <= '~' by {
        assert(decimal::is_digit(d[i]));
    }
}

/// The text of an address is not empty, and free of white space.
pub proof fn address_is_one_word(a: IpView)
    requires
        is_address(a),
    ensures
        ip_text(a).len() > 0,
        is_plain(ip_text(a)),
{
    match a {
        IpView::V4(o) => {
            lemma_plain_dotted(o);
        },
        IpView::V6(g) => {
            let (start, len) = longest_run(g, 8);
            lemma_longest_run(g, 8);
            if is_mapped(g) {
                lemma_plain_dotted(low_octets(g));
            } else if len > 1 {
                lemma_plain_joined(g.take(start));
                lemma_plain_joined(g.skip(start + len));
            } else {
                lemma_plain_joined(g);
            }
        },
    }
}

// --- other texts of addresses -----------------------------------------------

/// A double colon stands for as many groups of zero as are missing, wherever it stands; where
/// none is missing the text is no address.
pub proof fn double_colon_fills_up(h: Seq<u16>, t: Seq<u16>)
    ensures
        ip::ipv6(joined(h) + seq![':', ':'] + joined(t)) == if h.len() + t.len() <= 7 {
            Some(h + Seq::new((8 - h.len() - t.len()) as nat, |i: int| 0u16) + t)
        } else {
            None
        },
{
    if h.len() + t.len() <= 7 {
        lemma_gap_is_found(h, t);
    } else {
        let a = joined(h);
        let b = joined(t);
        let s = a + seq![':', ':'] + b;
        if h.len() > 0 {
            lemma_joined(h);
        }
        lemma_first_gap(a, b);
        lemma_parts(h);
        lemma_parts(t);
        assert(s.take(a.len() as int) =~= a);
        assert(s.skip(a.len() as int + 2) =~= b);
    }
}

/// Without a double colon there are eight groups, no more and no fewer.
pub proof fn eight_groups_are_an_address(g: Seq<u16>)
    requires
        g.len() > 0,
    ensures
        ip::ipv6(joined(g)) == if g.len() == 8 {
            Some(g)
        } else {
            None
        },
{
    let s = joined(g);
    lemma_joined(g);
    lemma_parts(g);
    assert forall|i: int| !text::occurs_at(s, ip::gap(), i) by {
        lemma_no_gap(s, i);
    }
    assert(!text::contains_text(s, ip::gap()));
}

/// The groups are written in hexadecimal, in lower case and without zeros before them, with a
/// colon between each two.
pub proof fn groups_are_joined(g: Seq<u16>, x: u16, n: nat, d: nat)
    requires
        d < 16,
    ensures
        joined(seq![x]) == hex(x as nat),
        g.len() > 0 ==> joined(g.push(x)) == joined(g) + seq![':'] + hex(x as nat),
        hex(d) == seq![
            if d < 10 {
                (('0' as u8 + d) as u8) as char
            } else {
                (('a' as u8 + d - 10) as u8) as char
            },
        ],
        n > 0 ==> hex(16 * n + d) == hex(n) + hex(d),
{
    assert(g.push(x).drop_last() =~= g);
    if n > 0 {
        assert((16 * n + d) / 16 == n);
        assert((16 * n + d) % 16 == d);
        assert(hex(16 * n + d) =~= hex(n) + hex(d));
    }
}

/// In the text of an IPv6 address a double colon stands for the first of the longest rows of
/// two or more groups of zero; without such a row all eight groups are written. An address that
/// stands for one of IPv4 shows that one.
pub proof fn longest_row_is_left_out(g: Seq<u16>, start: int, len: int)
    requires
        g.len() == 8,
        0 <= start,
        0 < len,
        start + len <= 8,
        is_zero_row(g, start, len),
        forall|i: int, n: int|
            0 <= i && 0 < n && i + n <= 8 && #[trigger] is_zero_row(g, i, n) ==> n < len || (n
                == len && start <= i),
    ensures
        ({
            let mapped = g.take(6) == seq![0u16, 0u16, 0u16, 0u16, 0u16, 0xffffu16];
            ipv6_text(g) == if mapped {
                seq![':', ':', 'f', 'f', 'f', 'f', ':'] + ip::dotted(
                    seq![
                        (g[6] / 256) as u8,
                        (g[6] % 256) as u8,
                        (g[7] / 256) as u8,
                        (g[7] % 256) as u8,
                    ],
                )
            } else if len > 1 {
                joined(g.take(start)) + seq![':', ':'] + joined(g.skip(start + len))
            } else {
                joined(g)
            }
        }),
{
    lemma_mapped_is(g);
    lemma_run_is(g, start, len, 8);
}

proof fn lemma_mapped_is(g: Seq<u16>)
    requires
        g.len() == 8,
    ensures
        is_mapped(g) <==> g.take(6) == seq![0u16, 0u16, 0u16, 0u16, 0u16, 0xffffu16],
{
    let six = g.take(6);
    let want = seq![0u16, 0u16, 0u16, 0u16, 0u16, 0xffffu16];
    if is_mapped(g) {
        assert(six =~= want);
    } else if six == want {
        assert(six[0] == g[0] && six[1] == g[1] && six[2] == g[2] && six[3] == g[3]);
        assert(six[4] == g[4] && six[5] == g[5]);
    }
}

/// From `i` on there are `n` groups of zero in a row.
pub open spec fn is_zero_row(g: Seq<u16>, i: int, n: int) -> bool {
    forall|k: int| i <= k < i + n ==> #[trigger] g[k] == 0
}

proof fn lemma_run_reaches(g: Seq<u16>, i: int, n: int)
    requires
        0 <= i,
        0 <= n,
        i + n <= g.len(),
        is_zero_row(g, i, n),
    ensures
        zero_run(g, i) >= n,
    decreases n,
{
    if n > 0 {
        assert(g[i] == 0);
        lemma_run_reaches(g, i + 1, n - 1);
    }
}

proof fn lemma_run_is(g: Seq<u16>, start: int, len: int, n: int)
    requires
        g.len() == 8,
        0 <= start,
        0 < len,
        start + len <= 8,
        0 <= n <= 8,
        is_zero_row(g, start, len),
        forall|i: int, n: int|
            0 <= i && 0 < n && i + n <= 8 && #[trigger] is_zero_row(g, i, n) ==> n < len || (n
                == len && start <= i),
    ensures
        n > start ==> longest_run(g, n) == (start, len as nat),
        n <= start ==> longest_run(g, n).1 < len,
    decreases n,
{
    if n > 0 {
        lemma_run_is(g, start, len, n - 1);
        lemma_zero_run(g, n - 1);
        let z = zero_run(g, n - 1) as int;
        assert(is_zero_row(g, n - 1, z));
        if n - 1 == start {
            lemma_run_reaches(g, start, len);
        }
    }
}

/// The last two groups may be written as an IPv4 address, whose bytes they then hold.
pub proof fn dotted_tail_is_two_groups(h: Seq<u16>, a: Seq<u8>)
    requires
        a.len() == 4,
        h.len() == 6,
    ensures
        ip::ipv6(joined(h) + seq![':'] + ip::dotted(a)) == Some(
            h + seq![(256 * a[0] + a[1]) as u16, (256 * a[2] + a[3]) as u16],
        ),
{
    let j = joined(h);
    let d = ip::dotted(a);
    let s = j + seq![':'] + d;
    lemma_joined(h);
    lemma_dotted_plain(a);
    lemma_plain_dotted(a);
    lemma_dotted_tail(h, a);
    assert(no_gap(s)) by {
        assert forall|i: int| 0 <= i < s.len() - 1 implies !#[trigger] pair_at(s, i) by {
            if i + 1 < j.len() {
                assert(!pair_at(j, i));
                assert(j[i] == s[i] && j[i + 1] == s[i + 1]);
            } else if i + 1 == j.len() {
                assert(j.last() == s[i]);
            } else if i == j.len() {
                assert(s[i + 1] == d[0]);
                assert(d.contains(d[0]));
            } else {
                assert(s[i] == d[i - j.len() - 1]);
                assert(d.contains(d[i - j.len() - 1]));
            }
        }
    }
    assert forall|i: int| !text::occurs_at(s, ip::gap(), i) by {
        lemma_no_gap(s, i);
    }
    assert(!text::contains_text(s, ip::gap()));
}

/// The text of an IPv6 address in square brackets is where a datagram goes, and without them it
/// is not.
pub proof fn bracketed_address_is_a_target(g: Seq<u16>, port: u16)
    requires
        g.len() == 8,
    ensures
        ip::target(seq!['['] + ipv6_text(g) + seq![']'], port) == Some(
            ip::TargetView::V6 { groups: g, scope: 0, port },
        ),
        ip::target(ipv6_text(g), port) is None,
{
    let a = IpView::V6(g);
    let s = ipv6_text(g);
    lemma_ipv6_text(g);
    address_is_one_word(a);
    lemma_ipv6_chars(g);
    ip::ipv6_target_is_read(s, g, 0, port);
}

proof fn lemma_ipv6_chars(g: Seq<u16>)
    requires
        g.len() == 8,
    ensures
        ipv6_text(g)[0] != '[',
        !ipv6_text(g).contains('%'),
{
    let (start, len) = longest_run(g, 8);
    let s = ipv6_text(g);
    lemma_longest_run(g, 8);
    assert(is_numeric(s)) by {
        if is_mapped(g) {
            lemma_numeric_dotted(low_octets(g));
        } else if len > 1 {
            lemma_numeric_joined(g.take(start));
            lemma_numeric_joined(g.skip(start + len));
        } else {
            lemma_numeric_joined(g);
        }
    }
    address_is_one_word(IpView::V6(g));
    assert(numeric_char(s[0]));
    if s.contains('%') {
        let i = choose|i: int| 0 <= i < s.len() && s[i] == '%';
        assert(numeric_char(s[i]));
    }
}

/// A character that stands in texts of addresses.
spec fn numeric_char(c: char) -> bool {
    ip::is_hex(c) || c == ':' || c == '.'
}

spec fn is_numeric(s: Seq<char>) -> bool {
    forall|i: int| 0 <= i < s.len() ==> numeric_char(#[trigger] s[i])
}

proof fn lemma_numeric_joined(g: Seq<u16>)
    ensures
        is_numeric(joined(g)),
    decreases g.len(),
{
    if g.len() > 0 {
        let h = hex(g.last() as nat);
        lemma_hex(g.last() as nat);
        lemma_numeric_joined(g.drop_last());
        let s = joined(g);
        let a = joined(g.drop_last());
        assert forall|i: int| 0 <= i < s.len() implies numeric_char(#[trigger] s[i]) by {
            if g.len() == 1 {
                assert(ip::is_hex(h[i]));
            } else if i < a.len() {
                assert(numeric_char(a[i]));
            } else if i > a.len() {
                assert(ip::is_hex(h[i - a.len() - 1]));
            }
        }
    }
}

proof fn lemma_numeric_dotted(a: Seq<u8>)
    requires
        a.len() == 4,
    ensures
        is_numeric(ip::dotted(a)),
{
    lemma_numeric_digits(a[0] as nat);
    lemma_numeric_digits(a[1] as nat);
    lemma_numeric_digits(a[2] as nat);
    lemma_numeric_digits(a[3] as nat);
}

proof fn lemma_numeric_digits(n: nat)
    ensures
        is_numeric(decimal::digits(n)),
{
    decimal::lemma_digits(n);
    let d = decimal::digits(n);
    assert forall|i: int| 0 <= i < d.len() implies numeric_char(#[trigger] d[i]) by {
        assert(decimal::is_digit(d[i]));
    }
}

/// An address without a group of zero has all its groups written.
pub proof fn address_without_zeros_is_written_out(g: Seq<u16>)
    requires
        g.len() == 8,
        forall|i: int| 0 <= i < 8 ==> #[trigger] g[i] != 0,
    ensures
        ipv6_text(g) == joined(g),
{
    assert(g[0] != 0);
    lemma_no_run(g, 8);
}

proof fn lemma_no_run(g: Seq<u16>, n: int)
    requires
        g.len() == 8,
        0 <= n <= 8,
        forall|i: int| 0 <= i < 8 ==> #[trigger] g[i] != 0,
    ensures
        longest_run(g, n).1 == 0,
    decreases n,
{
    if n > 0 {
        lemma_no_run(g, n - 1);
        assert(g[n - 1] != 0);
    }
}

proof fn lemma_all_groups(p: Seq<Seq<char>>, i: int)
    requires
        0 <= i < p.len(),
        ip::group_list(p) is Some,
    ensures
        ip::group(p[i]) is Some,
    decreases p.len(),
{
    if i < p.len() - 1 {
        lemma_all_groups(p.drop_last(), i);
    }
}

proof fn lemma_empty_part(a: Seq<char>, b: Seq<char>)
    ensures
        ({
            let p = split::split(a + seq![':', ':'] + b, ':');
            exists|i: int| 0 <= i < p.len() - 1 && (#[trigger] p[i]).len() == 0
        }),
    decreases a.len(),
{
    let s = a + seq![':', ':'] + b;
    text::lemma_find(a, ':');
    let none = Seq::<char>::empty();
    match text::find(a, ':') {
        Some(k) => {
            let head = a.take(k);
            let rest = a.skip(k + 1);
            let tail = rest + seq![':', ':'] + b;
            lemma_empty_part(rest, b);
            assert(!head.contains(':'));
            assert(s =~= head + seq![':'] + tail);
            split::lemma_split_cons(head, ':', tail);
            let q = split::split(tail, ':');
            let i = choose|i: int| 0 <= i < q.len() - 1 && (#[trigger] q[i]).len() == 0;
            let p = split::split(s, ':');
            assert(p[i + 1] == q[i]);
        },
        None => {
            let tail = none + seq![':'] + b;
            assert(!a.contains(':'));
            assert(s =~= a + seq![':'] + tail);
            split::lemma_split_cons(a, ':', tail);
            split::lemma_split_cons(none, ':', b);
            split::parts_make_up_the_text(b, ':');
            let p = split::split(s, ':');
            assert(p[1] == none);
        },
    }
}

/// A text with a second double colon is no address.
pub proof fn second_double_colon_is_refused(h: Seq<u16>, a: Seq<char>, b: Seq<char>)
    ensures
        ip::ipv6(joined(h) + seq![':', ':'] + (a + seq![':', ':'] + b)) is None,
{
    let j = joined(h);
    let tail = a + seq![':', ':'] + b;
    let s = j + seq![':', ':'] + tail;
    if h.len() > 0 {
        lemma_joined(h);
    }
    lemma_first_gap(j, tail);
    assert(s.skip(j.len() as int + 2) =~= tail);
    lemma_empty_part(a, b);
    let p = ip::colon_parts(tail);
    let i = choose|i: int| 0 <= i < p.len() - 1 && (#[trigger] p[i]).len() == 0;
    if ip::group_list_v4(p) is Some {
        if ip::ipv4(p.last()) is Some {
            lemma_all_groups(p.drop_last(), i);
            assert(p.drop_last()[i] == p[i]);
        } else {
            lemma_all_groups(p, i);
        }
    }
}

/// The groups that end with an IPv4 address.
pub open spec fn with_octets(t: Seq<u16>, a: Seq<u8>) -> Seq<u16> {
    t + seq![(256 * a[0] + a[1]) as u16, (256 * a[2] + a[3]) as u16]
}

/// The text of groups that end with an IPv4 address.
pub open spec fn dotted_tail(t: Seq<u16>, a: Seq<u8>) -> Seq<char> {
    if t.len() == 0 {
        ip::dotted(a)
    } else {
        joined(t) + seq![':'] + ip::dotted(a)
    }
}

proof fn lemma_dotted_tail(t: Seq<u16>, a: Seq<u8>)
    requires
        a.len() == 4,
    ensures
        ip::group_list_v4(ip::colon_parts(dotted_tail(t, a))) == Some(with_octets(t, a)),
{
    let d = ip::dotted(a);
    let tail = dotted_tail(t, a);
    let p = ip::colon_parts(tail);
    lemma_dotted_plain(a);
    lemma_plain_dotted(a);
    ip::dotted_reads_back(a);
    lemma_group_list(t);
    if t.len() == 0 {
        split::lemma_split_one(d, ':');
        assert(p =~= seq![d]);
    } else {
        lemma_joined(t);
        split::lemma_split_snoc(joined(t), ':', d);
        assert(p == group_texts(t).push(d));
    }
    assert(p.drop_last() =~= group_texts(t));
    assert(p.last() == d);
    let x = (a[0] * 256 + a[1]) as u16;
    let y = (a[2] * 256 + a[3]) as u16;
    assert(ip::group_list_v4(p) == Some(t.push(x).push(y)));
    assert(t.push(x).push(y) =~= with_octets(t, a));
}

/// A dotted IPv4 address may also stand for the last two groups behind a double colon, which then
/// fills up the rest.
pub proof fn dotted_tail_behind_a_double_colon(h: Seq<u16>, t: Seq<u16>, a: Seq<u8>)
    requires
        a.len() == 4,
        h.len() + t.len() <= 5,
    ensures
        ip::ipv6(joined(h) + seq![':', ':'] + dotted_tail(t, a)) == Some(
            h + Seq::new((6 - h.len() - t.len()) as nat, |i: int| 0u16) + with_octets(t, a),
        ),
{
    let j = joined(h);
    let tail = dotted_tail(t, a);
    let s = j + seq![':', ':'] + tail;
    let k = j.len() as int;
    if h.len() > 0 {
        lemma_joined(h);
    }
    lemma_first_gap(j, tail);
    lemma_parts(h);
    lemma_dotted_tail(t, a);
    assert(s.take(k) =~= j);
    assert(s.skip(k + 2) =~= tail);
}

/// A text with a part between two colons that is neither a group nor, at its end, a dotted IPv4
/// address is no address, if there is no double colon in it.
pub proof fn bad_group_is_refused(s: Seq<char>, i: int)
    requires
        !text::contains_text(s, seq![':', ':']),
        0 <= i < split::split(s, ':').len(),
        ip::group(split::split(s, ':')[i]) is None,
        i < split::split(s, ':').len() - 1 || ip::ipv4(split::split(s, ':')[i]) is None,
    ensures
        ip::ipv6(s) is None,
{
    let p = split::split(s, ':');
    assert(ip::gap() =~= seq![':', ':']);
    if s.len() > 0 && ip::group_list_v4(p) is Some {
        if ip::ipv4(p.last()) is Some {
            lemma_all_groups(p.drop_last(), i);
            assert(p.drop_last()[i] == p[i]);
        } else {
            lemma_all_groups(p, i);
        }
    }
}

/// The family of an address is told by its text: it is read as one of IPv4 if it is the text of
/// one, and as one of IPv6 otherwise.
pub proof fn either_family_is_read(s: Seq<char>)
    ensures
        ip::ip(s) == match (ip::ipv4(s), ip::ipv6(s)) {
            (Some(a), _) => Some(IpView::V4(a)),
            (None, Some(g)) => Some(IpView::V6(g)),
            (None, None) => None,
        },
{
}

/// Each of these texts is a group.
pub open spec fn are_groups(p: Seq<Seq<char>>) -> bool {
    forall|i: int| 0 <= i < p.len() ==> ip::group(#[trigger] p[i]) is Some
}

/// The groups that these texts are.
pub open spec fn groups_in(p: Seq<Seq<char>>) -> Seq<u16> {
    Seq::new(p.len(), |i: int| ip::group(p[i])->0)
}

proof fn lemma_group_chars(s: Seq<char>)
    requires
        ip::group(s) is Some,
    ensures
        s.len() > 0,
        !s.contains(':'),
        !s.contains('.'),
{
    assert forall|i: int| 0 <= i < s.len() implies s[i] != ':' && s[i] != '.' by {
        assert(ip::is_hex(s[i]));
    }
}

proof fn lemma_groups_in(p: Seq<Seq<char>>)
    requires
        are_groups(p),
    ensures
        ip::group_list(p) == Some(groups_in(p)),
    decreases p.len(),
{
    if p.len() == 0 {
        assert(groups_in(p) =~= seq![]);
    } else {
        let rest = p.drop_last();
        assert forall|i: int| 0 <= i < rest.len() implies ip::group(#[trigger] rest[i]) is Some by {
            assert(rest[i] == p[i]);
        }
        lemma_groups_in(rest);
        assert(ip::group(p[p.len() - 1]) is Some);
        assert(groups_in(p) =~= groups_in(rest).push(ip::group(p.last())->0));
    }
}

proof fn lemma_group_parts(p: Seq<Seq<char>>)
    requires
        p.len() > 0,
        are_groups(p),
    ensures
        ({
            let s = split::of_parts(p, ':');
            &&& s.len() > 0
            &&& split::split(s, ':') == p
            &&& no_gap(s)
            &&& s[0] != ':'
            &&& s.last() != ':'
        }),
    decreases p.len(),
{
    let s = split::of_parts(p, ':');
    let a = p[0];
    assert(ip::group(p[0]) is Some);
    lemma_group_chars(a);
    assert forall|i: int| 0 <= i < a.len() implies a[i] != ':' by {
        assert(a.contains(a[i]));
    }
    if p.len() == 1 {
        split::lemma_split_one(a, ':');
        assert(p =~= seq![a]);
    } else {
        let rest = p.drop_first();
        assert forall|i: int| 0 <= i < rest.len() implies ip::group(#[trigger] rest[i]) is Some by {
            assert(rest[i] == p[i + 1]);
        }
        lemma_group_parts(rest);
        let b = split::of_parts(rest, ':');
        split::lemma_split_cons(a, ':', b);
        assert(seq![a] + rest =~= p);
        assert forall|i: int| 0 <= i < s.len() - 1 implies !#[trigger] pair_at(s, i) by {
            if i < a.len() {
                assert(s[i] == a[i]);
            } else if i == a.len() {
                assert(s[i + 1] == b[0]);
            } else {
                let k = i - a.len() - 1;
                assert(!pair_at(b, k));
                assert(s[i] == b[k] && s[i + 1] == b[k + 1]);
            }
        }
        assert(s[0] == a[0]);
        assert(s.last() == b.last());
    }
}

proof fn lemma_group_parts_read(p: Seq<Seq<char>>)
    requires
        are_groups(p),
    ensures
        ip::group_list(ip::colon_parts(split::of_parts(p, ':'))) == Some(groups_in(p)),
        ip::group_list_v4(ip::colon_parts(split::of_parts(p, ':'))) == Some(groups_in(p)),
{
    lemma_groups_in(p);
    let q = ip::colon_parts(split::of_parts(p, ':'));
    if p.len() == 0 {
        assert(q =~= p);
    } else {
        lemma_group_parts(p);
        assert(ip::group(p[p.len() - 1]) is Some);
        lemma_group_chars(p.last());
        split::lemma_split_one(p.last(), '.');
    }
}

/// However the groups are written, in lower or upper case and with or without zeros before them,
/// eight of them with a colon between each two are an address, and fewer or more are none.
pub proof fn groups_are_read_as_written(p: Seq<Seq<char>>)
    requires
        p.len() > 0,
        are_groups(p),
    ensures
        ip::ipv6(split::of_parts(p, ':')) == if p.len() == 8 {
            Some(groups_in(p))
        } else {
            None
        },
{
    let s = split::of_parts(p, ':');
    lemma_group_parts(p);
    lemma_group_parts_read(p);
    assert forall|i: int| !text::occurs_at(s, ip::gap(), i) by {
        lemma_no_gap(s, i);
    }
    assert(!text::contains_text(s, ip::gap()));
}

/// However the groups are written, a double colon stands for as many groups of zero as are
/// missing between those before and those behind it.
pub proof fn groups_around_a_double_colon_are_read_as_written(
    h: Seq<Seq<char>>,
    t: Seq<Seq<char>>,
)
    requires
        are_groups(h),
        are_groups(t),
    ensures
        ip::ipv6(split::of_parts(h, ':') + seq![':', ':'] + split::of_parts(t, ':')) == if h.len()
            + t.len() <= 7 {
            Some(
                groups_in(h) + Seq::new((8 - h.len() - t.len()) as nat, |i: int| 0u16)
                    + groups_in(t),
            )
        } else {
            None
        },
{
    let a = split::of_parts(h, ':');
    let b = split::of_parts(t, ':');
    let s = a + seq![':', ':'] + b;
    let k = a.len() as int;
    if h.len() > 0 {
        lemma_group_parts(h);
    }
    lemma_first_gap(a, b);
    lemma_group_parts_read(h);
    lemma_group_parts_read(t);
    assert(s.take(k) =~= a);
    assert(s.skip(k + 2) =~= b);
}

} // verus!
