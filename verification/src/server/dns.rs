//! Name servers: which ones there are, and how a query is put to them.

use vstd::prelude::*;
use vstd::slice::slice_subrange;

use crate::client;
use crate::ip;
use crate::ip::{read_ip, IpAddr, IpView};
use crate::ip_text;
use crate::server;
use crate::split;
use crate::split::lines_of;
use crate::ssnet::frame::{Frame, FrameView, CMD_DNS_RESPONSE};
use crate::text;
use crate::text::{chars_of, has_prefix, trimmed};

verus! {

/// The port of name servers.
pub const DNS_PORT: u16 = 53;

/// How long a name server has to answer.
pub const DNS_TIMEOUT_SECS: u64 = 5;

// --- resolv.conf ------------------------------------------------------------

/// What introduces a name server.
pub open spec fn keyword() -> Seq<char> {
    "nameserver"@
}

/// The name server that a line of a `resolv.conf` names, if it names one.
pub open spec fn nameserver(line: Seq<char>) -> Option<IpView> {
    let l = text::trim(line);
    if l.len() == 0 || l[0] == '#' || l[0] == ';' {
        None
    } else if text::starts_with(l, keyword()) {
        ip::ip(text::trim(l.skip(keyword().len() as int)))
    } else {
        None
    }
}

/// The name servers that these lines name, in order.
pub open spec fn nameservers(lines: Seq<Seq<char>>) -> Seq<IpView>
    decreases lines.len(),
{
    if lines.len() == 0 {
        seq![]
    } else {
        match nameserver(lines.last()) {
            Some(a) => nameservers(lines.drop_last()).push(a),
            None => nameservers(lines.drop_last()),
        }
    }
}

/// What a list of addresses says.
pub open spec fn ip_views(v: Seq<IpAddr>) -> Seq<IpView> {
    Seq::new(v.len(), |i: int| v[i]@)
}

/// Reads a line of a `resolv.conf`.
pub fn read_nameserver(line: &[char]) -> (r: Option<IpAddr>)
    ensures
        match r {
            Some(a) => nameserver(line@) == Some(a@),
            None => nameserver(line@) is None,
        },
{
    let l: &[char] = trimmed(line);
    let n: usize = l.len();
    if n == 0 || l[0] == '#' || l[0] == ';' {
        return None;
    }
    if !has_prefix(l, "nameserver") {
        return None;
    }
    proof {
        reveal_strlit("nameserver");
    }
    let rest: &[char] = slice_subrange(l, 10, n);
    assert(rest@ =~= l@.skip(keyword().len() as int));
    read_ip(trimmed(rest))
}

/// The name servers that the text of a `resolv.conf` names, in order.
pub fn parse_resolv_conf(s: &str) -> (r: Vec<IpAddr>)
    ensures
        ip_views(r@) == nameservers(split::lines(s@)),
{
    let v: Vec<char> = chars_of(s);
    let lines: Vec<&[char]> = lines_of(v.as_slice());
    let ghost all = split::lines(s@);
    let mut r: Vec<IpAddr> = Vec::new();
    let n: usize = lines.len();
    assert(ip_views(r@) =~= nameservers(all.take(0)));
    for i in 0..n
        invariant
            n == lines@.len(),
            text::parts(lines@) == all,
            ip_views(r@) == nameservers(all.take(i as int)),
    {
        let ghost before = ip_views(r@);
        assert(all.take(i + 1).drop_last() =~= all.take(i as int));
        assert(all[i as int] == lines@[i as int]@);
        match read_nameserver(lines[i]) {
            Some(a) => {
                r.push(a);
                assert(ip_views(r@) =~= before.push(a@));
            },
            None => {},
        }
    }
    assert(all.take(n as int) =~= all);
    r
}

/// The address that is asked where no name server is known.
pub open spec fn public_resolver() -> IpView {
    IpView::V4(seq![1u8, 1u8, 1u8, 1u8])
}

/// The name servers of a host with this `resolv.conf`, if it has one: there is always
/// at least one.
pub open spec fn resolver_list(conf: Option<Seq<char>>) -> Seq<IpView> {
    let found = match conf {
        Some(s) => nameservers(split::lines(s)),
        None => seq![],
    };
    if found.len() == 0 {
        seq![public_resolver()]
    } else {
        found
    }
}

/// What an optional text says.
pub open spec fn text_view(s: Option<&str>) -> Option<Seq<char>> {
    match s {
        Some(t) => Some(t@),
        None => None,
    }
}

/// The name servers of a host with this `resolv.conf`; `None` if it cannot be read.
pub fn resolvers(conf: Option<&str>) -> (r: Vec<IpAddr>)
    ensures
        ip_views(r@) == resolver_list(text_view(conf)),
        r@.len() > 0,
{
    let mut v: Vec<IpAddr> = match conf {
        Some(s) => parse_resolv_conf(s),
        None => Vec::new(),
    };
    let ghost found = match text_view(conf) {
        Some(s) => nameservers(split::lines(s)),
        None => seq![],
    };
    assert(ip_views(v@) =~= found);
    if v.len() == 0 {
        v.push(IpAddr::V4([1, 1, 1, 1]));
        assert(v@[0]@ == public_resolver()) by {
            let a: [u8; 4] = [1, 1, 1, 1];
            assert(a@ =~= seq![1u8, 1u8, 1u8, 1u8]);
        }
        assert(ip_views(v@) =~= seq![public_resolver()]);
    }
    v
}

// --- queries ----------------------------------------------------------------

/// What came of putting the query to a name server.
#[derive(Debug)]
pub enum LookupEvent {
    /// It sent this reply in time.
    Reply(Vec<u8>),
    /// It did not.
    Failed,
}

/// What to do next for a query.
#[derive(Debug)]
pub enum LookupStep {
    /// Put it to the name server of this number.
    Query(usize),
    /// Send this frame to the client; the query is dealt with.
    Answer(Frame),
}

/// What a `LookupStep` says.
#[verifier::ext_equal]
pub enum LookupStepView {
    Query(nat),
    Answer(FrameView),
}

impl View for LookupStep {
    type V = LookupStepView;

    open spec fn view(&self) -> LookupStepView {
        match self {
            LookupStep::Query(i) => LookupStepView::Query(*i as nat),
            LookupStep::Answer(f) => LookupStepView::Answer(f@),
        }
    }
}

/// What a `LookupEvent` says.
pub open spec fn reply_of(e: LookupEvent) -> Option<Seq<u8>> {
    match e {
        LookupEvent::Reply(b) => Some(b@),
        LookupEvent::Failed => None,
    }
}

/// The frame that answers a query.
pub open spec fn answer_frame(channel: u16, reply: Seq<u8>) -> FrameView {
    FrameView { channel, cmd: CMD_DNS_RESPONSE, data: reply }
}

/// What to do for a query that `at` of `count` name servers did not answer: ask the
/// next one, or give up with an empty answer.
pub open spec fn lookup_at(channel: u16, count: nat, at: nat) -> LookupStepView {
    if at < count {
        LookupStepView::Query(at)
    } else {
        LookupStepView::Answer(answer_frame(channel, seq![]))
    }
}

/// A query of the client: how many of the name servers there are have failed.
#[derive(Debug)]
pub struct Lookup {
    pub channel: u16,
    pub count: usize,
    pub at: usize,
}

impl Lookup {
    /// Starts a query that came on `channel`, with this many name servers to ask.
    pub fn new(channel: u16, count: usize) -> (r: (Lookup, LookupStep))
        ensures
            r.0 == (Lookup { channel, count, at: 0 }),
            r.1@ == lookup_at(channel, count as nat, 0),
    {
        let l: Lookup = Lookup { channel, count, at: 0 };
        let step: LookupStep = l.step();
        (l, step)
    }

    fn step(&self) -> (r: LookupStep)
        ensures
            r@ == lookup_at(self.channel, self.count as nat, self.at as nat),
    {
        if self.at < self.count {
            LookupStep::Query(self.at)
        } else {
            let data: Vec<u8> = Vec::new();
            assert(data@ =~= seq![]);
            LookupStep::Answer(Frame::new(self.channel, CMD_DNS_RESPONSE, data))
        }
    }

    /// What to do next, after what came of the last name server.
    pub fn next(&mut self, event: LookupEvent) -> (r: LookupStep)
        requires
            old(self).at < old(self).count,
        ensures
            final(self).channel == old(self).channel,
            final(self).count == old(self).count,
            match reply_of(event) {
                Some(b) => {
                    &&& final(self).at == old(self).at
                    &&& r@ == LookupStepView::Answer(answer_frame(old(self).channel, b))
                },
                None => {
                    &&& final(self).at == old(self).at + 1
                    &&& r@ == lookup_at(
                        old(self).channel,
                        old(self).count as nat,
                        old(self).at as nat + 1,
                    )
                },
            },
    {
        match event {
            LookupEvent::Reply(b) => LookupStep::Answer(
                Frame::new(self.channel, CMD_DNS_RESPONSE, b),
            ),
            LookupEvent::Failed => {
                self.at = self.at + 1;
                self.step()
            },
        }
    }
}

// --- laws -------------------------------------------------------------------

/// Where a query stands that `at` of `count` name servers did not answer, after what
/// came of the next ones.
pub open spec fn lookup_run(
    channel: u16,
    count: nat,
    at: nat,
    replies: Seq<Option<Seq<u8>>>,
) -> LookupStepView
    decreases replies.len(),
{
    match lookup_at(channel, count, at) {
        LookupStepView::Answer(f) => LookupStepView::Answer(f),
        LookupStepView::Query(i) => if replies.len() == 0 {
            LookupStepView::Query(i)
        } else {
            match replies[0] {
                Some(b) => LookupStepView::Answer(answer_frame(channel, b)),
                None => lookup_run(channel, count, at + 1, replies.drop_first()),
            }
        },
    }
}

/// The first name server that replies has the last word: its reply is what the client
/// gets, whatever the later ones would have said.
pub proof fn first_reply_is_the_answer(
    channel: u16,
    count: nat,
    at: nat,
    replies: Seq<Option<Seq<u8>>>,
    i: int,
)
    requires
        0 <= i < replies.len(),
        at + replies.len() <= count,
        replies[i] is Some,
        forall|j: int| 0 <= j < i ==> (#[trigger] replies[j]) is None,
    ensures
        lookup_run(channel, count, at, replies) == LookupStepView::Answer(
            answer_frame(channel, replies[i]->0),
        ),
    decreases i,
{
    if i > 0 {
        let rest = replies.drop_first();
        assert(replies[0] is None);
        assert forall|j: int| 0 <= j < i - 1 implies (#[trigger] rest[j]) is None by {
            assert(rest[j] == replies[j + 1]);
        }
        first_reply_is_the_answer(channel, count, at + 1, rest, i - 1);
    }
}

/// Where no name server replies, each one is asked once and in order, and the client
/// gets an empty answer in the end.
pub proof fn silence_is_answered_empty(
    channel: u16,
    count: nat,
    at: nat,
    replies: Seq<Option<Seq<u8>>>,
)
    requires
        at + replies.len() <= count,
        forall|j: int| 0 <= j < replies.len() ==> (#[trigger] replies[j]) is None,
    ensures
        lookup_run(channel, count, at, replies) == if at + replies.len() < count {
            LookupStepView::Query(at + replies.len())
        } else {
            LookupStepView::Answer(answer_frame(channel, seq![]))
        },
    decreases replies.len(),
{
    if replies.len() > 0 {
        let rest = replies.drop_first();
        assert(replies[0] is None);
        assert forall|j: int| 0 <= j < rest.len() implies (#[trigger] rest[j]) is None by {
            assert(rest[j] == replies[j + 1]);
        }
        silence_is_answered_empty(channel, count, at + 1, rest);
    }
}

/// A DNS query reaches the name servers as it was asked, and the reply of a name
/// server goes back to the one who asked; an empty one goes to nobody.
pub proof fn query_comes_back_as_reply<S, P, T, U>(
    m: client::ClientView<S, P>,
    s: server::ServerView<T, U>,
    peer: P,
    query: Seq<u8>,
    reply: Seq<u8>,
)
    ensures
        ({
            let (asked, f) = client::ask_step(m, peer, query);
            let (answered, action) = client::client_step(asked, answer_frame(f.channel, reply));
            &&& server::server_step(s, f) == (
                s,
                server::ServerActionView::Resolve { channel: f.channel, query },
            )
            &&& reply.len() > 0 ==> action == client::ClientActionView::Answer {
                peer,
                data: reply,
            }
            &&& reply.len() == 0 ==> action == client::ClientActionView::<P>::Ignore
            &&& !answered.queries.contains_key(f.channel)
        }),
{
}

// --- laws of the name servers -----------------------------------------------

proof fn lemma_plain_is_solid(s: Seq<char>)
    requires
        ip_text::is_plain(s),
        s.len() > 0,
    ensures
        !text::is_white(s[0]),
        !text::is_white(s.last()),
{
    text::plain_white_space(s[0]);
    text::plain_white_space(s.last());
}

/// A line with the word `nameserver` and an address names that address, whatever white space
/// stands around the two.
pub proof fn line_names_its_address(
    before: Seq<char>,
    between: Seq<char>,
    a: IpView,
    after: Seq<char>,
)
    requires
        text::all_white(before),
        text::all_white(between),
        text::all_white(after),
        ip_text::is_address(a),
    ensures
        nameserver(before + "nameserver"@ + between + ip_text::ip_text(a) + after) == Some(a),
{
    let word = "nameserver"@;
    let t = ip_text::ip_text(a);
    let none = Seq::<char>::empty();
    reveal_strlit("nameserver");
    ip_text::address_is_one_word(a);
    ip_text::ip_text_reads_back(a);
    lemma_plain_is_solid(t);
    let l = word + between + t;
    assert(l[0] == 'n');
    assert(l.last() == t.last());
    text::white_space_around_is_trimmed(before, l, after);
    assert(before + word + between + t + after =~= before + l + after);
    assert(l.take(10) =~= word);
    assert(l.skip(10) =~= between + t + none);
    text::white_space_around_is_trimmed(between, t, none);
}

/// A line that starts with `#` or `;`, after whatever white space, names none, and neither
/// does one of white space alone.
pub proof fn comment_names_none(before: Seq<char>, c: char, rest: Seq<char>)
    requires
        text::all_white(before),
        c == '#' || c == ';',
    ensures
        nameserver(before + seq![c] + rest) is None,
        nameserver(before) is None,
{
    text::trimmed_text_starts_with(before, c, rest);
    text::white_space_alone_is_trimmed(before);
}

/// A line that starts with another word names none.
pub proof fn other_line_names_none(line: Seq<char>)
    requires
        !text::starts_with(text::trim(line), "nameserver"@),
    ensures
        nameserver(line) is None,
{
}

/// The name servers of several lines are those of the first of them and then those of the
/// others, and one line has the one that it names, if it names one.
pub proof fn name_servers_come_line_by_line(a: Seq<Seq<char>>, b: Seq<Seq<char>>, line: Seq<char>)
    ensures
        nameservers(a + b) == nameservers(a) + nameservers(b),
        nameservers(seq![line]) == match nameserver(line) {
            Some(x) => seq![x],
            None => seq![],
        },
    decreases b.len(),
{
    assert(seq![line].drop_last() =~= seq![]);
    if b.len() == 0 {
        assert(a + b =~= a);
        assert(nameservers(a) + nameservers(b) =~= nameservers(a));
    } else {
        let rest = b.drop_last();
        name_servers_come_line_by_line(a, rest, line);
        assert((a + b).drop_last() =~= a + rest);
        assert((a + b).last() == b.last());
        assert(nameservers(a + b) =~= nameservers(a) + nameservers(b));
    }
    assert(nameservers(seq![line].drop_last()) =~= seq![]);
    assert(seq![line].last() == line);
    assert(nameservers(seq![line]) =~= match nameserver(line) {
        Some(x) => seq![x],
        None => seq![],
    });
}

/// The line that names an address.
pub open spec fn naming_line(a: IpView) -> Seq<char> {
    "nameserver "@ + ip_text::ip_text(a)
}

/// The lines that name these addresses.
pub open spec fn naming_lines(all: Seq<IpView>) -> Seq<Seq<char>> {
    Seq::new(all.len(), |i: int| naming_line(all[i]))
}

proof fn lemma_naming_line(a: IpView)
    requires
        ip_text::is_address(a),
    ensures
        nameserver(naming_line(a)) == Some(a),
        split::is_line(naming_line(a)),
{
    let none = Seq::<char>::empty();
    let blank = seq![' '];
    let l = naming_line(a);
    reveal_strlit("nameserver ");
    reveal_strlit("nameserver");
    line_names_its_address(none, blank, a, none);
    assert(none + "nameserver"@ + blank + ip_text::ip_text(a) + none =~= l);
    ip_text::address_is_one_word(a);
    assert forall|i: int| 0 <= i < l.len() implies l[i] != '\n' && l[i] != '\r' by {
        if i >= 11 {
            assert(l[i] == ip_text::ip_text(a)[i - 11]);
        }
    }
}

proof fn lemma_naming_lines(all: Seq<IpView>)
    requires
        forall|i: int| 0 <= i < all.len() ==> ip_text::is_address(#[trigger] all[i]),
    ensures
        nameservers(naming_lines(all)) == all,
    decreases all.len(),
{
    if all.len() > 0 {
        let rest = all.drop_last();
        assert forall|i: int| 0 <= i < rest.len() implies ip_text::is_address(
            #[trigger] rest[i],
        ) by {
            assert(rest[i] == all[i]);
        }
        lemma_naming_lines(rest);
        assert(ip_text::is_address(all[all.len() - 1]));
        lemma_naming_line(all.last());
        assert(naming_lines(all).drop_last() =~= naming_lines(rest));
        assert(rest.push(all.last()) =~= all);
    } else {
        assert(nameservers(naming_lines(all)) =~= all);
    }
}

/// The name servers of a host whose `resolv.conf` names some are those, all of them and in
/// order, of either address family; the public one does not stand in.
pub proof fn named_servers_are_asked(all: Seq<IpView>)
    requires
        all.len() > 0,
        forall|i: int| 0 <= i < all.len() ==> ip_text::is_address(#[trigger] all[i]),
    ensures
        resolver_list(Some(split::of_lines(naming_lines(all)))) == all,
{
    naming_lines_read_back(all);
}

/// A file with one line for each address names these addresses.
pub proof fn naming_lines_read_back(all: Seq<IpView>)
    requires
        forall|i: int| 0 <= i < all.len() ==> ip_text::is_address(#[trigger] all[i]),
    ensures
        nameservers(split::lines(split::of_lines(naming_lines(all)))) == all,
{
    let ls = naming_lines(all);
    assert forall|i: int| 0 <= i < ls.len() implies split::is_line(#[trigger] ls[i]) by {
        assert(ip_text::is_address(all[i]));
        lemma_naming_line(all[i]);
    }
    split::lines_read_back(ls);
    lemma_naming_lines(all);
}

/// Lines that name no server make no difference, wherever they stand.
pub proof fn other_lines_make_no_difference(
    before: Seq<Seq<char>>,
    line: Seq<char>,
    after: Seq<Seq<char>>,
)
    requires
        forall|i: int| 0 <= i < before.len() ==> split::is_line(#[trigger] before[i]),
        forall|i: int| 0 <= i < after.len() ==> split::is_line(#[trigger] after[i]),
        split::is_line(line),
        nameserver(line) is None,
    ensures
        resolver_list(Some(split::of_lines(before + seq![line] + after))) == resolver_list(
            Some(split::of_lines(before + after)),
        ),
{
    let all = before + seq![line] + after;
    let some = before + after;
    assert forall|i: int| 0 <= i < all.len() implies split::is_line(#[trigger] all[i]) by {
        if i < before.len() {
            assert(all[i] == before[i]);
        } else if i > before.len() {
            assert(all[i] == after[i - before.len() - 1]);
        }
    }
    assert forall|i: int| 0 <= i < some.len() implies split::is_line(#[trigger] some[i]) by {
        if i < before.len() {
            assert(some[i] == before[i]);
        } else {
            assert(some[i] == after[i - before.len()]);
        }
    }
    split::lines_read_back(all);
    split::lines_read_back(some);
    name_servers_come_line_by_line(before + seq![line], after, line);
    name_servers_come_line_by_line(before, seq![line], line);
    name_servers_come_line_by_line(before, after, line);
    assert(nameservers(before) + nameservers(seq![line]) =~= nameservers(before));
}

/// The public name server stands in just where the file cannot be read or no line of it names
/// a server; otherwise the name servers are those that the lines name.
pub proof fn public_server_stands_in_for_none(conf: Option<Seq<char>>)
    ensures
        ({
            let silent = conf is None || forall|i: int|
                0 <= i < split::lines(conf->0).len() ==> nameserver(
                    #[trigger] split::lines(conf->0)[i],
                ) is None;
            &&& silent ==> resolver_list(conf) == seq![IpView::V4(seq![1u8, 1u8, 1u8, 1u8])]
            &&& !silent ==> resolver_list(conf) == nameservers(split::lines(conf->0))
        }),
{
    if let Some(s) = conf {
        lemma_none_named(split::lines(s));
    }
}

proof fn lemma_none_named(ls: Seq<Seq<char>>)
    ensures
        nameservers(ls).len() == 0 <==> forall|i: int|
            0 <= i < ls.len() ==> nameserver(#[trigger] ls[i]) is None,
    decreases ls.len(),
{
    if ls.len() > 0 {
        let rest = ls.drop_last();
        lemma_none_named(rest);
        if nameservers(ls).len() == 0 {
            assert forall|i: int| 0 <= i < ls.len() implies nameserver(
                #[trigger] ls[i],
            ) is None by {
                if i < rest.len() {
                    assert(rest[i] == ls[i]);
                }
            }
        } else if forall|i: int| 0 <= i < ls.len() ==> nameserver(#[trigger] ls[i]) is None {
            assert forall|i: int| 0 <= i < rest.len() implies nameserver(
                #[trigger] rest[i],
            ) is None by {
                assert(rest[i] == ls[i]);
            }
            assert(nameserver(ls[ls.len() - 1]) is None);
        }
    }
}

/// A line names what stands behind its first word `nameserver`, if that is an address.
pub proof fn line_is_read_behind_its_word(
    before: Seq<char>,
    between: Seq<char>,
    rest: Seq<char>,
    after: Seq<char>,
)
    requires
        text::all_white(before),
        text::all_white(between),
        text::all_white(after),
        rest.len() > 0,
        !text::is_white(rest[0]),
        !text::is_white(rest.last()),
    ensures
        nameserver(before + "nameserver"@ + between + rest + after) == ip::ip(rest),
{
    let word = "nameserver"@;
    let none = Seq::<char>::empty();
    reveal_strlit("nameserver");
    let l = word + between + rest;
    assert(l[0] == 'n');
    assert(l.last() == rest.last());
    text::white_space_around_is_trimmed(before, l, after);
    assert(before + word + between + rest + after =~= before + l + after);
    assert(l.take(10) =~= word);
    assert(l.skip(10) =~= between + rest + none);
    text::white_space_around_is_trimmed(between, rest, none);
}

} // verus!
