//! The hosts that the server knows by name.

use vstd::prelude::*;

use crate::server::dns;
use crate::split;
use crate::split::{lines_of, words_of};
use crate::ssnet::frame::{Frame, FrameView, CMD_HOST_LIST};
use crate::ssnet::payload;
use crate::ssnet::payload::encode_host_list;
use crate::text;
use crate::text::{chars_of, string_of, trimmed, CharClass};

verus! {

/// A name and an address.
pub type HostView = (Seq<char>, Seq<char>);

/// The names among these words, up to the first that starts a comment, each with the
/// address `ip`.
pub open spec fn named(words: Seq<Seq<char>>, ip: Seq<char>) -> Seq<HostView>
    decreases words.len(),
{
    if words.len() == 0 || (words[0].len() > 0 && words[0][0] == '#') {
        seq![]
    } else {
        seq![(words[0], ip)] + named(words.drop_first(), ip)
    }
}

/// The hosts that a line of a hosts file names: its first word is the address of all
/// the others.
pub open spec fn line_hosts(line: Seq<char>) -> Seq<HostView> {
    let l = text::trim(line);
    if l.len() == 0 || l[0] == '#' {
        seq![]
    } else {
        let w = split::words(l);
        if w.len() == 0 {
            seq![]
        } else {
            named(w.drop_first(), w[0])
        }
    }
}

/// The hosts that these lines name, in order.
pub open spec fn hosts_of(lines: Seq<Seq<char>>) -> Seq<HostView>
    decreases lines.len(),
{
    if lines.len() == 0 {
        seq![]
    } else {
        hosts_of(lines.drop_last()) + line_hosts(lines.last())
    }
}

fn read_line(line: &[char], out: &mut Vec<(String, String)>)
    ensures
        payload::host_views(final(out)@) == payload::host_views(old(out)@) + line_hosts(line@),
{
    let l: &[char] = trimmed(line);
    let ghost start = payload::host_views(out@);
    if l.len() == 0 || l[0] == '#' {
        assert(start + line_hosts(line@) =~= start);
        return ;
    }
    let words: Vec<&[char]> = words_of(l);
    let ghost w = split::words(l@);
    let n: usize = words.len();
    if n == 0 {
        assert(start + line_hosts(line@) =~= start);
        return ;
    }
    assert(w[0] == words@[0]@);
    let ghost names = w.drop_first();
    let mut i: usize = 1;
    assert(names.skip(0) =~= names);
    while i < n
        invariant
            1 <= i <= n,
            n == words@.len(),
            text::parts(words@) == w,
            w[0] == words@[0]@,
            names == w.drop_first(),
            start == payload::host_views(old(out)@),
            line_hosts(line@) == named(names, w[0]),
            payload::host_views(out@) + named(names.skip(i - 1), w[0]) =~= start + named(
                names,
                w[0],
            ),
        decreases n - i,
    {
        let ghost before = payload::host_views(out@);
        let ghost rest = names.skip(i - 1);
        let name: &[char] = words[i];
        assert(rest[0] == name@) by {
            assert(w[i as int] == words@[i as int]@);
        }
        if name.len() > 0 && name[0] == '#' {
            assert(named(rest, w[0]) =~= seq![]);
            assert(payload::host_views(out@) =~= start + named(names, w[0]));
            return ;
        }
        let entry: (String, String) = (string_of(name), string_of(words[0]));
        out.push(entry);
        assert(payload::host_views(out@) =~= before.push((name@, w[0])));
        assert(rest.drop_first() =~= names.skip(i as int));
        assert(payload::host_views(out@) + named(names.skip(i as int), w[0]) =~= before + named(
            rest,
            w[0],
        ));
        i += 1;
    }
    assert(names.skip(n - 1) =~= seq![]);
    assert(payload::host_views(out@) =~= start + named(names, w[0]));
}

/// The hosts that the text of a hosts file names, in order, each with its address.
pub fn read_etc_hosts(s: &str) -> (r: Vec<(String, String)>)
    ensures
        payload::host_views(r@) == hosts_of(split::lines(s@)),
{
    let v: Vec<char> = chars_of(s);
    let lines: Vec<&[char]> = lines_of(v.as_slice());
    let ghost all = split::lines(s@);
    let mut r: Vec<(String, String)> = Vec::new();
    let n: usize = lines.len();
    assert(payload::host_views(r@) =~= hosts_of(all.take(0)));
    for i in 0..n
        invariant
            n == lines@.len(),
            text::parts(lines@) == all,
            payload::host_views(r@) == hosts_of(all.take(i as int)),
    {
        assert(all.take(i + 1).drop_last() =~= all.take(i as int));
        assert(all[i as int] == lines@[i as int]@);
        read_line(lines[i], &mut r);
    }
    assert(all.take(n as int) =~= all);
    r
}

/// The hosts that the client is told of: those of the hosts file, none if it cannot
/// be read.
pub open spec fn known_hosts(file: Option<Seq<char>>) -> Seq<HostView> {
    match file {
        Some(s) => hosts_of(split::lines(s)),
        None => seq![],
    }
}

/// The frame that tells the client the hosts of this hosts file; `None` if it cannot
/// be read.
pub open spec fn host_list_view(file: Option<Seq<char>>) -> FrameView {
    FrameView { channel: 0, cmd: CMD_HOST_LIST, data: payload::host_list(known_hosts(file)) }
}

/// The frame that tells the client the hosts of this hosts file; `None` if it cannot
/// be read.
pub fn host_list_frame(file: Option<&str>) -> (r: Frame)
    ensures
        r@ == host_list_view(dns::text_view(file)),
{
    let hosts: Vec<(String, String)> = match file {
        Some(s) => read_etc_hosts(s),
        None => Vec::new(),
    };
    assert(payload::host_views(hosts@) =~= known_hosts(dns::text_view(file)));
    Frame::new(0, CMD_HOST_LIST, encode_host_list(hosts.as_slice()))
}

// --- laws -------------------------------------------------------------------

/// The text is free of white space.
pub open spec fn solid(s: Seq<char>) -> bool {
    forall|j: int| 0 <= j < s.len() ==> !text::in_class(CharClass::White, #[trigger] s[j])
}

/// Names and addresses of the list are free of white space.
pub open spec fn all_solid(hosts: Seq<HostView>) -> bool {
    forall|i: int| 0 <= i < hosts.len() ==> solid((#[trigger] hosts[i]).0) && solid(hosts[i].1)
}

proof fn lemma_named_solid(words: Seq<Seq<char>>, ip: Seq<char>)
    requires
        solid(ip),
        forall|i: int| 0 <= i < words.len() ==> solid(#[trigger] words[i]),
    ensures
        all_solid(named(words, ip)),
    decreases words.len(),
{
    if words.len() > 0 {
        let rest = words.drop_first();
        assert forall|i: int| 0 <= i < rest.len() implies solid(#[trigger] rest[i]) by {
            assert(rest[i] == words[i + 1]);
        }
        lemma_named_solid(rest, ip);
        assert(solid(words[0]));
    }
}

proof fn lemma_hosts_solid(lines: Seq<Seq<char>>)
    ensures
        all_solid(hosts_of(lines)),
    decreases lines.len(),
{
    if lines.len() > 0 {
        lemma_hosts_solid(lines.drop_last());
        let l = text::trim(lines.last());
        let w = split::words(l);
        split::lemma_words(l);
        assert forall|i: int| 0 <= i < w.len() implies solid(#[trigger] w[i]) by {}
        if w.len() > 0 {
            let rest = w.drop_first();
            assert forall|i: int| 0 <= i < rest.len() implies solid(#[trigger] rest[i]) by {
                assert(rest[i] == w[i + 1]);
            }
            lemma_named_solid(rest, w[0]);
        }
    }
}

/// The list that the client is told has one line for each host of the hosts file, in
/// order, whatever the file holds.
pub proof fn client_is_told_every_host(file: Seq<char>)
    requires
        hosts_of(split::lines(file)).len() > 0,
    ensures
        split::split(payload::host_list(known_hosts(Some(file))), 0x0a) == payload::host_lines(
            hosts_of(split::lines(file)),
        ),
{
    let hosts = hosts_of(split::lines(file));
    lemma_hosts_solid(split::lines(file));
    assert forall|i: int| 0 <= i < hosts.len() implies !(#[trigger] hosts[i]).0.contains('\n')
        && !hosts[i].1.contains('\n') by {
        lemma_solid_is_one_line(hosts[i].0);
        lemma_solid_is_one_line(hosts[i].1);
    }
    payload::host_list_cuts_into_lines(hosts);
}

proof fn lemma_solid_is_one_line(s: Seq<char>)
    requires
        solid(s),
    ensures
        !s.contains('\n'),
{
    if s.contains('\n') {
        let j = choose|j: int| 0 <= j < s.len() && s[j] == '\n';
        assert(text::in_class(CharClass::White, s[j]));
    }
}

// --- what a hosts file says -------------------------------------------------

proof fn lemma_word_ends(ws: Seq<Seq<char>>)
    requires
        ws.len() > 0,
        forall|i: int| 0 <= i < ws.len() ==> split::is_word(#[trigger] ws[i]),
    ensures
        ({
            let s = split::of_words(ws);
            &&& s.len() > 0
            &&& s[0] == ws[0][0]
            &&& !text::is_white(s[0])
            &&& !text::is_white(s.last())
        }),
    decreases ws.len(),
{
    assert(split::is_word(ws[0]));
    assert(!text::in_class(CharClass::White, ws[0][0]));
    assert(!text::in_class(CharClass::White, ws[0][ws[0].len() - 1]));
    if ws.len() > 1 {
        let rest = ws.drop_first();
        assert forall|i: int| 0 <= i < rest.len() implies split::is_word(#[trigger] rest[i]) by {
            assert(rest[i] == ws[i + 1]);
        }
        lemma_word_ends(rest);
        let s = split::of_words(ws);
        assert(s.last() == split::of_words(rest).last());
    }
}

/// The word starts a comment.
pub open spec fn starts_comment(s: Seq<char>) -> bool {
    s.len() > 0 && s[0] == '#'
}

proof fn lemma_named(names: Seq<Seq<char>>, comment: Seq<Seq<char>>, ip: Seq<char>)
    requires
        forall|i: int| 0 <= i < names.len() ==> !starts_comment(#[trigger] names[i]),
        comment.len() > 0 ==> starts_comment(comment[0]),
    ensures
        named(names + comment, ip) == Seq::new(names.len(), |i: int| (names[i], ip)),
    decreases names.len(),
{
    let all = names + comment;
    if names.len() == 0 {
        assert(all =~= comment);
        assert(named(all, ip) =~= Seq::new(names.len(), |i: int| (names[i], ip)));
    } else {
        let rest = names.drop_first();
        assert(!starts_comment(names[0]));
        assert forall|i: int| 0 <= i < rest.len() implies !starts_comment(#[trigger] rest[i]) by {
            assert(rest[i] == names[i + 1]);
        }
        lemma_named(rest, comment, ip);
        assert(all[0] == names[0]);
        assert(all.drop_first() =~= rest + comment);
        assert(named(all, ip) =~= Seq::new(names.len(), |i: int| (names[i], ip)));
    }
}

/// A line of a hosts file is an address, names, and perhaps a comment, which starts with a word
/// that starts with `#`. It gives every name before the comment that address, in order.
pub proof fn line_gives_names_their_address(
    ip: Seq<char>,
    names: Seq<Seq<char>>,
    comment: Seq<Seq<char>>,
)
    requires
        split::is_word(ip),
        !starts_comment(ip),
        forall|i: int|
            0 <= i < names.len() ==> split::is_word(#[trigger] names[i]) && !starts_comment(
                names[i],
            ),
        forall|i: int| 0 <= i < comment.len() ==> split::is_word(#[trigger] comment[i]),
        comment.len() > 0 ==> starts_comment(comment[0]),
    ensures
        line_hosts(split::of_words(seq![ip] + names + comment)) == Seq::new(
            names.len(),
            |i: int| (names[i], ip),
        ),
{
    let ws = seq![ip] + names + comment;
    let n = names.len() as int;
    assert forall|i: int| 0 <= i < ws.len() implies split::is_word(#[trigger] ws[i]) by {
        if 0 < i <= n {
            assert(ws[i] == names[i - 1]);
        } else if i > n {
            assert(ws[i] == comment[i - 1 - n]);
        }
    }
    lemma_word_ends(ws);
    let l = split::of_words(ws);
    text::lemma_trim_same(l);
    split::words_read_back(ws);
    assert(ws.drop_first() =~= names + comment);
    assert forall|i: int| 0 <= i < names.len() implies !starts_comment(#[trigger] names[i]) by {
        assert(split::is_word(names[i]));
    }
    lemma_named(names, comment, ip);
}

/// A line of white space alone, or one that starts with `#` after white space, names no host.
pub proof fn comment_line_names_no_host(before: Seq<char>, rest: Seq<char>)
    requires
        text::all_white(before),
    ensures
        line_hosts(before).len() == 0,
        line_hosts(before + seq!['#'] + rest).len() == 0,
{
    text::white_space_alone_is_trimmed(before);
    text::trimmed_text_starts_with(before, '#', rest);
}

/// The hosts of several lines are those of the first of them and then those of the others.
pub proof fn hosts_come_line_by_line(a: Seq<Seq<char>>, b: Seq<Seq<char>>, line: Seq<char>)
    ensures
        hosts_of(a + b) == hosts_of(a) + hosts_of(b),
        hosts_of(seq![line]) == line_hosts(line),
    decreases b.len(),
{
    if b.len() == 0 {
        assert(a + b =~= a);
        assert(hosts_of(a) + hosts_of(b) =~= hosts_of(a));
    } else {
        hosts_come_line_by_line(a, b.drop_last(), line);
        assert((a + b).drop_last() =~= a + b.drop_last());
        assert((a + b).last() == b.last());
        assert(hosts_of(a + b) =~= hosts_of(a) + hosts_of(b));
    }
    assert(seq![line].last() == line);
    assert(hosts_of(seq![line].drop_last()) =~= seq![]);
    assert(hosts_of(seq![line]) =~= line_hosts(line));
}

/// A client is told, on channel 0, the hosts that the lines of the file name, and none where
/// the file cannot be read.
pub proof fn hosts_of_the_file_are_told(ls: Seq<Seq<char>>)
    requires
        forall|i: int| 0 <= i < ls.len() ==> split::is_line(#[trigger] ls[i]),
    ensures
        host_list_view(Some(split::of_lines(ls))) == (FrameView {
            channel: 0,
            cmd: 0x4209,
            data: payload::host_list(hosts_of(ls)),
        }),
        host_list_view(None) == (FrameView { channel: 0, cmd: 0x4209, data: seq![] }),
{
    split::lines_read_back(ls);
}

/// A line, of whatever white space and words, gives its first word as the address to the words
/// behind it, in order, up to the first that starts a comment; unless the first word does so
/// itself.
pub proof fn line_is_read_by_its_words(line: Seq<char>)
    ensures
        ({
            let w = split::words(line);
            let hosts = line_hosts(line);
            let n = hosts.len() as int;
            if w.len() == 0 || starts_comment(w[0]) {
                n == 0
            } else {
                &&& n < w.len()
                &&& forall|i: int|
                    0 <= i < n ==> {
                        &&& #[trigger] hosts[i] == (w[i + 1], w[0])
                        &&& !starts_comment(w[i + 1])
                    }
                &&& n + 1 < w.len() ==> starts_comment(w[n + 1])
            }
        }),
{
    let l = text::trim(line);
    let w = split::words(line);
    split::trimmed_text_has_the_same_words(line);
    lemma_first_word(line);
    if w.len() > 0 {
        let names = w.drop_first();
        lemma_named_words(names, w[0]);
        let hosts = named(names, w[0]);
        assert forall|i: int| 0 <= i < hosts.len() implies {
            &&& #[trigger] hosts[i] == (w[i + 1], w[0])
            &&& !starts_comment(w[i + 1])
        } by {
            assert(names[i] == w[i + 1]);
        }
    }
}

proof fn lemma_first_word(line: Seq<char>)
    ensures
        ({
            let l = text::trim(line);
            let w = split::words(l);
            &&& l.len() == 0 ==> w.len() == 0
            &&& l.len() > 0 ==> w.len() > 0 && w[0].len() > 0 && w[0][0] == l[0]
        }),
{
    let t = text::trim_start(line, CharClass::White);
    let l = text::trim(line);
    text::lemma_trim_start_len(line, CharClass::White);
    if t.len() > 0 {
        text::lemma_trim_end_keeps_start(t, CharClass::White);
        assert(text::trim_start(l, CharClass::White) == l);
        split::lemma_word_len(l);
        assert(split::words(l)[0] == l.take(split::word_len(l) as int));
    } else {
        assert(l.len() == 0);
        assert(text::trim_start(l, CharClass::White).len() == 0);
    }
}

proof fn lemma_named_words(names: Seq<Seq<char>>, ip: Seq<char>)
    ensures
        ({
            let hosts = named(names, ip);
            let n = hosts.len() as int;
            &&& n <= names.len()
            &&& forall|i: int|
                0 <= i < n ==> #[trigger] hosts[i] == (names[i], ip) && !starts_comment(names[i])
            &&& n < names.len() ==> starts_comment(names[n])
        }),
    decreases names.len(),
{
    if names.len() > 0 && !starts_comment(names[0]) {
        let rest = names.drop_first();
        lemma_named_words(rest, ip);
        let hosts = named(names, ip);
        let tail = named(rest, ip);
        assert forall|i: int| 0 <= i < hosts.len() implies #[trigger] hosts[i] == (names[i], ip)
            && !starts_comment(names[i]) by {
            if i > 0 {
                assert(hosts[i] == tail[i - 1]);
                assert(rest[i - 1] == names[i]);
            }
        }
        if tail.len() < rest.len() {
            assert(rest[tail.len() as int] == names[tail.len() as int + 1]);
        }
    }
}

} // verus!
