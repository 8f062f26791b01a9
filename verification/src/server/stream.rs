//! What a server writes for all that it reads.

use vstd::prelude::*;

use crate::server;
use crate::server::hosts;
use crate::server::{ServerActionView, ServerView};
use crate::ssnet::frame;
use crate::ssnet::frame::{FrameView, ReadResult, CMD_EXIT, CMD_PING, CMD_PONG};
use crate::ssnet::sync;
use crate::ssnet::sync::SYNC_HEADER;

verus! {

/// The frames that a server sends at once for those that it reads from `s`, after which the
/// stream ends: the frames that wait for a target or a name server are not among them. The
/// hosts file holds `file`, if it can be read.
pub open spec fn answers<T, U>(m: ServerView<T, U>, s: Seq<u8>, file: Option<Seq<char>>) -> Seq<
    FrameView,
>
    decreases s.len(),
{
    match frame::read_stream(s) {
        (ReadResult::Frame(f), n) => {
            let (after, action) = server::server_step(m, f);
            let rest = answers(after, s.skip(n), file);
            match action {
                ServerActionView::Exit => seq![],
                ServerActionView::Send(g) => seq![g] + rest,
                ServerActionView::ListHosts => seq![hosts::host_list_view(file)] + rest,
                _ => rest,
            }
        },
        _ => seq![],
    }
}

/// The bytes of these frames, up to the first that is too long to be written.
pub open spec fn written_out(fs: Seq<FrameView>) -> Seq<u8>
    decreases fs.len(),
{
    if fs.len() == 0 || !frame::fits(fs[0]) {
        seq![]
    } else {
        frame::frame_bytes(fs[0]) + written_out(fs.drop_first())
    }
}

/// A server that has nothing open yet.
pub open spec fn fresh<T, U>() -> ServerView<T, U> {
    ServerView { tcp: Map::empty(), udp: Map::empty() }
}

/// The frames that a server sends, its greeting first, when it reads `s`; without those that
/// wait for a target or a name server.
pub open spec fn sent_for<T, U>(s: Seq<u8>, file: Option<Seq<char>>) -> Seq<FrameView> {
    server::greeting_frames() + answers(fresh::<T, U>(), s, file)
}

/// The bytes that a server writes when it reads `s` and no target or name server has it send
/// a frame.
pub open spec fn output<T, U>(s: Seq<u8>, file: Option<Seq<char>>) -> Seq<u8> {
    SYNC_HEADER@ + written_out(sent_for::<T, U>(s, file))
}

/// The frames that a server sends at once for these frames.
pub open spec fn replies<T, U>(
    m: ServerView<T, U>,
    fs: Seq<FrameView>,
    file: Option<Seq<char>>,
) -> Seq<FrameView>
    decreases fs.len(),
{
    if fs.len() == 0 {
        seq![]
    } else {
        let (after, action) = server::server_step(m, fs[0]);
        let rest = replies(after, fs.drop_first(), file);
        match action {
            ServerActionView::Exit => seq![],
            ServerActionView::Send(g) => seq![g] + rest,
            ServerActionView::ListHosts => seq![hosts::host_list_view(file)] + rest,
            _ => rest,
        }
    }
}

/// All the frames can be written.
pub open spec fn all_fit(fs: Seq<FrameView>) -> bool {
    forall|i: int| 0 <= i < fs.len() ==> frame::fits(#[trigger] fs[i])
}

/// What a server sends for a stream of frames is what it sends for the frames, where the
/// last one asks for the end.
proof fn lemma_answers<T, U>(
    m: ServerView<T, U>,
    fs: Seq<FrameView>,
    tail: Seq<u8>,
    file: Option<Seq<char>>,
)
    requires
        all_fit(fs),
        fs.len() > 0,
        fs.last().cmd == CMD_EXIT,
    ensures
        answers(m, frame::frames_bytes(fs) + tail, file) == replies(m, fs, file),
    decreases fs.len(),
{
    let s = frame::frames_bytes(fs) + tail;
    let rest = fs.drop_first();
    let more = frame::frames_bytes(rest) + tail;
    assert(s =~= frame::frame_bytes(fs[0]) + more);
    frame::frame_reads_back(fs[0], more);
    assert(s.skip(frame::frame_bytes(fs[0]).len() as int) =~= more);
    if fs[0].cmd != CMD_EXIT {
        assert(rest.len() > 0);
        assert(rest.last() == fs.last());
        assert forall|i: int| 0 <= i < rest.len() implies frame::fits(#[trigger] rest[i]) by {
            assert(rest[i] == fs[i + 1]);
        }
        lemma_answers(server::server_step(m, fs[0]).0, rest, tail, file);
    }
}

/// What a client sends after it asked for the end changes nothing: the server writes the
/// same bytes.
pub proof fn nothing_is_served_after_exit<T, U>(
    fs: Seq<FrameView>,
    tail: Seq<u8>,
    file: Option<Seq<char>>,
)
    requires
        all_fit(fs),
        fs.len() > 0,
        fs.last().cmd == CMD_EXIT,
    ensures
        sent_for::<T, U>(frame::frames_bytes(fs) + tail, file) == sent_for::<T, U>(
            frame::frames_bytes(fs),
            file,
        ),
        output::<T, U>(frame::frames_bytes(fs) + tail, file) == output::<T, U>(
            frame::frames_bytes(fs),
            file,
        ),
{
    let none = Seq::<u8>::empty();
    lemma_answers(fresh::<T, U>(), fs, tail, file);
    lemma_answers(fresh::<T, U>(), fs, none, file);
    assert(frame::frames_bytes(fs) + none =~= frame::frames_bytes(fs));
}

/// The frames of one command among these, in their order.
pub open spec fn only(fs: Seq<FrameView>, cmd: u16) -> Seq<FrameView>
    decreases fs.len(),
{
    if fs.len() == 0 {
        seq![]
    } else if fs[0].cmd == cmd {
        seq![fs[0]] + only(fs.drop_first(), cmd)
    } else {
        only(fs.drop_first(), cmd)
    }
}

/// The pongs that answer these pings.
pub open spec fn pongs_for(pings: Seq<FrameView>) -> Seq<FrameView> {
    Seq::new(
        pings.len(),
        |i: int|
            FrameView { channel: pings[i].channel, cmd: CMD_PONG, data: pings[i].data },
    )
}

proof fn lemma_only_cons(f: FrameView, fs: Seq<FrameView>, cmd: u16)
    ensures
        only(seq![f] + fs, cmd) == if f.cmd == cmd {
            seq![f] + only(fs, cmd)
        } else {
            only(fs, cmd)
        },
{
    assert((seq![f] + fs).drop_first() =~= fs);
}

proof fn lemma_pongs<T, U>(m: ServerView<T, U>, fs: Seq<FrameView>, file: Option<Seq<char>>)
    requires
        forall|i: int| 0 <= i < fs.len() - 1 ==> (#[trigger] fs[i]).cmd != CMD_EXIT,
        fs.len() > 0,
        fs.last().cmd == CMD_EXIT,
    ensures
        only(replies(m, fs, file), CMD_PONG) == pongs_for(only(fs, CMD_PING)),
    decreases fs.len(),
{
    let f = fs[0];
    let rest = fs.drop_first();
    if fs.len() == 1 {
        assert(replies(m, fs, file) =~= seq![]);
        assert(only(rest, CMD_PING) =~= seq![]);
        assert(pongs_for(only(fs, CMD_PING)) =~= seq![]);
    } else {
        let (after, action) = server::server_step(m, f);
        assert(f.cmd != CMD_EXIT);
        assert(rest.last() == fs.last());
        assert forall|i: int| 0 <= i < rest.len() - 1 implies (#[trigger] rest[i]).cmd
            != CMD_EXIT by {
            assert(rest[i] == fs[i + 1]);
        }
        lemma_pongs(after, rest, file);
        let more = replies(after, rest, file);
        match action {
            ServerActionView::Send(g) => {
                lemma_only_cons(g, more, CMD_PONG);
            },
            ServerActionView::ListHosts => {
                lemma_only_cons(hosts::host_list_view(file), more, CMD_PONG);
            },
            _ => {},
        }
        if f.cmd == CMD_PING {
            let pong = FrameView { channel: f.channel, cmd: CMD_PONG, data: f.data };
            assert(pongs_for(only(fs, CMD_PING)) =~= seq![pong] + pongs_for(only(rest, CMD_PING)));
        }
    }
}

/// Among the frames that a server sends for a stream that a request for the end closes, the
/// pongs are the pings of the stream, in order, with their channels and payloads; whatever
/// other frames are on the stream, and whatever follows the request.
pub proof fn pongs_answer_pings<T, U>(
    fs: Seq<FrameView>,
    tail: Seq<u8>,
    file: Option<Seq<char>>,
)
    requires
        all_fit(fs),
        fs.len() > 0,
        forall|i: int| 0 <= i < fs.len() - 1 ==> (#[trigger] fs[i]).cmd != CMD_EXIT,
        fs.last().cmd == CMD_EXIT,
    ensures
        only(sent_for::<T, U>(frame::frames_bytes(fs) + tail, file), CMD_PONG) == pongs_for(
            only(fs, CMD_PING),
        ),
{
    let m = fresh::<T, U>();
    let g = server::greeting_frames();
    let r = replies(m, fs, file);
    lemma_answers(m, fs, tail, file);
    lemma_pongs(m, fs, file);
    lemma_only_cons(g[1], r, CMD_PONG);
    lemma_only_cons(g[0], seq![g[1]] + r, CMD_PONG);
    assert(g + r =~= seq![g[0]] + (seq![g[1]] + r));
}

proof fn lemma_written_out(fs: Seq<FrameView>)
    requires
        all_fit(fs),
    ensures
        written_out(fs) == frame::frames_bytes(fs),
    decreases fs.len(),
{
    if fs.len() > 0 {
        let rest = fs.drop_first();
        assert forall|i: int| 0 <= i < rest.len() implies frame::fits(#[trigger] rest[i]) by {
            assert(rest[i] == fs[i + 1]);
        }
        lemma_written_out(rest);
    }
}

/// A client reads from the output of a server, behind the synchronisation header, just the
/// frames that the server sent, if none of them is too long to be written.
pub proof fn output_reads_back<T, U>(s: Seq<u8>, file: Option<Seq<char>>)
    requires
        all_fit(sent_for::<T, U>(s, file)),
    ensures
        sync::sync_end(output::<T, U>(s, file)) == Ok::<
            int,
            sync::SyncErrorView,
        >(SYNC_HEADER@.len() as int),
        frame::read_frames(output::<T, U>(s, file).skip(SYNC_HEADER@.len() as int)) == Some(
            sent_for::<T, U>(s, file),
        ),
{
    let fs = sent_for::<T, U>(s, file);
    let out = output::<T, U>(s, file);
    lemma_written_out(fs);
    frame::frames_read_back(fs);
    let none = Seq::<u8>::empty();
    sync::sync_header_is_found(none, frame::frames_bytes(fs));
    assert(none + SYNC_HEADER@ =~= SYNC_HEADER@);
    assert(out.skip(SYNC_HEADER@.len() as int) =~= frame::frames_bytes(fs));
}

} // verus!
