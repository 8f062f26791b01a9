//! The two directions of a TCP connection: from its socket into frames, and from
//! frames into its socket.

use vstd::prelude::*;

use crate::ssnet::frame;
use crate::ssnet::frame::{
    Frame, FrameView, CHUNK, CMD_TCP_DATA, CMD_TCP_EOF, CMD_TCP_STOP_SENDING, HDR_LEN,
};

verus! {

// --- from the socket --------------------------------------------------------

/// What came of a read from the socket of a connection.
#[derive(Debug)]
pub enum SourceEvent {
    /// These bytes; none at the end of what the peer sends.
    Data(Vec<u8>),
    /// The read failed.
    Failed,
}

/// What a `SourceEvent` says.
#[verifier::ext_equal]
pub enum SourceEventView {
    Data(Seq<u8>),
    Failed,
}

impl View for SourceEvent {
    type V = SourceEventView;

    open spec fn view(&self) -> SourceEventView {
        match self {
            SourceEvent::Data(b) => SourceEventView::Data(b@),
            SourceEvent::Failed => SourceEventView::Failed,
        }
    }
}

/// What follows a read from the socket.
#[derive(Debug)]
pub enum SourceStep {
    /// Send this frame, and read on.
    Send(Frame),
    /// Send this frame, and read no more.
    Finish(Frame),
}

/// What a `SourceStep` says.
#[verifier::ext_equal]
pub enum SourceStepView {
    Send(FrameView),
    Finish(FrameView),
}

impl View for SourceStep {
    type V = SourceStepView;

    open spec fn view(&self) -> SourceStepView {
        match self {
            SourceStep::Send(f) => SourceStepView::Send(f@),
            SourceStep::Finish(f) => SourceStepView::Finish(f@),
        }
    }
}

/// The frame that carries bytes of a connection.
pub open spec fn data_frame(channel: u16, bytes: Seq<u8>) -> FrameView {
    FrameView { channel, cmd: CMD_TCP_DATA, data: bytes }
}

/// The frame that says that a connection sends no more.
pub open spec fn eof_frame(channel: u16) -> FrameView {
    FrameView { channel, cmd: CMD_TCP_EOF, data: seq![] }
}

/// The frame that says that a connection takes no more, or never came to be.
pub open spec fn stop_frame(channel: u16) -> FrameView {
    FrameView { channel, cmd: CMD_TCP_STOP_SENDING, data: seq![] }
}

/// What follows a read from the socket: bytes go out as they came, and the end, of
/// whatever kind, is told to the other side.
pub open spec fn source_step(channel: u16, event: SourceEventView) -> SourceStepView {
    match event {
        SourceEventView::Data(b) => if b.len() == 0 {
            SourceStepView::Finish(eof_frame(channel))
        } else {
            SourceStepView::Send(data_frame(channel, b))
        },
        SourceEventView::Failed => SourceStepView::Finish(eof_frame(channel)),
    }
}

/// What follows a read of at most [`CHUNK`] bytes from the socket.
pub fn on_source(channel: u16, event: SourceEvent) -> (r: SourceStep)
    requires
        event@ matches SourceEventView::Data(b) ==> b.len() <= CHUNK,
    ensures
        r@ == source_step(channel, event@),
{
    match event {
        SourceEvent::Data(b) => {
            if b.len() == 0 {
                SourceStep::Finish(eof(channel))
            } else {
                SourceStep::Send(Frame::new(channel, CMD_TCP_DATA, b))
            }
        },
        SourceEvent::Failed => SourceStep::Finish(eof(channel)),
    }
}

fn eof(channel: u16) -> (r: Frame)
    ensures
        r@ == eof_frame(channel),
{
    let data: Vec<u8> = Vec::new();
    assert(data@ =~= seq![]);
    Frame::new(channel, CMD_TCP_EOF, data)
}

/// The frame that says that a connection takes no more, or never came to be.
pub fn stop_sending(channel: u16) -> (r: Frame)
    ensures
        r@ == stop_frame(channel),
{
    let data: Vec<u8> = Vec::new();
    assert(data@ =~= seq![]);
    Frame::new(channel, CMD_TCP_STOP_SENDING, data)
}

// --- into the socket --------------------------------------------------------

/// What to do with the socket of a connection.
#[derive(Debug)]
pub enum SinkStep {
    /// Write all these bytes; if that fails, shut the sending side down and stop.
    Write(Vec<u8>),
    /// Shut the sending side down, and stop.
    Shutdown,
}

/// What a `SinkStep` says.
#[verifier::ext_equal]
pub enum SinkStepView {
    Write(Seq<u8>),
    Shutdown,
}

impl View for SinkStep {
    type V = SinkStepView;

    open spec fn view(&self) -> SinkStepView {
        match self {
            SinkStep::Write(b) => SinkStepView::Write(b@),
            SinkStep::Shutdown => SinkStepView::Shutdown,
        }
    }
}

/// What an optional payload says.
pub open spec fn payload_view(p: Option<Vec<u8>>) -> Option<Seq<u8>> {
    match p {
        Some(b) => Some(b@),
        None => None,
    }
}

/// What follows the next payload for a connection, or the end of its payloads.
pub open spec fn sink_step(next: Option<Seq<u8>>) -> SinkStepView {
    match next {
        Some(b) => if b.len() == 0 {
            SinkStepView::Shutdown
        } else {
            SinkStepView::Write(b)
        },
        None => SinkStepView::Shutdown,
    }
}

/// What follows the next payload for a connection, or the end of its payloads.
pub fn on_payload(next: Option<Vec<u8>>) -> (r: SinkStep)
    ensures
        r@ == sink_step(payload_view(next)),
{
    match next {
        Some(b) => {
            if b.len() == 0 {
                SinkStep::Shutdown
            } else {
                SinkStep::Write(b)
            }
        },
        None => SinkStep::Shutdown,
    }
}

// --- laws -------------------------------------------------------------------

/// The bytes of several reads or payloads, one after the other.
pub open spec fn joined(parts: Seq<Seq<u8>>) -> Seq<u8>
    decreases parts.len(),
{
    if parts.len() == 0 {
        seq![]
    } else {
        parts[0] + joined(parts.drop_first())
    }
}

/// The frames that a connection sends whose reads give these bytes, and then the end
/// or an error.
pub open spec fn sent(channel: u16, reads: Seq<Seq<u8>>) -> Seq<FrameView>
    decreases reads.len(),
{
    if reads.len() == 0 {
        seq![frame_of(source_step(channel, SourceEventView::Data(seq![])))]
    } else {
        match source_step(channel, SourceEventView::Data(reads[0])) {
            SourceStepView::Send(f) => seq![f] + sent(channel, reads.drop_first()),
            SourceStepView::Finish(f) => seq![f],
        }
    }
}

/// The frame that a step sends.
pub open spec fn frame_of(step: SourceStepView) -> FrameView {
    match step {
        SourceStepView::Send(f) => f,
        SourceStepView::Finish(f) => f,
    }
}

/// The frame has a say in what the connection of a channel writes to its socket.
pub open spec fn concerns(channel: u16, f: FrameView) -> bool {
    f.channel == channel && (f.cmd == CMD_TCP_DATA || f.cmd == CMD_TCP_EOF || f.cmd
        == CMD_TCP_STOP_SENDING)
}

/// The frames among `frames` that concern a channel, in their order.
pub open spec fn concerning(channel: u16, frames: Seq<FrameView>) -> Seq<FrameView>
    decreases frames.len(),
{
    if frames.len() == 0 {
        seq![]
    } else if concerns(channel, frames[0]) {
        seq![frames[0]] + concerning(channel, frames.drop_first())
    } else {
        concerning(channel, frames.drop_first())
    }
}

/// The bytes that the connection of a channel writes to its socket when these frames
/// arrive: those of its `TCP_DATA` frames, up to the first that closes it.
pub open spec fn received(channel: u16, frames: Seq<FrameView>) -> Seq<u8>
    decreases frames.len(),
{
    if frames.len() == 0 {
        seq![]
    } else if !concerns(channel, frames[0]) {
        received(channel, frames.drop_first())
    } else if frames[0].cmd != CMD_TCP_DATA {
        seq![]
    } else {
        match sink_step(Some(frames[0].data)) {
            SinkStepView::Write(b) => b + received(channel, frames.drop_first()),
            SinkStepView::Shutdown => seq![],
        }
    }
}

/// The bytes that a connection writes to its socket when it is handed these payloads.
pub open spec fn poured(payloads: Seq<Seq<u8>>) -> Seq<u8>
    decreases payloads.len(),
{
    if payloads.len() == 0 {
        seq![]
    } else {
        match sink_step(Some(payloads[0])) {
            SinkStepView::Write(b) => b + poured(payloads.drop_first()),
            SinkStepView::Shutdown => seq![],
        }
    }
}

/// The reads are such as a socket gives into a buffer of [`CHUNK`] bytes.
pub open spec fn are_reads(reads: Seq<Seq<u8>>) -> bool {
    forall|i: int| 0 <= i < reads.len() ==> 0 < (#[trigger] reads[i]).len() <= CHUNK
}

proof fn lemma_are_reads_rest(reads: Seq<Seq<u8>>)
    requires
        are_reads(reads),
        reads.len() > 0,
    ensures
        are_reads(reads.drop_first()),
{
    let rest = reads.drop_first();
    assert forall|j: int| 0 <= j < rest.len() implies 0 < (#[trigger] rest[j]).len()
        <= CHUNK by {
        assert(rest[j] == reads[j + 1]);
    }
}

/// Every frame that a connection sends can be written, and stays under a kilobyte
/// with its header.
pub proof fn sent_frames_are_small(channel: u16, reads: Seq<Seq<u8>>, i: int)
    requires
        are_reads(reads),
        0 <= i < sent(channel, reads).len(),
    ensures
        frame::fits(sent(channel, reads)[i]),
        frame::frame_bytes(sent(channel, reads)[i]).len() <= HDR_LEN + CHUNK < 1024,
        sent(channel, reads)[i].channel == channel,
    decreases reads.len(),
{
    if reads.len() > 0 {
        let rest = reads.drop_first();
        assert(reads[0].len() > 0);
        lemma_are_reads_rest(reads);
        if i > 0 {
            assert(sent(channel, reads)[i] == sent(channel, rest)[i - 1]);
            sent_frames_are_small(channel, rest, i - 1);
        }
    }
}

/// A connection sends one `TCP_DATA` frame for each read, and then one `TCP_EOF`.
pub proof fn sent_ends_with_eof(channel: u16, reads: Seq<Seq<u8>>)
    requires
        are_reads(reads),
    ensures
        sent(channel, reads).len() == reads.len() + 1,
        forall|i: int|
            0 <= i < reads.len() ==> #[trigger] sent(channel, reads)[i] == data_frame(
                channel,
                reads[i],
            ),
        sent(channel, reads).last() == eof_frame(channel),
    decreases reads.len(),
{
    if reads.len() > 0 {
        let rest = reads.drop_first();
        assert(reads[0].len() > 0);
        lemma_are_reads_rest(reads);
        sent_ends_with_eof(channel, rest);
        assert(sent(channel, reads) =~= seq![data_frame(channel, reads[0])] + sent(channel, rest));
        assert forall|i: int| 0 <= i < reads.len() implies #[trigger] sent(channel, reads)[i]
            == data_frame(channel, reads[i]) by {
            if i > 0 {
                assert(sent(channel, reads)[i] == sent(channel, rest)[i - 1]);
                assert(rest[i - 1] == reads[i]);
            }
        }
    }
}

proof fn lemma_received(channel: u16, reads: Seq<Seq<u8>>)
    requires
        are_reads(reads),
    ensures
        received(channel, sent(channel, reads)) == joined(reads),
    decreases reads.len(),
{
    let fs = sent(channel, reads);
    if reads.len() > 0 {
        let rest = reads.drop_first();
        assert(reads[0].len() > 0);
        lemma_are_reads_rest(reads);
        lemma_received(channel, rest);
        assert(fs.drop_first() =~= sent(channel, rest));
    }
}

proof fn lemma_received_concerning(channel: u16, frames: Seq<FrameView>)
    ensures
        received(channel, frames) == received(channel, concerning(channel, frames)),
    decreases frames.len(),
{
    if frames.len() > 0 {
        let rest = frames.drop_first();
        lemma_received_concerning(channel, rest);
        if concerns(channel, frames[0]) {
            let c = concerning(channel, frames);
            assert(c[0] == frames[0]);
            assert(c.drop_first() =~= concerning(channel, rest));
        }
    }
}

/// What one end of a connection reads from its socket, the other end writes to its
/// own, byte for byte and in order: whatever else goes over the same link, as long
/// as the frames that concern the channel are those that the one end sent.
pub proof fn stream_arrives(channel: u16, reads: Seq<Seq<u8>>, frames: Seq<FrameView>)
    requires
        are_reads(reads),
        concerning(channel, frames) == sent(channel, reads),
    ensures
        received(channel, frames) == joined(reads),
{
    lemma_received_concerning(channel, frames);
    lemma_received(channel, reads);
}

/// The frames that one end sends come out of the wire as they went in.
pub proof fn sent_frames_read_back(channel: u16, reads: Seq<Seq<u8>>)
    requires
        are_reads(reads),
    ensures
        frame::read_frames(frame::frames_bytes(sent(channel, reads))) == Some(sent(channel, reads)),
{
    let fs = sent(channel, reads);
    assert forall|i: int| 0 <= i < fs.len() implies frame::fits(#[trigger] fs[i]) by {
        sent_frames_are_small(channel, reads, i);
    }
    frame::frames_read_back(fs);
}

/// Bytes that are read from a socket are sent as they are, however many, in a `TCP_DATA` frame
/// of the channel, and reading goes on; at the end of what is read, or when the read fails, an
/// empty `TCP_EOF` frame is sent and no more is read.
pub proof fn reads_become_frames(channel: u16, bytes: Seq<u8>)
    ensures
        bytes.len() > 0 ==> source_step(channel, SourceEventView::Data(bytes))
            == SourceStepView::Send(FrameView { channel, cmd: 0x4206, data: bytes }),
        source_step(channel, SourceEventView::Data(seq![])) == SourceStepView::Finish(
            FrameView { channel, cmd: 0x4205, data: seq![] },
        ),
        source_step(channel, SourceEventView::Failed) == SourceStepView::Finish(
            FrameView { channel, cmd: 0x4205, data: seq![] },
        ),
        stop_frame(channel) == (FrameView { channel, cmd: 0x4204, data: seq![] }),
{
}

/// Payloads are written to a socket as they are; an empty one, or the end of the payloads,
/// shuts its sending side down.
pub proof fn payloads_become_writes(bytes: Seq<u8>)
    ensures
        bytes.len() > 0 ==> sink_step(Some(bytes)) == SinkStepView::Write(bytes),
        sink_step(Some(seq![])) == SinkStepView::Shutdown,
        sink_step(None) == SinkStepView::Shutdown,
{
}

} // verus!
