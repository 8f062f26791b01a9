//! Frames: their bytes, and how they are read and written.
//!
//! Reading and writing are told apart from input and output. Each is a machine
//! that says what to read or write next, and is told what came of it.

use vstd::prelude::*;
use vstd::slice::{slice_subrange, slice_to_vec};

use crate::decimal::{digits, hex_byte, push_decimal, push_hex};

verus! {

pub const HDR_LEN: usize = 8;

pub const MAGIC: [u8; 2] = [0x53, 0x53];

pub const MAX_PAYLOAD: usize = 65535;

/// Cap on the payload of a `TCP_DATA` frame. A frame of that size stays well under
/// one kilobyte, above which some links drop what is written in one piece.
pub const CHUNK: usize = 768;

pub const AF_INET: u16 = 2;

pub const AF_INET6: u16 = 10;

pub const CMD_EXIT: u16 = 0x4200;

pub const CMD_PING: u16 = 0x4201;

pub const CMD_PONG: u16 = 0x4202;

pub const CMD_TCP_CONNECT: u16 = 0x4203;

pub const CMD_TCP_STOP_SENDING: u16 = 0x4204;

pub const CMD_TCP_EOF: u16 = 0x4205;

pub const CMD_TCP_DATA: u16 = 0x4206;

pub const CMD_ROUTES: u16 = 0x4207;

pub const CMD_HOST_REQ: u16 = 0x4208;

pub const CMD_HOST_LIST: u16 = 0x4209;

pub const CMD_DNS_REQ: u16 = 0x420a;

pub const CMD_DNS_RESPONSE: u16 = 0x420b;

pub const CMD_UDP_OPEN: u16 = 0x420c;

pub const CMD_UDP_DATA: u16 = 0x420d;

pub const CMD_UDP_CLOSE: u16 = 0x420e;

// --- frames -----------------------------------------------------------------

/// One message on the wire.
#[derive(Debug, Clone)]
pub struct Frame {
    pub channel: u16,
    pub cmd: u16,
    pub data: Vec<u8>,
}

/// What a frame says.
#[verifier::ext_equal]
pub struct FrameView {
    pub channel: u16,
    pub cmd: u16,
    pub data: Seq<u8>,
}

impl View for Frame {
    type V = FrameView;

    open spec fn view(&self) -> FrameView {
        FrameView { channel: self.channel, cmd: self.cmd, data: self.data@ }
    }
}

/// The name of a command.
pub open spec fn command_name(cmd: u16) -> Seq<char> {
    if cmd == CMD_EXIT {
        "EXIT"@
    } else if cmd == CMD_PING {
        "PING"@
    } else if cmd == CMD_PONG {
        "PONG"@
    } else if cmd == CMD_TCP_CONNECT {
        "TCP_CONNECT"@
    } else if cmd == CMD_TCP_STOP_SENDING {
        "TCP_STOP_SENDING"@
    } else if cmd == CMD_TCP_EOF {
        "TCP_EOF"@
    } else if cmd == CMD_TCP_DATA {
        "TCP_DATA"@
    } else if cmd == CMD_ROUTES {
        "ROUTES"@
    } else if cmd == CMD_HOST_REQ {
        "HOST_REQ"@
    } else if cmd == CMD_HOST_LIST {
        "HOST_LIST"@
    } else if cmd == CMD_DNS_REQ {
        "DNS_REQ"@
    } else if cmd == CMD_DNS_RESPONSE {
        "DNS_RESPONSE"@
    } else if cmd == CMD_UDP_OPEN {
        "UDP_OPEN"@
    } else if cmd == CMD_UDP_DATA {
        "UDP_DATA"@
    } else if cmd == CMD_UDP_CLOSE {
        "UDP_CLOSE"@
    } else {
        "UNKNOWN"@
    }
}

impl Frame {
    pub fn new(channel: u16, cmd: u16, data: Vec<u8>) -> (r: Self)
        ensures
            r.channel == channel,
            r.cmd == cmd,
            r.data == data,
    {
        Frame { channel, cmd, data }
    }

    /// The name of a command, `UNKNOWN` for a number that is none.
    pub fn cmd_name(cmd: u16) -> (r: &'static str)
        ensures
            r@ == command_name(cmd),
    {
        match cmd {
            CMD_EXIT => "EXIT",
            CMD_PING => "PING",
            CMD_PONG => "PONG",
            CMD_TCP_CONNECT => "TCP_CONNECT",
            CMD_TCP_STOP_SENDING => "TCP_STOP_SENDING",
            CMD_TCP_EOF => "TCP_EOF",
            CMD_TCP_DATA => "TCP_DATA",
            CMD_ROUTES => "ROUTES",
            CMD_HOST_REQ => "HOST_REQ",
            CMD_HOST_LIST => "HOST_LIST",
            CMD_DNS_REQ => "DNS_REQ",
            CMD_DNS_RESPONSE => "DNS_RESPONSE",
            CMD_UDP_OPEN => "UDP_OPEN",
            CMD_UDP_DATA => "UDP_DATA",
            CMD_UDP_CLOSE => "UDP_CLOSE",
            _ => "UNKNOWN",
        }
    }
}

// --- bytes ------------------------------------------------------------------

/// The two bytes of a number, the higher one first.
pub open spec fn be_bytes(n: u16) -> Seq<u8> {
    seq![(n / 256) as u8, (n % 256) as u8]
}

/// The number that two bytes stand for, the higher one first.
pub open spec fn be_number(hi: u8, lo: u8) -> u16 {
    (hi * 256 + lo) as u16
}

/// The header of a frame.
pub open spec fn header_bytes(f: FrameView) -> Seq<u8> {
    seq![0x53u8, 0x53u8] + be_bytes(f.channel) + be_bytes(f.cmd) + be_bytes(f.data.len() as u16)
}

/// The bytes of a frame on the wire.
pub open spec fn frame_bytes(f: FrameView) -> Seq<u8> {
    header_bytes(f) + f.data
}

/// The frame can be written: its length fits into the header.
pub open spec fn fits(f: FrameView) -> bool {
    f.data.len() <= MAX_PAYLOAD
}

/// The two bytes of a number, the higher one first.
pub fn to_be(n: u16) -> (r: (u8, u8))
    ensures
        seq![r.0, r.1] == be_bytes(n),
{
    ((n / 256) as u8, (n % 256) as u8)
}

/// The number that two bytes stand for, the higher one first.
pub fn from_be(hi: u8, lo: u8) -> (r: u16)
    ensures
        r == be_number(hi, lo),
{
    hi as u16 * 256 + lo as u16
}

// --- errors -----------------------------------------------------------------

/// Why no frame could be read or written.
#[derive(Debug)]
pub enum FrameError {
    /// The header does not start with the magic bytes, but with these.
    BadMagic(u8, u8),
    /// The payload has this many bytes, which is too many.
    TooLong(usize),
    /// The stream ended inside a payload; the message of the failed read.
    Eof(String),
    /// The stream failed.
    Io(String),
}

/// What a `FrameError` says.
#[verifier::ext_equal]
pub enum FrameErrorView {
    BadMagic(u8, u8),
    TooLong(nat),
    Eof(Seq<char>),
    Io(Seq<char>),
}

impl View for FrameError {
    type V = FrameErrorView;

    open spec fn view(&self) -> FrameErrorView {
        match self {
            FrameError::BadMagic(a, b) => FrameErrorView::BadMagic(*a, *b),
            FrameError::TooLong(n) => FrameErrorView::TooLong(*n as nat),
            FrameError::Eof(s) => FrameErrorView::Eof(s@),
            FrameError::Io(s) => FrameErrorView::Io(s@),
        }
    }
}

/// The message of an error.
pub open spec fn frame_error_text(e: FrameErrorView) -> Seq<char> {
    match e {
        FrameErrorView::BadMagic(a, b) => "bad magic: "@ + hex_byte(a) + hex_byte(b),
        FrameErrorView::TooLong(n) => "payload "@ + digits(n) + " exceeds "@ + digits(
            MAX_PAYLOAD as nat,
        ) + " max"@,
        FrameErrorView::Eof(s) => s,
        FrameErrorView::Io(s) => s,
    }
}

impl FrameError {
    /// The message of the error.
    pub fn text(&self) -> (r: String)
        ensures
            r@ == frame_error_text(self@),
    {
        let mut s: String = String::new();
        match self {
            FrameError::BadMagic(a, b) => {
                s.append("bad magic: ");
                push_hex(&mut s, *a);
                push_hex(&mut s, *b);
            },
            FrameError::TooLong(n) => {
                s.append("payload ");
                push_decimal(&mut s, *n as u64);
                s.append(" exceeds ");
                push_decimal(&mut s, MAX_PAYLOAD as u64);
                s.append(" max");
            },
            FrameError::Eof(t) => {
                s.append(t.as_str());
            },
            FrameError::Io(t) => {
                s.append(t.as_str());
            },
        }
        assert(s@ =~= frame_error_text(self@));
        s
    }
}

// --- reading ----------------------------------------------------------------

/// How far the reading of a frame has come.
#[derive(Clone, Copy, Debug, PartialEq, Eq, Structural)]
pub enum ReadState {
    /// The header is to be read.
    Header,
    /// The header was read; the payload, which is not empty, is to be read.
    Payload { channel: u16, cmd: u16, len: u16 },
}

/// What came of a read.
#[derive(Debug)]
pub enum ReadEvent {
    /// The bytes that were asked for.
    Bytes(Vec<u8>),
    /// The stream ended before that many bytes; the message of the failed read.
    Eof(String),
    /// The read failed in another way; its message.
    Failed(String),
}

/// What a `ReadEvent` says.
#[verifier::ext_equal]
pub enum ReadEventView {
    Bytes(Seq<u8>),
    Eof(Seq<char>),
    Failed(Seq<char>),
}

impl View for ReadEvent {
    type V = ReadEventView;

    open spec fn view(&self) -> ReadEventView {
        match self {
            ReadEvent::Bytes(b) => ReadEventView::Bytes(b@),
            ReadEvent::Eof(s) => ReadEventView::Eof(s@),
            ReadEvent::Failed(s) => ReadEventView::Failed(s@),
        }
    }
}

/// What to do next to read a frame.
#[derive(Debug)]
pub enum ReadStep {
    /// Read exactly this many bytes, and go on in this state.
    Read(ReadState, usize),
    /// The outcome: a frame, the end of the stream between two frames, or an error.
    Done(Result<Option<Frame>, FrameError>),
}

/// The outcome of reading a frame.
#[verifier::ext_equal]
pub enum ReadResult {
    Frame(FrameView),
    End,
    Failed(FrameErrorView),
}

/// What a `ReadStep` says.
#[verifier::ext_equal]
pub enum ReadStepView {
    Read(ReadState, nat),
    Done(ReadResult),
}

/// The outcome that a returned value stands for.
pub open spec fn read_result(r: Result<Option<Frame>, FrameError>) -> ReadResult {
    match r {
        Ok(Some(f)) => ReadResult::Frame(f@),
        Ok(None) => ReadResult::End,
        Err(e) => ReadResult::Failed(e@),
    }
}

impl View for ReadStep {
    type V = ReadStepView;

    open spec fn view(&self) -> ReadStepView {
        match self {
            ReadStep::Read(s, n) => ReadStepView::Read(*s, *n as nat),
            ReadStep::Done(r) => ReadStepView::Done(read_result(*r)),
        }
    }
}

/// The number of bytes that are read in a state.
pub open spec fn wanted(state: ReadState) -> nat {
    match state {
        ReadState::Header => HDR_LEN as nat,
        ReadState::Payload { len, .. } => len as nat,
    }
}

/// The next step of reading a frame.
pub open spec fn read_step(state: ReadState, event: ReadEventView) -> ReadStepView {
    match state {
        ReadState::Header => match event {
            ReadEventView::Bytes(h) => if h[0] != 0x53 || h[1] != 0x53 {
                ReadStepView::Done(ReadResult::Failed(FrameErrorView::BadMagic(h[0], h[1])))
            } else {
                let channel = be_number(h[2], h[3]);
                let cmd = be_number(h[4], h[5]);
                let len = be_number(h[6], h[7]);
                if len == 0 {
                    ReadStepView::Done(ReadResult::Frame(FrameView { channel, cmd, data: seq![] }))
                } else {
                    ReadStepView::Read(ReadState::Payload { channel, cmd, len }, len as nat)
                }
            },
            ReadEventView::Eof(_) => ReadStepView::Done(ReadResult::End),
            ReadEventView::Failed(s) => ReadStepView::Done(
                ReadResult::Failed(FrameErrorView::Io(s)),
            ),
        },
        ReadState::Payload { channel, cmd, len } => match event {
            ReadEventView::Bytes(data) => ReadStepView::Done(
                ReadResult::Frame(FrameView { channel, cmd, data }),
            ),
            ReadEventView::Eof(s) => ReadStepView::Done(
                ReadResult::Failed(FrameErrorView::Eof(s)),
            ),
            ReadEventView::Failed(s) => ReadStepView::Done(
                ReadResult::Failed(FrameErrorView::Io(s)),
            ),
        },
    }
}

/// The first step of reading a frame.
pub fn read_frame_start() -> (r: ReadStep)
    ensures
        r@ == ReadStepView::Read(ReadState::Header, wanted(ReadState::Header)),
{
    ReadStep::Read(ReadState::Header, HDR_LEN)
}

/// The next step of reading a frame, after what came of the last read.
pub fn read_frame_next(state: ReadState, event: ReadEvent) -> (r: ReadStep)
    requires
        event@ matches ReadEventView::Bytes(b) ==> b.len() == wanted(state),
    ensures
        r@ == read_step(state, event@),
{
    match state {
        ReadState::Header => match event {
            ReadEvent::Bytes(h) => {
                if h[0] != MAGIC[0] || h[1] != MAGIC[1] {
                    return ReadStep::Done(Err(FrameError::BadMagic(h[0], h[1])));
                }
                let channel: u16 = from_be(h[2], h[3]);
                let cmd: u16 = from_be(h[4], h[5]);
                let len: u16 = from_be(h[6], h[7]);
                if len == 0 {
                    let data: Vec<u8> = Vec::new();
                    assert(data@ =~= seq![]);
                    ReadStep::Done(Ok(Some(Frame::new(channel, cmd, data))))
                } else {
                    ReadStep::Read(ReadState::Payload { channel, cmd, len }, len as usize)
                }
            },
            ReadEvent::Eof(_) => ReadStep::Done(Ok(None)),
            ReadEvent::Failed(s) => ReadStep::Done(Err(FrameError::Io(s))),
        },
        ReadState::Payload { channel, cmd, len: _ } => match event {
            ReadEvent::Bytes(data) => ReadStep::Done(Ok(Some(Frame::new(channel, cmd, data)))),
            ReadEvent::Eof(s) => ReadStep::Done(Err(FrameError::Eof(s))),
            ReadEvent::Failed(s) => ReadStep::Done(Err(FrameError::Io(s))),
        },
    }
}

/// The message of a read that the end of the stream cut short.
pub open spec fn early_eof() -> Seq<char> {
    "early eof"@
}

/// What reading one frame from the start of a stream gives, where the stream ends
/// after `s`, and how many bytes the reads take.
pub open spec fn read_stream(s: Seq<u8>) -> (ReadResult, int) {
    if s.len() < HDR_LEN {
        (ReadResult::End, s.len() as int)
    } else if s[0] != 0x53 || s[1] != 0x53 {
        (ReadResult::Failed(FrameErrorView::BadMagic(s[0], s[1])), HDR_LEN as int)
    } else {
        let len = be_number(s[6], s[7]);
        if s.len() < HDR_LEN + len {
            (ReadResult::Failed(FrameErrorView::Eof(early_eof())), s.len() as int)
        } else {
            (
                ReadResult::Frame(
                    FrameView {
                        channel: be_number(s[2], s[3]),
                        cmd: be_number(s[4], s[5]),
                        data: s.subrange(HDR_LEN as int, HDR_LEN + len),
                    },
                ),
                HDR_LEN + len,
            )
        }
    }
}

/// Reads one frame from the start of `stream`, after which the stream ends. Gives
/// the outcome and the number of bytes that were taken off the stream.
pub fn read_frame(stream: &[u8]) -> (r: (Result<Option<Frame>, FrameError>, usize))
    ensures
        (read_result(r.0), r.1 as int) == read_stream(stream@),
{
    let n: usize = stream.len();
    let mut at: usize = 0;
    let mut step: ReadStep = read_frame_start();
    loop
        invariant
            n == stream@.len(),
            at <= n,
            match step@ {
                ReadStepView::Read(st, want) => {
                    &&& want == wanted(st)
                    &&& match st {
                        ReadState::Header => at == 0,
                        ReadState::Payload { channel, cmd, len } => {
                            &&& at == HDR_LEN
                            &&& stream@[0] == 0x53
                            &&& stream@[1] == 0x53
                            &&& channel == be_number(stream@[2], stream@[3])
                            &&& cmd == be_number(stream@[4], stream@[5])
                            &&& len == be_number(stream@[6], stream@[7])
                            &&& len > 0
                        },
                    }
                },
                ReadStepView::Done(res) => (res, at as int) == read_stream(stream@),
            },
        decreases (match step@ {
            ReadStepView::Read(ReadState::Header, _) => 2int,
            ReadStepView::Read(_, _) => 1int,
            ReadStepView::Done(_) => 0int,
        }),
    {
        match step {
            ReadStep::Done(r) => {
                return (r, at);
            },
            ReadStep::Read(state, want) => {
                if n - at < want {
                    at = n;
                    let mut why: String = String::new();
                    why.append("early eof");
                    assert(why@ =~= early_eof());
                    step = read_frame_next(state, ReadEvent::Eof(why));
                } else {
                    let bytes: Vec<u8> = slice_to_vec(slice_subrange(stream, at, at + want));
                    at = at + want;
                    step = read_frame_next(state, ReadEvent::Bytes(bytes));
                    proof {
                        if let ReadStepView::Done(ReadResult::Frame(f)) = step@ {
                            if let ReadState::Header = state {
                                assert(f.data =~= stream@.subrange(8, 8));
                            }
                        }
                    }
                }
            },
        }
    }
}

// --- writing ----------------------------------------------------------------

/// One action of writing a frame.
#[derive(Debug)]
pub enum WriteOp {
    /// Write all these bytes.
    Write(Vec<u8>),
    /// Flush what was written.
    Flush,
    /// Wait for the delay between frames, if there is one.
    Pause,
}

/// What a `WriteOp` says.
#[verifier::ext_equal]
pub enum WriteOpView {
    Write(Seq<u8>),
    Flush,
    Pause,
}

impl View for WriteOp {
    type V = WriteOpView;

    open spec fn view(&self) -> WriteOpView {
        match self {
            WriteOp::Write(b) => WriteOpView::Write(b@),
            WriteOp::Flush => WriteOpView::Flush,
            WriteOp::Pause => WriteOpView::Pause,
        }
    }
}

/// What a list of actions says.
pub open spec fn op_views(v: Seq<WriteOp>) -> Seq<WriteOpView> {
    Seq::new(v.len(), |i: int| v[i]@)
}

/// The actions that write a frame: the header, the payload unless it is empty, a
/// flush, and the wait.
pub open spec fn write_plan(f: FrameView) -> Seq<WriteOpView> {
    if f.data.len() == 0 {
        seq![WriteOpView::Write(header_bytes(f)), WriteOpView::Flush, WriteOpView::Pause]
    } else {
        seq![
            WriteOpView::Write(header_bytes(f)),
            WriteOpView::Write(f.data),
            WriteOpView::Flush,
            WriteOpView::Pause,
        ]
    }
}

/// The bytes that a list of actions writes.
pub open spec fn written(ops: Seq<WriteOpView>) -> Seq<u8>
    decreases ops.len(),
{
    if ops.len() == 0 {
        seq![]
    } else {
        written(ops.drop_last()) + match ops.last() {
            WriteOpView::Write(b) => b,
            _ => seq![],
        }
    }
}

/// The actions that write `f`, in order; an error if its payload is too long.
pub fn write_frame(f: &Frame) -> (r: Result<Vec<WriteOp>, FrameError>)
    ensures
        match r {
            Ok(ops) => fits(f@) && op_views(ops@) == write_plan(f@),
            Err(e) => !fits(f@) && e@ == FrameErrorView::TooLong(f.data@.len()),
        },
{
    let n: usize = f.data.len();
    if n > MAX_PAYLOAD {
        return Err(FrameError::TooLong(n));
    }
    let channel: (u8, u8) = to_be(f.channel);
    let cmd: (u8, u8) = to_be(f.cmd);
    let len: (u8, u8) = to_be(n as u16);
    let header: Vec<u8> = vec![
        MAGIC[0],
        MAGIC[1],
        channel.0,
        channel.1,
        cmd.0,
        cmd.1,
        len.0,
        len.1,
    ];
    assert(header@ =~= header_bytes(f@)) by {
        assert(be_bytes(f.channel) == seq![channel.0, channel.1]);
        assert(be_bytes(f.cmd) == seq![cmd.0, cmd.1]);
        assert(be_bytes(n as u16) == seq![len.0, len.1]);
    }
    let mut ops: Vec<WriteOp> = Vec::new();
    ops.push(WriteOp::Write(header));
    if n > 0 {
        ops.push(WriteOp::Write(slice_to_vec(f.data.as_slice())));
    }
    ops.push(WriteOp::Flush);
    ops.push(WriteOp::Pause);
    assert(op_views(ops@) =~= write_plan(f@));
    Ok(ops)
}

// --- laws -------------------------------------------------------------------

/// Writing a frame writes the bytes of the frame, and nothing else.
pub proof fn write_plan_writes_frame(f: FrameView)
    ensures
        written(write_plan(f)) == frame_bytes(f),
{
    reveal_with_fuel(written, 5);
    let p = write_plan(f);
    assert(written(p) =~= frame_bytes(f)) by {
        let p1 = p.drop_last();
        let p2 = p1.drop_last();
        let p3 = p2.drop_last();
        if f.data.len() == 0 {
            assert(p3.len() == 0);
            assert(written(p2) =~= header_bytes(f));
        } else {
            let p4 = p3.drop_last();
            assert(p4.len() == 0);
            assert(written(p3) =~= header_bytes(f));
            assert(written(p2) =~= header_bytes(f) + f.data);
        }
    }
}

/// A frame that was written is read back, whatever follows it on the stream, and
/// the read takes the bytes of the frame and no more.
pub proof fn frame_reads_back(f: FrameView, rest: Seq<u8>)
    requires
        fits(f),
    ensures
        read_stream(frame_bytes(f) + rest) == (
            ReadResult::Frame(f),
            frame_bytes(f).len() as int,
        ),
{
    let s = frame_bytes(f) + rest;
    let len = f.data.len() as u16;
    assert(s[2] == be_bytes(f.channel)[0] && s[3] == be_bytes(f.channel)[1]);
    assert(s[4] == be_bytes(f.cmd)[0] && s[5] == be_bytes(f.cmd)[1]);
    assert(s[6] == be_bytes(len)[0] && s[7] == be_bytes(len)[1]);
    assert(s.subrange(8, 8 + f.data.len() as int) =~= f.data);
}

/// The bytes of several frames, one after the other.
pub open spec fn frames_bytes(fs: Seq<FrameView>) -> Seq<u8>
    decreases fs.len(),
{
    if fs.len() == 0 {
        seq![]
    } else {
        frame_bytes(fs[0]) + frames_bytes(fs.drop_first())
    }
}

/// The frames that reading a stream until its end gives, `None` if a read fails.
pub open spec fn read_frames(s: Seq<u8>) -> Option<Seq<FrameView>>
    decreases s.len(),
{
    match read_stream(s).0 {
        ReadResult::End => Some(seq![]),
        ReadResult::Failed(_) => None,
        ReadResult::Frame(f) => match read_frames(s.skip(read_stream(s).1)) {
            Some(fs) => Some(seq![f] + fs),
            None => None,
        },
    }
}

/// Reading a stream until its end gives the frames that were written to it, in
/// their order.
pub proof fn frames_read_back(fs: Seq<FrameView>)
    requires
        forall|i: int| 0 <= i < fs.len() ==> fits(#[trigger] fs[i]),
    ensures
        read_frames(frames_bytes(fs)) == Some(fs),
    decreases fs.len(),
{
    let s = frames_bytes(fs);
    if fs.len() == 0 {
        assert(read_frames(s)->0 =~= fs);
    } else {
        let rest = frames_bytes(fs.drop_first());
        frame_reads_back(fs[0], rest);
        frames_read_back(fs.drop_first());
        assert(s.skip(frame_bytes(fs[0]).len() as int) =~= rest);
        assert(seq![fs[0]] + fs.drop_first() =~= fs);
    }
}

// --- the bytes themselves ---------------------------------------------------

/// Two bytes stand for 256 times the first and once the second, both ways.
pub proof fn higher_byte_comes_first(n: u16, hi: u8, lo: u8)
    ensures
        be_bytes(n).len() == 2,
        256 * be_bytes(n)[0] + be_bytes(n)[1] == n,
        be_number(hi, lo) == 256 * hi + lo,
{
}

/// On the wire a frame is eight bytes and its payload: twice the letter `S`, and then the
/// channel, the command and the length of the payload as two bytes each, of which the first
/// counts 256 times.
pub proof fn frame_is_laid_out(f: FrameView)
    requires
        f.data.len() <= 65535,
    ensures
        ({
            let b = frame_bytes(f);
            &&& fits(f)
            &&& b.len() == 8 + f.data.len()
            &&& b[0] == 0x53
            &&& b[1] == 0x53
            &&& 256 * b[2] + b[3] == f.channel
            &&& 256 * b[4] + b[5] == f.cmd
            &&& 256 * b[6] + b[7] == f.data.len()
            &&& b.skip(8) == f.data
        }),
{
    let b = frame_bytes(f);
    let len = f.data.len() as u16;
    assert(b[2] == be_bytes(f.channel)[0] && b[3] == be_bytes(f.channel)[1]);
    assert(b[4] == be_bytes(f.cmd)[0] && b[5] == be_bytes(f.cmd)[1]);
    assert(b[6] == be_bytes(len)[0] && b[7] == be_bytes(len)[1]);
    assert(b.skip(8) =~= f.data);
}

/// A payload of more than 65535 bytes has no frame.
pub proof fn long_payload_does_not_fit(f: FrameView)
    ensures
        fits(f) <==> f.data.len() <= 65535,
{
}

/// One read off a stream: fewer than eight bytes are its end; other letters than `SS` at its
/// start are an error that shows them; and otherwise the payload is as many of the following
/// bytes as the seventh and eighth byte say, if there are that many.
pub proof fn stream_is_read_by_its_header(s: Seq<u8>)
    ensures
        ({
            let (result, taken) = read_stream(s);
            let len = 256 * s[6] + s[7];
            if s.len() < 8 {
                result is End && taken == s.len()
            } else if s[0] != 0x53 || s[1] != 0x53 {
                result == ReadResult::Failed(FrameErrorView::BadMagic(s[0], s[1])) && taken == 8
            } else if s.len() < 8 + len {
                &&& result matches ReadResult::Failed(FrameErrorView::Eof(_))
                &&& taken == s.len()
            } else {
                &&& taken == 8 + len
                &&& result matches ReadResult::Frame(f)
                &&& f.channel == 256 * s[2] + s[3]
                &&& f.cmd == 256 * s[4] + s[5]
                &&& f.data == s.subrange(8, 8 + len)
            }
        }),
{
}

/// The reading of a header: its seventh and eighth byte say how many bytes are read next, and
/// those become the payload, on the channel and with the command of the header.
pub proof fn header_announces_the_payload(h: Seq<u8>, data: Seq<u8>)
    requires
        h.len() == 8,
        h[0] == 0x53,
        h[1] == 0x53,
        data.len() == 256 * h[6] + h[7],
    ensures
        ({
            let f = match read_step(ReadState::Header, ReadEventView::Bytes(h)) {
                ReadStepView::Done(ReadResult::Frame(f)) => Some(f),
                ReadStepView::Read(state, n) => if n == data.len() && n > 0 && wanted(state) == n {
                    match read_step(state, ReadEventView::Bytes(data)) {
                        ReadStepView::Done(ReadResult::Frame(f)) => Some(f),
                        _ => None,
                    }
                } else {
                    None
                },
                _ => None,
            };
            &&& f matches Some(g)
            &&& g.channel == 256 * h[2] + h[3]
            &&& g.cmd == 256 * h[4] + h[5]
            &&& g.data == data
        }),
{
    if data.len() == 0 {
        assert(data =~= seq![]);
    }
}

/// A header that does not start with `SS` is refused, with the two bytes it starts with.
pub proof fn other_letters_are_refused(h: Seq<u8>)
    requires
        h.len() == 8,
        !(h[0] == 0x53 && h[1] == 0x53),
    ensures
        read_step(ReadState::Header, ReadEventView::Bytes(h)) == ReadStepView::Done(
            ReadResult::Failed(FrameErrorView::BadMagic(h[0], h[1])),
        ),
{
}

/// The stream may end where a header would start; where it ends or fails elsewhere, that is
/// an error with the message of the read.
pub proof fn stream_ends_between_frames_only(
    channel: u16,
    cmd: u16,
    len: u16,
    why: Seq<char>,
)
    ensures
        read_step(ReadState::Header, ReadEventView::Eof(why)) == ReadStepView::Done(
            ReadResult::End,
        ),
        read_step(ReadState::Header, ReadEventView::Failed(why)) == ReadStepView::Done(
            ReadResult::Failed(FrameErrorView::Io(why)),
        ),
        read_step(ReadState::Payload { channel, cmd, len }, ReadEventView::Eof(why))
            == ReadStepView::Done(ReadResult::Failed(FrameErrorView::Eof(why))),
        read_step(ReadState::Payload { channel, cmd, len }, ReadEventView::Failed(why))
            == ReadStepView::Done(ReadResult::Failed(FrameErrorView::Io(why))),
{
}

/// A frame is flushed once it is written, and the wait comes after that; neither comes in
/// between.
pub proof fn frame_is_flushed_and_waited_for(f: FrameView)
    ensures
        ({
            let p = write_plan(f);
            let n = p.len() as int;
            &&& n >= 3
            &&& p[n - 1] is Pause
            &&& p[n - 2] is Flush
            &&& forall|i: int| 0 <= i < n - 2 ==> (#[trigger] p[i]) is Write
        }),
{
}

/// A number that is no command has no name but `UNKNOWN`.
pub proof fn other_numbers_are_unknown(cmd: u16)
    requires
        cmd < 0x4200 || cmd > 0x420e,
    ensures
        command_name(cmd) == "UNKNOWN"@,
{
}

/// The message of an error shows the bytes that stand for the magic, or the number of bytes and
/// the greatest there may be, or is that of the stream.
pub proof fn messages_show_what_is_wrong(a: u8, b: u8, n: nat, why: Seq<char>)
    ensures
        frame_error_text(FrameErrorView::BadMagic(a, b)) == "bad magic: "@ + hex_byte(a)
            + hex_byte(b),
        frame_error_text(FrameErrorView::TooLong(n)) == "payload "@ + digits(n) + " exceeds "@
            + digits(65535) + " max"@,
        frame_error_text(FrameErrorView::Eof(why)) == why,
        frame_error_text(FrameErrorView::Io(why)) == why,
{
}

} // verus!
