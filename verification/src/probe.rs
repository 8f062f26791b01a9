//! The probe of a fresh link: a burst of small pings, each of which must come back.
//!
//! Links that lose what is written in quick succession lose some of the burst. The
//! probe sees which answers are missing, and which came back with other bytes.

use vstd::prelude::*;
use vstd::slice::slice_to_vec;

use crate::decimal::{digits, index_numbers, number_list, push_decimal, push_indices};
use crate::ssnet::frame::{
    frame_bytes, frame_error_text, Frame, FrameError, FrameErrorView, FrameView, CMD_PING,
    CMD_PONG,
};
use crate::text::same_bytes;

verus! {

/// The channel of the first ping. The burst takes the channels from here on, which
/// lie above all channels that connections are given.
pub const PROBE_CHANNEL_BASE: u16 = 0xFF00;

/// The number of pings in a burst.
pub const PROBE_BURST_FRAMES: usize = 16;

/// The number of bytes in each ping.
pub const PROBE_FRAME_PAYLOAD: usize = 256;

/// How long the answers are awaited, in seconds.
pub const PROBE_TIMEOUT_SECS: u64 = 3;

// --- payloads ---------------------------------------------------------------

/// The bytes of a list of byte strings.
pub open spec fn byte_lists(v: Seq<Vec<u8>>) -> Seq<Seq<u8>> {
    Seq::new(v.len(), |i: int| v[i]@)
}

/// The payload of the ping number `i`: bytes that count up from a start of its own.
pub open spec fn probe_payload(i: int) -> Seq<u8> {
    Seq::new(PROBE_FRAME_PAYLOAD as nat, |j: int| ((i * 31 + j) % 256) as u8)
}

/// The payloads of the burst.
pub open spec fn probe_payloads() -> Seq<Seq<u8>> {
    Seq::new(PROBE_BURST_FRAMES as nat, |i: int| probe_payload(i))
}

/// Makes the payloads of the burst.
pub fn make_probe_payloads() -> (r: Vec<Vec<u8>>)
    ensures
        byte_lists(r@) == probe_payloads(),
{
    let mut r: Vec<Vec<u8>> = Vec::new();
    let mut i: usize = 0;
    while i < PROBE_BURST_FRAMES
        invariant
            i <= PROBE_BURST_FRAMES,
            r@.len() == i,
            forall|k: int| 0 <= k < i ==> (#[trigger] r@[k])@ == probe_payload(k),
        decreases PROBE_BURST_FRAMES - i,
    {
        let mut p: Vec<u8> = Vec::new();
        let mut j: usize = 0;
        while j < PROBE_FRAME_PAYLOAD
            invariant
                i < PROBE_BURST_FRAMES,
                j <= PROBE_FRAME_PAYLOAD,
                p@.len() == j,
                forall|k: int| 0 <= k < j ==> #[trigger] p@[k] == probe_payload(i as int)[k],
            decreases PROBE_FRAME_PAYLOAD - j,
        {
            p.push(((i * 31 + j) % 256) as u8);
            j += 1;
        }
        assert(p@ =~= probe_payload(i as int));
        r.push(p);
        i += 1;
    }
    assert(byte_lists(r@) =~= probe_payloads());
    r
}

/// No two pings of a burst carry the same bytes.
pub proof fn probe_payloads_differ(i: int, k: int)
    requires
        0 <= i < PROBE_BURST_FRAMES,
        0 <= k < PROBE_BURST_FRAMES,
        i != k,
    ensures
        probe_payloads()[i] != probe_payloads()[k],
{
    assert(probe_payloads()[i][0] == ((i * 31) % 256) as u8);
    assert(probe_payloads()[k][0] == ((k * 31) % 256) as u8);
}

// --- errors -----------------------------------------------------------------

/// Why a probe failed.
#[derive(Debug)]
pub enum ProbeError {
    /// A ping could not be sent: its number, its channel, and the reason.
    Send { index: usize, channel: u16, cause: String },
    /// A ping came back with other bytes: its number, how many bytes came, and how
    /// many were sent.
    Mismatch { index: usize, received: usize, expected: usize },
    /// The stream ended.
    Eof,
    /// No frame could be read.
    Read(FrameError),
    /// Not all answers came in time: the numbers of the missing ones, and how many
    /// pings were sent.
    Timeout { lost: Vec<usize>, total: usize },
}

/// What a `ProbeError` says.
#[verifier::ext_equal]
pub enum ProbeErrorView {
    Send { index: nat, channel: u16, cause: Seq<char> },
    Mismatch { index: nat, received: nat, expected: nat },
    Eof,
    Read(FrameErrorView),
    Timeout { lost: Seq<nat>, total: nat },
}

impl View for ProbeError {
    type V = ProbeErrorView;

    open spec fn view(&self) -> ProbeErrorView {
        match self {
            ProbeError::Send { index, channel, cause } => ProbeErrorView::Send {
                index: *index as nat,
                channel: *channel,
                cause: cause@,
            },
            ProbeError::Mismatch { index, received, expected } => ProbeErrorView::Mismatch {
                index: *index as nat,
                received: *received as nat,
                expected: *expected as nat,
            },
            ProbeError::Eof => ProbeErrorView::Eof,
            ProbeError::Read(e) => ProbeErrorView::Read(e@),
            ProbeError::Timeout { lost, total } => ProbeErrorView::Timeout {
                lost: index_numbers(lost@),
                total: *total as nat,
            },
        }
    }
}

/// The message of an error.
pub open spec fn probe_error_text(e: ProbeErrorView) -> Seq<char> {
    match e {
        ProbeErrorView::Send { index, channel, cause } => "sending probe PING #"@ + digits(index)
            + " (ch="@ + digits(channel as nat) + "): "@ + cause,
        ProbeErrorView::Mismatch { index, received, expected } => "probe PONG #"@ + digits(index)
            + " payload mismatch ("@ + digits(received) + " bytes received, "@ + digits(expected)
            + " expected)"@,
        ProbeErrorView::Eof => "EOF on remote stdout during probe"@,
        ProbeErrorView::Read(f) => frame_error_text(f),
        ProbeErrorView::Timeout { lost, total } => "probe timeout after 3s, lost "@ + digits(
            lost.len(),
        ) + "/"@ + digits(total) + " PONGs (idx ["@ + number_list(lost) + "])"@,
    }
}

impl ProbeError {
    /// The message of the error.
    pub fn text(&self) -> (r: String)
        ensures
            r@ == probe_error_text(self@),
    {
        let mut s: String = String::new();
        match self {
            ProbeError::Send { index, channel, cause } => {
                s.append("sending probe PING #");
                push_decimal(&mut s, *index as u64);
                s.append(" (ch=");
                push_decimal(&mut s, *channel as u64);
                s.append("): ");
                s.append(cause.as_str());
            },
            ProbeError::Mismatch { index, received, expected } => {
                s.append("probe PONG #");
                push_decimal(&mut s, *index as u64);
                s.append(" payload mismatch (");
                push_decimal(&mut s, *received as u64);
                s.append(" bytes received, ");
                push_decimal(&mut s, *expected as u64);
                s.append(" expected)");
            },
            ProbeError::Eof => {
                s.append("EOF on remote stdout during probe");
            },
            ProbeError::Read(e) => {
                s.append(e.text().as_str());
            },
            ProbeError::Timeout { lost, total } => {
                s.append("probe timeout after 3s, lost ");
                push_decimal(&mut s, lost.len() as u64);
                s.append("/");
                push_decimal(&mut s, *total as u64);
                s.append(" PONGs (idx [");
                push_indices(&mut s, lost.as_slice());
                s.append("])");
            },
        }
        assert(s@ =~= probe_error_text(self@));
        s
    }
}

// --- the probe --------------------------------------------------------------

/// A probe under way: what was sent, and which answers came.
#[derive(Debug)]
pub struct Probe {
    payloads: Vec<Vec<u8>>,
    seen: Vec<bool>,
    got: usize,
}

/// What a probe knows.
#[verifier::ext_equal]
pub struct ProbeView {
    /// The payloads of the pings.
    pub payloads: Seq<Seq<u8>>,
    /// Which pings were answered.
    pub seen: Seq<bool>,
}

impl View for Probe {
    type V = ProbeView;

    closed spec fn view(&self) -> ProbeView {
        ProbeView { payloads: byte_lists(self.payloads@), seen: self.seen@ }
    }
}

/// How many of the answers came.
pub open spec fn count(seen: Seq<bool>) -> nat
    decreases seen.len(),
{
    if seen.len() == 0 {
        0
    } else {
        count(seen.drop_last()) + if seen.last() {
            1nat
        } else {
            0nat
        }
    }
}

/// All answers came.
pub open spec fn all_seen(seen: Seq<bool>) -> bool {
    forall|i: int| 0 <= i < seen.len() ==> #[trigger] seen[i]
}

proof fn lemma_count(seen: Seq<bool>)
    ensures
        count(seen) <= seen.len(),
        count(seen) == seen.len() <==> all_seen(seen),
    decreases seen.len(),
{
    if seen.len() > 0 {
        lemma_count(seen.drop_last());
        if all_seen(seen) {
            assert(all_seen(seen.drop_last()));
            assert(seen[seen.len() - 1]);
        }
        if count(seen) == seen.len() {
            assert forall|i: int| 0 <= i < seen.len() implies #[trigger] seen[i] by {
                if i < seen.len() - 1 {
                    assert(seen.drop_last()[i]);
                }
            }
        }
    }
}

proof fn lemma_count_update(seen: Seq<bool>, i: int)
    requires
        0 <= i < seen.len(),
        !seen[i],
    ensures
        count(seen.update(i, true)) == count(seen) + 1,
    decreases seen.len(),
{
    let next = seen.update(i, true);
    if i == seen.len() - 1 {
        assert(next.drop_last() =~= seen.drop_last());
    } else {
        lemma_count_update(seen.drop_last(), i);
        assert(next.drop_last() =~= seen.drop_last().update(i, true));
    }
}

/// The numbers of the pings without an answer, in order.
pub open spec fn missing(seen: Seq<bool>) -> Seq<nat>
    decreases seen.len(),
{
    if seen.len() == 0 {
        seq![]
    } else if seen.last() {
        missing(seen.drop_last())
    } else {
        missing(seen.drop_last()).push((seen.len() - 1) as nat)
    }
}

/// The ping of the burst that a channel belongs to. The channels below the first
/// one count on from the last channel there is.
pub open spec fn probe_index(channel: u16) -> int {
    if channel >= PROBE_CHANNEL_BASE {
        channel - PROBE_CHANNEL_BASE
    } else {
        channel + 0x10000 - PROBE_CHANNEL_BASE
    }
}

/// The pings of a burst.
pub open spec fn probe_pings(payloads: Seq<Seq<u8>>) -> Seq<FrameView> {
    Seq::new(
        payloads.len(),
        |i: int|
            FrameView {
                channel: (PROBE_CHANNEL_BASE + i) as u16,
                cmd: CMD_PING,
                data: payloads[i],
            },
    )
}

/// How a probe stands after a frame.
#[derive(Debug)]
pub enum ProbeOutcome {
    /// Answers are missing.
    More,
    /// All answers came.
    Passed,
    /// The probe failed.
    Failed(ProbeError),
}

/// What a `ProbeOutcome` says.
#[verifier::ext_equal]
pub enum ProbeOutcomeView {
    More,
    Passed,
    Failed(ProbeErrorView),
}

impl View for ProbeOutcome {
    type V = ProbeOutcomeView;

    open spec fn view(&self) -> ProbeOutcomeView {
        match self {
            ProbeOutcome::More => ProbeOutcomeView::More,
            ProbeOutcome::Passed => ProbeOutcomeView::Passed,
            ProbeOutcome::Failed(e) => ProbeOutcomeView::Failed(e@),
        }
    }
}

/// What a probe knows after a frame, and how it stands. Only pongs on the channels of
/// the burst count, and each of them once.
pub open spec fn probe_step(p: ProbeView, f: FrameView) -> (ProbeView, ProbeOutcomeView) {
    let i = probe_index(f.channel);
    if f.cmd != CMD_PONG || i >= p.payloads.len() {
        (p, ProbeOutcomeView::More)
    } else if f.data != p.payloads[i] {
        (
            p,
            ProbeOutcomeView::Failed(
                ProbeErrorView::Mismatch {
                    index: i as nat,
                    received: f.data.len(),
                    expected: p.payloads[i].len(),
                },
            ),
        )
    } else {
        let next = ProbeView { payloads: p.payloads, seen: p.seen.update(i, true) };
        (
            next,
            if all_seen(next.seen) {
                ProbeOutcomeView::Passed
            } else {
                ProbeOutcomeView::More
            },
        )
    }
}

impl Probe {
    /// The parts of a probe belong together.
    pub closed spec fn wf(&self) -> bool {
        &&& self.payloads@.len() == self.seen@.len()
        &&& self.payloads@.len() <= 256
        &&& self.got == count(self.seen@)
    }

    /// A probe with these payloads, of which none was answered yet.
    pub fn new(payloads: Vec<Vec<u8>>) -> (r: Probe)
        requires
            payloads@.len() <= 256,
        ensures
            r.wf(),
            r@.payloads == byte_lists(payloads@),
            r@.seen == Seq::new(payloads@.len(), |i: int| false),
    {
        let mut seen: Vec<bool> = Vec::new();
        let mut i: usize = 0;
        while i < payloads.len()
            invariant
                i <= payloads@.len(),
                seen@ == Seq::new(i as nat, |k: int| false),
                count(seen@) == 0,
            decreases payloads.len() - i,
        {
            let ghost before = seen@;
            seen.push(false);
            assert(seen@.drop_last() =~= before);
            i += 1;
        }
        assert(seen@ =~= Seq::new(payloads@.len(), |i: int| false));
        Probe { payloads, seen, got: 0 }
    }

    /// The pings of the burst, in the order in which they are sent.
    pub fn pings(&self) -> (r: Vec<Frame>)
        requires
            self.wf(),
        ensures
            Seq::new(r@.len(), |i: int| r@[i]@) == probe_pings(self@.payloads),
    {
        let mut r: Vec<Frame> = Vec::new();
        let mut i: usize = 0;
        while i < self.payloads.len()
            invariant
                self.wf(),
                i <= self.payloads@.len(),
                r@.len() == i,
                forall|k: int|
                    0 <= k < i ==> (#[trigger] r@[k])@ == probe_pings(self@.payloads)[k],
            decreases self.payloads.len() - i,
        {
            let channel: u16 = PROBE_CHANNEL_BASE + i as u16;
            r.push(Frame::new(channel, CMD_PING, slice_to_vec(self.payloads[i].as_slice())));
            assert(r@[i as int]@ =~= probe_pings(self@.payloads)[i as int]);
            i += 1;
        }
        assert(Seq::new(r@.len(), |i: int| r@[i]@) =~= probe_pings(self@.payloads));
        r
    }

    /// All pings were answered.
    pub fn passed(&self) -> (r: bool)
        requires
            self.wf(),
        ensures
            r == all_seen(self@.seen),
    {
        proof {
            lemma_count(self.seen@);
        }
        self.got == self.payloads.len()
    }

    /// Takes note of a frame that came back.
    pub fn on_frame(&mut self, f: &Frame) -> (r: ProbeOutcome)
        requires
            old(self).wf(),
        ensures
            final(self).wf(),
            (final(self)@, r@) == probe_step(old(self)@, f@),
    {
        if f.cmd != CMD_PONG {
            return ProbeOutcome::More;
        }
        let idx: usize = if f.channel >= PROBE_CHANNEL_BASE {
            (f.channel - PROBE_CHANNEL_BASE) as usize
        } else {
            f.channel as usize + 0x10000 - PROBE_CHANNEL_BASE as usize
        };
        if idx >= self.payloads.len() {
            return ProbeOutcome::More;
        }
        if !same_bytes(f.data.as_slice(), self.payloads[idx].as_slice()) {
            return ProbeOutcome::Failed(
                ProbeError::Mismatch {
                    index: idx,
                    received: f.data.len(),
                    expected: self.payloads[idx].len(),
                },
            );
        }
        if !self.seen[idx] {
            proof {
                lemma_count_update(self.seen@, idx as int);
                lemma_count(self.seen@);
                lemma_count(self.seen@.update(idx as int, true));
            }
            self.seen.set(idx, true);
            self.got = self.got + 1;
        } else {
            assert(self.seen@.update(idx as int, true) =~= self.seen@);
        }
        if self.passed() {
            ProbeOutcome::Passed
        } else {
            ProbeOutcome::More
        }
    }

    /// The error of a probe whose time is up.
    pub fn timed_out(&self) -> (r: ProbeError)
        requires
            self.wf(),
        ensures
            r@ == (ProbeErrorView::Timeout {
                lost: missing(self@.seen),
                total: self@.payloads.len(),
            }),
    {
        let mut lost: Vec<usize> = Vec::new();
        let mut i: usize = 0;
        assert(index_numbers(lost@) =~= missing(self.seen@.take(0)));
        while i < self.seen.len()
            invariant
                i <= self.seen@.len(),
                index_numbers(lost@) == missing(self.seen@.take(i as int)),
            decreases self.seen.len() - i,
        {
            let ghost before = index_numbers(lost@);
            assert(self.seen@.take(i + 1).drop_last() =~= self.seen@.take(i as int));
            if !self.seen[i] {
                lost.push(i);
                assert(index_numbers(lost@) =~= before.push(i as nat));
            }
            i += 1;
        }
        assert(self.seen@.take(self.seen@.len() as int) =~= self.seen@);
        ProbeError::Timeout { lost, total: self.payloads.len() }
    }
}

// --- laws -------------------------------------------------------------------

/// Each ping of a burst takes 264 bytes on the wire.
pub proof fn probe_ping_is_small(i: int)
    requires
        0 <= i < PROBE_BURST_FRAMES,
    ensures
        frame_bytes(probe_pings(probe_payloads())[i]).len() == 264,
{
}

/// How a probe stands after the frames `fs`, of which it takes no more once it has
/// passed or failed.
pub open spec fn probe_run(p: ProbeView, fs: Seq<FrameView>) -> (ProbeView, ProbeOutcomeView)
    decreases fs.len(),
{
    if all_seen(p.seen) {
        (p, ProbeOutcomeView::Passed)
    } else if fs.len() == 0 {
        (p, ProbeOutcomeView::More)
    } else {
        match probe_step(p, fs[0]).1 {
            ProbeOutcomeView::Failed(e) => (p, ProbeOutcomeView::Failed(e)),
            _ => probe_run(probe_step(p, fs[0]).0, fs.drop_first()),
        }
    }
}

/// The frame answers the ping number `i`.
pub open spec fn answers(p: ProbeView, i: int, f: FrameView) -> bool {
    &&& f.cmd == CMD_PONG
    &&& probe_index(f.channel) == i
    &&& f.data == p.payloads[i]
}

/// Some frame of `fs` answers the ping number `i`.
pub open spec fn answered(p: ProbeView, fs: Seq<FrameView>, i: int) -> bool {
    exists|k: int| 0 <= k < fs.len() && answers(p, i, #[trigger] fs[k])
}

/// Every pong of `fs` on a channel of the burst answers the ping of that channel.
pub open spec fn pongs_match(p: ProbeView, fs: Seq<FrameView>) -> bool {
    forall|k: int|
        0 <= k < fs.len() && (#[trigger] fs[k]).cmd == CMD_PONG && probe_index(fs[k].channel)
            < p.payloads.len() ==> answers(p, probe_index(fs[k].channel), fs[k])
}

/// A probe passes if every ping that was still open is answered and no pong carries
/// other bytes than its ping, in whatever order the answers come and whatever other
/// frames come between them.
pub proof fn probe_passes_when_all_answered(p: ProbeView, fs: Seq<FrameView>)
    requires
        p.payloads.len() == p.seen.len(),
        pongs_match(p, fs),
        forall|i: int|
            0 <= i < p.seen.len() && !(#[trigger] p.seen[i]) ==> answered(p, fs, i),
    ensures
        probe_run(p, fs).1 == ProbeOutcomeView::Passed,
    decreases fs.len(),
{
    if !all_seen(p.seen) {
        let open = choose|i: int| 0 <= i < p.seen.len() && !(#[trigger] p.seen[i]);
        assert(answered(p, fs, open));
        let f = fs[0];
        let rest = fs.drop_first();
        let next = probe_step(p, f).0;
        assert(pongs_match(next, rest)) by {
            assert forall|k: int|
                0 <= k < rest.len() && (#[trigger] rest[k]).cmd == CMD_PONG && probe_index(
                    rest[k].channel,
                ) < next.payloads.len() implies answers(
                next,
                probe_index(rest[k].channel),
                rest[k],
            ) by {
                assert(rest[k] == fs[k + 1]);
            }
        }
        assert forall|i: int| 0 <= i < next.seen.len() && !(#[trigger] next.seen[i]) implies answered(
            next,
            rest,
            i,
        ) by {
            assert(!p.seen[i]);
            let k = choose|k: int| 0 <= k < fs.len() && answers(p, i, #[trigger] fs[k]);
            if k == 0 {
                assert(next.seen[i]);
            } else {
                assert(rest[k - 1] == fs[k]);
                assert(answers(next, i, rest[k - 1]));
            }
        }
        probe_passes_when_all_answered(next, rest);
    }
}

/// A probe passes only if every ping that was still open is answered.
pub proof fn probe_passes_only_when_all_answered(p: ProbeView, fs: Seq<FrameView>, i: int)
    requires
        p.payloads.len() == p.seen.len(),
        probe_run(p, fs).1 == ProbeOutcomeView::Passed,
        0 <= i < p.seen.len(),
        !p.seen[i],
    ensures
        answered(p, fs, i),
    decreases fs.len(),
{
    if fs.len() > 0 {
        let next = probe_step(p, fs[0]).0;
        let rest = fs.drop_first();
        if answers(p, i, fs[0]) {
        } else {
            assert(!next.seen[i]);
            probe_passes_only_when_all_answered(next, rest, i);
            let k = choose|k: int| 0 <= k < rest.len() && answers(next, i, #[trigger] rest[k]);
            assert(rest[k] == fs[k + 1]);
            assert(answers(p, i, fs[k + 1]));
        }
    }
}

/// The missing answers are those that did not come.
pub proof fn missing_are_unseen(seen: Seq<bool>, n: nat)
    ensures
        missing(seen).contains(n) <==> n < seen.len() && !seen[n as int],
    decreases seen.len(),
{
    if seen.len() > 0 {
        let rest = seen.drop_last();
        missing_are_unseen(rest, n);
        let m = missing(rest);
        if !seen.last() {
            let all = m.push((seen.len() - 1) as nat);
            if n == seen.len() - 1 {
                assert(all[m.len() as int] == n);
            }
            if m.contains(n) {
                let k = choose|k: int| 0 <= k < m.len() && m[k] == n;
                assert(all[k] == n);
            }
            if all.contains(n) {
                let k = choose|k: int| 0 <= k < all.len() && all[k] == n;
                if k < m.len() {
                    assert(m[k] == n);
                }
            }
        }
    }
}

/// The burst is sixteen pings on the channels from 0xff00 on. Each carries 256 bytes that count
/// up by one, from 31 times its number on, and start over after 255.
pub proof fn burst_is_laid_out(i: int, j: int)
    requires
        0 <= i < 16,
        0 <= j < 256,
    ensures
        ({
            let pings = probe_pings(probe_payloads());
            &&& pings.len() == 16
            &&& pings[i].channel == 0xff00 + i
            &&& pings[i].cmd == 0x4201
            &&& pings[i].data.len() == 256
            &&& pings[i].data[j] == (31 * i + j) % 256
        }),
{
}

/// A pong counts for the ping that was sent on its channel, and for no other; the pongs on
/// other channels, and all other frames, change nothing.
pub proof fn pong_counts_for_its_ping(p: ProbeView, f: FrameView)
    requires
        p.payloads.len() == p.seen.len(),
        p.payloads.len() <= 256,
    ensures
        ({
            let (after, outcome) = probe_step(p, f);
            let i = f.channel - 0xff00;
            if f.cmd == 0x4202 && 0 <= i < p.payloads.len() {
                if f.data == p.payloads[i] {
                    &&& after.payloads == p.payloads
                    &&& after.seen.len() == p.seen.len()
                    &&& after.seen[i]
                    &&& forall|k: int|
                        0 <= k < p.seen.len() && k != i ==> #[trigger] after.seen[k] == p.seen[k]
                    &&& outcome is Passed || outcome is More
                    &&& outcome is Passed <==> forall|k: int|
                        0 <= k < p.seen.len() && k != i ==> #[trigger] p.seen[k]
                } else {
                    &&& after == p
                    &&& outcome == ProbeOutcomeView::Failed(
                        ProbeErrorView::Mismatch {
                            index: i as nat,
                            received: f.data.len(),
                            expected: p.payloads[i].len(),
                        },
                    )
                }
            } else {
                after == p && outcome is More
            }
        }),
{
    let i = f.channel - 0xff00;
    if f.cmd == 0x4202 && 0 <= i < p.payloads.len() && f.data == p.payloads[i] {
        let after = probe_step(p, f).0;
        assert(probe_index(f.channel) == i);
        if all_seen(after.seen) {
            assert forall|k: int| 0 <= k < p.seen.len() && k != i implies #[trigger] p.seen[k] by {
                assert(after.seen[k]);
            }
        } else {
            let k = choose|k: int| 0 <= k < after.seen.len() && !(#[trigger] after.seen[k]);
            assert(k != i && !p.seen[k]);
        }
    }
}

/// The numbers of the missing answers come in order, each once.
pub proof fn missing_come_in_order(seen: Seq<bool>, a: int, b: int)
    requires
        0 <= a < b < missing(seen).len(),
    ensures
        missing(seen)[a] < missing(seen)[b] < seen.len(),
    decreases seen.len(),
{
    let rest = seen.drop_last();
    lemma_missing_below(rest);
    if b < missing(rest).len() {
        missing_come_in_order(rest, a, b);
    } else {
        assert(missing(seen)[a] == missing(rest)[a]);
    }
}

proof fn lemma_missing_below(seen: Seq<bool>)
    ensures
        forall|a: int| 0 <= a < missing(seen).len() ==> #[trigger] missing(seen)[a] < seen.len(),
    decreases seen.len(),
{
    if seen.len() > 0 {
        let rest = seen.drop_last();
        lemma_missing_below(rest);
        assert forall|a: int| 0 <= a < missing(seen).len() implies #[trigger] missing(seen)[a]
            < seen.len() by {
            if a < missing(rest).len() {
                assert(missing(seen)[a] == missing(rest)[a]);
            }
        }
    }
}

/// The message of a probe that failed says which ping it is about, with the cause or the numbers
/// of bytes; or that the stream ended; or which answers are missing, and of how many.
pub proof fn messages_show_what_is_wrong(
    index: nat,
    channel: u16,
    cause: Seq<char>,
    received: nat,
    expected: nat,
    lost: Seq<nat>,
    total: nat,
    e: FrameErrorView,
)
    ensures
        probe_error_text(ProbeErrorView::Send { index, channel, cause }) == "sending probe PING #"@
            + digits(index) + " (ch="@ + digits(channel as nat) + "): "@ + cause,
        probe_error_text(ProbeErrorView::Mismatch { index, received, expected })
            == "probe PONG #"@ + digits(index) + " payload mismatch ("@ + digits(received)
            + " bytes received, "@ + digits(expected) + " expected)"@,
        probe_error_text(ProbeErrorView::Eof) == "EOF on remote stdout during probe"@,
        probe_error_text(ProbeErrorView::Read(e)) == frame_error_text(e),
        probe_error_text(ProbeErrorView::Timeout { lost, total })
            == "probe timeout after 3s, lost "@ + digits(lost.len()) + "/"@ + digits(total)
            + " PONGs (idx ["@ + number_list(lost) + "])"@,
{
}

} // verus!
