//! The header by which the server marks the start of its frames.
//!
//! The server writes two NULs and a fixed word. A client skips what comes before
//! the first NUL, then what comes before the second, and then takes the word.

use vstd::prelude::*;
use vstd::slice::{slice_subrange, slice_to_vec};

use crate::decimal::{byte_numbers, number_list, push_bytes};
use crate::ssnet::frame::{early_eof, ReadEvent, ReadEventView};
use crate::text::{
    find, lemma_find, lemma_find_after, lemma_find_first, lemma_find_none, same_bytes,
};

verus! {

/// What the server writes before its first frame: two NULs and `SSHUTTLE0001`.
pub const SYNC_HEADER: [u8; 14] = [
    0x00,
    0x00,
    0x53,
    0x53,
    0x48,
    0x55,
    0x54,
    0x54,
    0x4c,
    0x45,
    0x30,
    0x30,
    0x30,
    0x31,
];

/// The word after the two NULs, `SSHUTTLE0001`.
pub const SYNC_WORD: [u8; 12] = [
    0x53,
    0x53,
    0x48,
    0x55,
    0x54,
    0x54,
    0x4c,
    0x45,
    0x30,
    0x30,
    0x30,
    0x31,
];

/// Why the synchronisation header could not be read.
#[derive(Debug)]
pub enum SyncError {
    /// Other bytes stand where the word belongs.
    Mismatch(Vec<u8>),
    /// The stream failed or ended.
    Io(String),
}

/// What a `SyncError` says.
#[verifier::ext_equal]
pub enum SyncErrorView {
    Mismatch(Seq<u8>),
    Io(Seq<char>),
}

impl View for SyncError {
    type V = SyncErrorView;

    open spec fn view(&self) -> SyncErrorView {
        match self {
            SyncError::Mismatch(b) => SyncErrorView::Mismatch(b@),
            SyncError::Io(s) => SyncErrorView::Io(s@),
        }
    }
}

/// How far the reading of the header has come.
#[derive(Clone, Copy, Debug, PartialEq, Eq, Structural)]
pub enum SyncState {
    /// The first NUL is awaited.
    FirstNul,
    /// The second NUL is awaited.
    SecondNul,
    /// The word is to be read.
    Word,
}

/// What to do next to read the header.
#[derive(Debug)]
pub enum SyncStep {
    /// Read exactly this many bytes, and go on in this state.
    Read(SyncState, usize),
    /// The header was read, or could not be.
    Done(Result<(), SyncError>),
}

/// What a `SyncStep` says; the outcome is `None` where the header was read.
#[verifier::ext_equal]
pub enum SyncStepView {
    Read(SyncState, nat),
    Done(Option<SyncErrorView>),
}

/// The outcome that a returned value stands for.
pub open spec fn sync_result(r: Result<(), SyncError>) -> Option<SyncErrorView> {
    match r {
        Ok(_) => None,
        Err(e) => Some(e@),
    }
}

impl View for SyncStep {
    type V = SyncStepView;

    open spec fn view(&self) -> SyncStepView {
        match self {
            SyncStep::Read(s, n) => SyncStepView::Read(*s, *n as nat),
            SyncStep::Done(r) => SyncStepView::Done(sync_result(*r)),
        }
    }
}

/// The number of bytes that are read in a state.
pub open spec fn sync_wanted(state: SyncState) -> nat {
    match state {
        SyncState::Word => SYNC_WORD@.len(),
        _ => 1,
    }
}

/// The next step of reading the header.
pub open spec fn sync_step(state: SyncState, event: ReadEventView) -> SyncStepView {
    match event {
        ReadEventView::Eof(s) | ReadEventView::Failed(s) => SyncStepView::Done(
            Some(SyncErrorView::Io(s)),
        ),
        ReadEventView::Bytes(b) => match state {
            SyncState::FirstNul => if b[0] == 0 {
                SyncStepView::Read(SyncState::SecondNul, 1)
            } else {
                SyncStepView::Read(SyncState::FirstNul, 1)
            },
            SyncState::SecondNul => if b[0] == 0 {
                SyncStepView::Read(SyncState::Word, SYNC_WORD@.len())
            } else {
                SyncStepView::Read(SyncState::SecondNul, 1)
            },
            SyncState::Word => if b == SYNC_WORD@ {
                SyncStepView::Done(None)
            } else {
                SyncStepView::Done(Some(SyncErrorView::Mismatch(b)))
            },
        },
    }
}

/// The first step of reading the header.
pub fn read_sync_start() -> (r: SyncStep)
    ensures
        r@ == SyncStepView::Read(SyncState::FirstNul, sync_wanted(SyncState::FirstNul)),
{
    SyncStep::Read(SyncState::FirstNul, 1)
}

/// The next step of reading the header, after what came of the last read.
pub fn read_sync_next(state: SyncState, event: ReadEvent) -> (r: SyncStep)
    requires
        event@ matches ReadEventView::Bytes(b) ==> b.len() == sync_wanted(state),
    ensures
        r@ == sync_step(state, event@),
{
    let b: Vec<u8> = match event {
        ReadEvent::Bytes(b) => b,
        ReadEvent::Eof(s) => {
            return SyncStep::Done(Err(SyncError::Io(s)));
        },
        ReadEvent::Failed(s) => {
            return SyncStep::Done(Err(SyncError::Io(s)));
        },
    };
    match state {
        SyncState::FirstNul => {
            if b[0] == 0 {
                SyncStep::Read(SyncState::SecondNul, 1)
            } else {
                SyncStep::Read(SyncState::FirstNul, 1)
            }
        },
        SyncState::SecondNul => {
            if b[0] == 0 {
                SyncStep::Read(SyncState::Word, 12)
            } else {
                SyncStep::Read(SyncState::SecondNul, 1)
            }
        },
        SyncState::Word => {
            let word: [u8; 12] = SYNC_WORD;
            if same_bytes(b.as_slice(), word.as_slice()) {
                SyncStep::Done(Ok(()))
            } else {
                SyncStep::Done(Err(SyncError::Mismatch(b)))
            }
        },
    }
}

/// Where the first frame starts in the stream `s`, after which the stream ends: right
/// after the header, which stands behind the second NUL; or why there is no header.
pub open spec fn sync_end(s: Seq<u8>) -> Result<int, SyncErrorView> {
    match find(s, 0) {
        None => Err(SyncErrorView::Io(early_eof())),
        Some(i) => {
            let s1 = s.skip(i + 1);
            match find(s1, 0) {
                None => Err(SyncErrorView::Io(early_eof())),
                Some(j) => {
                    let s2 = s1.skip(j + 1);
                    if s2.len() < 12 {
                        Err(SyncErrorView::Io(early_eof()))
                    } else if s2.take(12) == SYNC_WORD@ {
                        Ok(i + j + 14)
                    } else {
                        Err(SyncErrorView::Mismatch(s2.take(12)))
                    }
                },
            }
        },
    }
}

/// The part of a stream that was skipped before the word, up to `at`.
spec fn skipped(s: Seq<u8>, state: SyncState, at: int) -> bool {
    match state {
        SyncState::FirstNul => forall|k: int| 0 <= k < at ==> s[k] != 0,
        SyncState::SecondNul => find(s, 0) matches Some(i) && 0 <= i < at && forall|k: int|
            i < k < at ==> s[k] != 0,
        SyncState::Word => {
            &&& find(s, 0) matches Some(i)
            &&& find(s.skip(i + 1), 0) matches Some(j)
            &&& at == i + j + 2
        },
    }
}

proof fn lemma_skip_one(s: Seq<u8>, state: SyncState, at: int)
    requires
        skipped(s, state, at),
        0 <= at < s.len(),
        state != SyncState::Word,
    ensures
        sync_step(state, ReadEventView::Bytes(s.subrange(at, at + 1))) matches SyncStepView::Read(
            next,
            _,
        ) && skipped(s, next, at + 1),
{
    assert(s.subrange(at, at + 1)[0] == s[at]);
    if s[at] == 0 {
        match state {
            SyncState::FirstNul => {
                lemma_find_first(s, 0, at);
            },
            SyncState::SecondNul => {
                let i = find(s, 0)->0;
                let s1 = s.skip(i + 1);
                assert(s1[at - i - 1] == 0);
                assert forall|k: int| 0 <= k < at - i - 1 implies s1[k] != 0 by {
                    assert(s1[k] == s[k + i + 1]);
                }
                lemma_find_first(s1, 0, at - i - 1);
            },
            SyncState::Word => {},
        }
    }
}

proof fn lemma_stream_ends(s: Seq<u8>, state: SyncState, at: int)
    requires
        skipped(s, state, at),
        0 <= at <= s.len(),
        s.len() - at < sync_wanted(state),
    ensures
        sync_end(s) == Err::<int, SyncErrorView>(SyncErrorView::Io(early_eof())),
{
    match state {
        SyncState::FirstNul => {
            lemma_find_none(s, 0);
        },
        SyncState::SecondNul => {
            let i = find(s, 0)->0;
            let s1 = s.skip(i + 1);
            assert forall|k: int| 0 <= k < s1.len() implies s1[k] != 0 by {
                assert(s1[k] == s[k + i + 1]);
            }
            lemma_find_none(s1, 0);
        },
        SyncState::Word => {
            let i = find(s, 0)->0;
            lemma_find(s, 0);
            lemma_find(s.skip(i + 1), 0);
        },
    }
}

/// Reads the synchronisation header from `stream`, after which the stream ends.
/// Gives the position of the first frame.
pub fn read_sync_header(stream: &[u8]) -> (r: Result<usize, SyncError>)
    ensures
        match r {
            Ok(n) => sync_end(stream@) == Ok::<int, SyncErrorView>(n as int),
            Err(e) => sync_end(stream@) == Err::<int, SyncErrorView>(e@),
        },
{
    let n: usize = stream.len();
    let mut at: usize = 0;
    let mut step: SyncStep = read_sync_start();
    loop
        invariant
            n == stream@.len(),
            at <= n,
            match step@ {
                SyncStepView::Read(st, want) => want == sync_wanted(st) && skipped(
                    stream@,
                    st,
                    at as int,
                ),
                SyncStepView::Done(None) => sync_end(stream@) == Ok::<int, SyncErrorView>(
                    at as int,
                ),
                SyncStepView::Done(Some(e)) => sync_end(stream@) == Err::<int, SyncErrorView>(e),
            },
        decreases
                n - at,
                (match step@ {
                    SyncStepView::Read(_, _) => 1int,
                    SyncStepView::Done(_) => 0int,
                }),
    {
        match step {
            SyncStep::Done(r) => {
                return match r {
                    Ok(_) => Ok(at),
                    Err(e) => Err(e),
                };
            },
            SyncStep::Read(state, want) => {
                if n - at < want {
                    let mut why: String = String::new();
                    why.append("early eof");
                    assert(why@ =~= early_eof());
                    proof {
                        lemma_stream_ends(stream@, state, at as int);
                    }
                    step = read_sync_next(state, ReadEvent::Eof(why));
                } else {
                    let bytes: Vec<u8> = slice_to_vec(slice_subrange(stream, at, at + want));
                    proof {
                        if state == SyncState::Word {
                            let i = find(stream@, 0)->0;
                            let s1 = stream@.skip(i + 1);
                            lemma_find(stream@, 0);
                            lemma_find(s1, 0);
                            let j = find(s1, 0)->0;
                            assert(s1.skip(j + 1).take(12) =~= bytes@);
                        } else {
                            lemma_skip_one(stream@, state, at as int);
                        }
                    }
                    at = at + want;
                    step = read_sync_next(state, ReadEvent::Bytes(bytes));
                }
            },
        }
    }
}

/// The message of an error.
pub open spec fn sync_error_text(e: SyncErrorView) -> Seq<char> {
    match e {
        SyncErrorView::Mismatch(b) => "sync header mismatch: ["@ + number_list(byte_numbers(b))
            + "]"@,
        SyncErrorView::Io(s) => s,
    }
}

impl SyncError {
    /// The message of the error.
    pub fn text(&self) -> (r: String)
        ensures
            r@ == sync_error_text(self@),
    {
        let mut s: String = String::new();
        match self {
            SyncError::Mismatch(b) => {
                s.append("sync header mismatch: [");
                push_bytes(&mut s, b.as_slice());
                s.append("]");
            },
            SyncError::Io(t) => {
                s.append(t.as_str());
            },
        }
        assert(s@ =~= sync_error_text(self@));
        s
    }
}

// --- laws -------------------------------------------------------------------

/// A client takes the header that a server writes, whatever free of NULs was on the
/// stream before it, and goes on with what follows it.
pub proof fn sync_header_is_found(noise: Seq<u8>, rest: Seq<u8>)
    requires
        !noise.contains(0),
    ensures
        sync_end(noise + SYNC_HEADER@ + rest) == Ok::<int, SyncErrorView>(
            (noise + SYNC_HEADER@).len() as int,
        ),
{
    let none = Seq::<u8>::empty();
    assert(!none.contains(0u8));
    assert(SYNC_HEADER@ =~= seq![0u8] + none + seq![0u8] + SYNC_WORD@);
    sync_word_is_found(noise, none, rest);
    assert(noise + SYNC_HEADER@ + rest =~= noise + seq![0u8] + (none + seq![0u8] + (SYNC_WORD@
        + rest)));
}

/// What stands before each of the two NULs is skipped.
pub proof fn sync_word_is_found(before: Seq<u8>, between: Seq<u8>, rest: Seq<u8>)
    requires
        !before.contains(0),
        !between.contains(0),
    ensures
        sync_end(before + seq![0u8] + (between + seq![0u8] + (SYNC_WORD@ + rest))) == Ok::<
            int,
            SyncErrorView,
        >((before.len() + between.len() + 14) as int),
{
    let s2 = SYNC_WORD@ + rest;
    let s1 = between + seq![0u8] + s2;
    lemma_find_after(before, 0, s1);
    lemma_find_after(between, 0, s2);
    assert(s2.take(12) =~= SYNC_WORD@);
}

/// Where other bytes than `SSHUTTLE0001` stand behind the second NUL, that is an error that
/// shows them.
pub proof fn other_word_is_refused(
    before: Seq<u8>,
    between: Seq<u8>,
    word: Seq<u8>,
    rest: Seq<u8>,
)
    requires
        !before.contains(0),
        !between.contains(0),
        word.len() == 12,
        word != seq![
            'S' as u8,
            'S' as u8,
            'H' as u8,
            'U' as u8,
            'T' as u8,
            'T' as u8,
            'L' as u8,
            'E' as u8,
            '0' as u8,
            '0' as u8,
            '0' as u8,
            '1' as u8,
        ],
    ensures
        sync_end(before + seq![0u8] + (between + seq![0u8] + (word + rest))) == Err::<
            int,
            SyncErrorView,
        >(SyncErrorView::Mismatch(word)),
{
    let s2 = word + rest;
    let s1 = between + seq![0u8] + s2;
    lemma_find_after(before, 0, s1);
    lemma_find_after(between, 0, s2);
    assert(s2.take(12) =~= word);
    assert(SYNC_WORD@ =~= seq![
        'S' as u8,
        'S' as u8,
        'H' as u8,
        'U' as u8,
        'T' as u8,
        'T' as u8,
        'L' as u8,
        'E' as u8,
        '0' as u8,
        '0' as u8,
        '0' as u8,
        '1' as u8,
    ]);
}

/// A stream that ends before the header is complete has none.
pub proof fn header_must_be_complete(before: Seq<u8>, between: Seq<u8>, short: Seq<u8>)
    requires
        !before.contains(0),
        !between.contains(0),
        short.len() < 12,
    ensures
        sync_end(before) matches Err(SyncErrorView::Io(_)),
        sync_end(before + seq![0u8] + between) matches Err(SyncErrorView::Io(_)),
        sync_end(before + seq![0u8] + (between + seq![0u8] + short)) matches Err(
            SyncErrorView::Io(_),
        ),
{
    lemma_find_after(before, 0, between + seq![0u8] + short);
    lemma_find_after(before, 0, between);
    lemma_find_after(between, 0, short);
    assert forall|j: int| 0 <= j < before.len() implies before[j] != 0 by {
        assert(before.contains(before[j]));
    }
    assert forall|j: int| 0 <= j < between.len() implies between[j] != 0 by {
        assert(between.contains(between[j]));
    }
    lemma_find_none(before, 0);
    lemma_find_none(between, 0);
}

/// The header is read byte by byte up to its second NUL, and then the word in one piece: a NUL
/// leads on, any other byte does not.
pub proof fn header_is_read_in_steps(b: u8, word: Seq<u8>, why: Seq<char>, state: SyncState)
    requires
        word.len() == 12,
    ensures
        sync_step(SyncState::FirstNul, ReadEventView::Bytes(seq![b])) == SyncStepView::Read(
            if b == 0 {
                SyncState::SecondNul
            } else {
                SyncState::FirstNul
            },
            1,
        ),
        sync_step(SyncState::SecondNul, ReadEventView::Bytes(seq![b])) == if b == 0 {
            SyncStepView::Read(SyncState::Word, 12)
        } else {
            SyncStepView::Read(SyncState::SecondNul, 1)
        },
        sync_step(SyncState::Word, ReadEventView::Bytes(word)) == SyncStepView::Done(
            if seq![0u8, 0u8] + word == SYNC_HEADER@ {
                None
            } else {
                Some(SyncErrorView::Mismatch(word))
            },
        ),
        sync_step(state, ReadEventView::Eof(why)) == SyncStepView::Done(
            Some(SyncErrorView::Io(why)),
        ),
        sync_step(state, ReadEventView::Failed(why)) == SyncStepView::Done(
            Some(SyncErrorView::Io(why)),
        ),
{
    let head = seq![0u8, 0u8] + word;
    assert(SYNC_HEADER@ =~= seq![0u8, 0u8] + SYNC_WORD@);
    if head == SYNC_HEADER@ {
        assert(head.skip(2) =~= word);
        assert(SYNC_HEADER@.skip(2) =~= SYNC_WORD@);
    }
}

/// The message of an error lists the bytes that stand for the word, or is that of the stream.
pub proof fn messages_show_what_is_wrong(b: Seq<u8>, why: Seq<char>)
    ensures
        sync_error_text(SyncErrorView::Mismatch(b)) == "sync header mismatch: ["@ + number_list(
            Seq::new(b.len(), |i: int| b[i] as nat),
        ) + "]"@,
        sync_error_text(SyncErrorView::Io(why)) == why,
{
    assert(byte_numbers(b) =~= Seq::new(b.len(), |i: int| b[i] as nat));
}

} // verus!
