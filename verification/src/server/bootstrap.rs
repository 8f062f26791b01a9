//! The bootstrap of a stock sshuttle client, which the server discards.
//!
//! Such a client takes its server for a Python interpreter. It first sends the source
//! of an assembler, whose length it announces, and then its modules. Each module is a
//! line with its name, a line with its size in decimal, and that many bytes; an empty
//! line ends them. The frames come after that.

use vstd::prelude::*;
use vstd::slice::{slice_subrange, slice_to_vec};
use vstd::utf8::encode_utf8;

use crate::decimal;
use crate::decimal::read_unsigned;
use crate::ssnet::frame;
use crate::text;
use crate::text::{decode, find_byte, string_of, trimmed, trimmed_end, CharClass};

verus! {

/// Why a bootstrap is not accepted.
#[derive(Debug)]
pub enum BootError {
    /// The source of the assembler, of this many bytes, could not be read.
    Assembler { bytes: u64, cause: String },
    /// The stream ended before the empty line.
    Eof,
    /// The stream ended behind this name.
    EofAfterName(String),
    /// The line with the size of this module does not hold a number.
    BadSize { name: String, line: String },
    /// A line is not UTF-8.
    NotUtf8,
    /// The stream failed, or ended inside a module.
    Io(String),
}

/// What a `BootError` says.
#[verifier::ext_equal]
pub enum BootErrorView {
    Assembler { bytes: u64, cause: Seq<char> },
    Eof,
    EofAfterName(Seq<char>),
    BadSize { name: Seq<char>, line: Seq<char> },
    NotUtf8,
    Io(Seq<char>),
}

impl View for BootError {
    type V = BootErrorView;

    open spec fn view(&self) -> BootErrorView {
        match self {
            BootError::Assembler { bytes, cause } => BootErrorView::Assembler {
                bytes: *bytes,
                cause: cause@,
            },
            BootError::Eof => BootErrorView::Eof,
            BootError::EofAfterName(s) => BootErrorView::EofAfterName(s@),
            BootError::BadSize { name, line } => BootErrorView::BadSize {
                name: name@,
                line: line@,
            },
            BootError::NotUtf8 => BootErrorView::NotUtf8,
            BootError::Io(s) => BootErrorView::Io(s@),
        }
    }
}

/// How far the bootstrap has come.
#[derive(Debug)]
pub enum BootState {
    /// The source of the assembler, of this many bytes, is being skipped.
    Assembler(u64),
    /// The name of a module is being read.
    Name,
    /// The size of the module of this name is being read.
    Size(String),
    /// A module is being skipped.
    Body,
    /// It is over.
    Over,
}

/// What a `BootState` says.
#[verifier::ext_equal]
pub enum BootStateView {
    Assembler(u64),
    Name,
    Size(Seq<char>),
    Body,
    Over,
}

impl View for BootState {
    type V = BootStateView;

    open spec fn view(&self) -> BootStateView {
        match self {
            BootState::Assembler(n) => BootStateView::Assembler(*n),
            BootState::Name => BootStateView::Name,
            BootState::Size(s) => BootStateView::Size(s@),
            BootState::Body => BootStateView::Body,
            BootState::Over => BootStateView::Over,
        }
    }
}

/// What came of a read.
#[derive(Debug)]
pub enum BootEvent {
    /// A line with its line feed, or what is left at the end of the stream, which may
    /// be nothing.
    Line(Vec<u8>),
    /// The bytes were skipped.
    Skipped,
    /// The stream failed or, while bytes were skipped, ended; its message.
    Failed(String),
}

/// What a `BootEvent` says.
#[verifier::ext_equal]
pub enum BootEventView {
    Line(Seq<u8>),
    Skipped,
    Failed(Seq<char>),
}

impl View for BootEvent {
    type V = BootEventView;

    open spec fn view(&self) -> BootEventView {
        match self {
            BootEvent::Line(b) => BootEventView::Line(b@),
            BootEvent::Skipped => BootEventView::Skipped,
            BootEvent::Failed(s) => BootEventView::Failed(s@),
        }
    }
}

/// What to do next.
#[derive(Debug)]
pub enum BootStep {
    /// Read up to and with the next line feed, or to the end of the stream.
    ReadLine,
    /// Read exactly this many bytes, and forget them.
    Skip(u64),
    /// The bootstrap is over, with this outcome.
    Done(Result<(), BootError>),
}

/// What a `BootStep` says.
#[verifier::ext_equal]
pub enum BootStepView {
    ReadLine,
    Skip(nat),
    Done(Option<BootErrorView>),
}

impl View for BootStep {
    type V = BootStepView;

    open spec fn view(&self) -> BootStepView {
        match self {
            BootStep::ReadLine => BootStepView::ReadLine,
            BootStep::Skip(n) => BootStepView::Skip(*n as nat),
            BootStep::Done(Ok(_)) => BootStepView::Done(None),
            BootStep::Done(Err(e)) => BootStepView::Done(Some(e@)),
        }
    }
}

/// The name that a line holds: all but its line end.
pub open spec fn name_in(line: Seq<char>) -> Seq<char> {
    text::trim_end(line, CharClass::LineEnd)
}

/// The size that a line holds.
pub open spec fn size_in(line: Seq<char>) -> Option<nat> {
    decimal::parse_unsigned(text::trim(line), usize::MAX as nat)
}

/// The bootstrap failed.
pub open spec fn boot_failed(e: BootErrorView) -> (BootStateView, BootStepView) {
    (BootStateView::Over, BootStepView::Done(Some(e)))
}

/// What comes first: the source of the assembler, unless it has no bytes.
pub open spec fn boot_start(assembler_bytes: u64) -> (BootStateView, BootStepView) {
    if assembler_bytes > 0 {
        (BootStateView::Assembler(assembler_bytes), BootStepView::Skip(assembler_bytes as nat))
    } else {
        (BootStateView::Name, BootStepView::ReadLine)
    }
}

/// What follows a line with a name.
pub open spec fn after_name(line: Seq<u8>) -> (BootStateView, BootStepView) {
    if line.len() == 0 {
        boot_failed(BootErrorView::Eof)
    } else {
        match text::decoded(line) {
            None => boot_failed(BootErrorView::NotUtf8),
            Some(t) => if name_in(t).len() == 0 {
                (BootStateView::Over, BootStepView::Done(None))
            } else {
                (BootStateView::Size(name_in(t)), BootStepView::ReadLine)
            },
        }
    }
}

/// What follows a line with the size of the module `name`.
pub open spec fn after_size(name: Seq<char>, line: Seq<u8>) -> (BootStateView, BootStepView) {
    if line.len() == 0 {
        boot_failed(BootErrorView::EofAfterName(name))
    } else {
        match text::decoded(line) {
            None => boot_failed(BootErrorView::NotUtf8),
            Some(t) => match size_in(t) {
                None => boot_failed(BootErrorView::BadSize { name, line: t }),
                Some(n) => (BootStateView::Body, BootStepView::Skip(n)),
            },
        }
    }
}

/// The event may come in the state.
pub open spec fn event_fits(state: BootStateView, event: BootEventView) -> bool {
    match state {
        BootStateView::Assembler(_) | BootStateView::Body => !(event is Line),
        BootStateView::Name | BootStateView::Size(_) => !(event is Skipped),
        BootStateView::Over => false,
    }
}

/// The next step of the bootstrap.
pub open spec fn boot_step(state: BootStateView, event: BootEventView) -> (
    BootStateView,
    BootStepView,
) {
    match (state, event) {
        (BootStateView::Assembler(bytes), BootEventView::Failed(cause)) => boot_failed(
            BootErrorView::Assembler { bytes, cause },
        ),
        (_, BootEventView::Failed(cause)) => boot_failed(BootErrorView::Io(cause)),
        (_, BootEventView::Skipped) => (BootStateView::Name, BootStepView::ReadLine),
        (BootStateView::Size(name), BootEventView::Line(line)) => after_size(name, line),
        (_, BootEventView::Line(line)) => after_name(line),
    }
}

/// A bootstrap that is under way.
#[derive(Debug)]
pub struct Bootstrap {
    pub state: BootState,
}

impl Bootstrap {
    /// Starts to discard a bootstrap whose assembler has this many bytes: gives the
    /// bootstrap, and what to do first.
    pub fn new(assembler_bytes: u64) -> (r: (Bootstrap, BootStep))
        ensures
            (r.0.state@, r.1@) == boot_start(assembler_bytes),
    {
        if assembler_bytes > 0 {
            (
                Bootstrap { state: BootState::Assembler(assembler_bytes) },
                BootStep::Skip(assembler_bytes),
            )
        } else {
            (Bootstrap { state: BootState::Name }, BootStep::ReadLine)
        }
    }

    fn fail(&mut self, e: BootError) -> (r: BootStep)
        ensures
            (final(self).state@, r@) == boot_failed(e@),
    {
        self.state = BootState::Over;
        BootStep::Done(Err(e))
    }

    fn on_name(&mut self, line: &[u8]) -> (r: BootStep)
        ensures
            (final(self).state@, r@) == after_name(line@),
    {
        if line.len() == 0 {
            return self.fail(BootError::Eof);
        }
        let t: Vec<char> = match decode(line) {
            Some(t) => t,
            None => {
                return self.fail(BootError::NotUtf8);
            },
        };
        let name: &[char] = trimmed_end(t.as_slice(), CharClass::LineEnd);
        if name.len() == 0 {
            self.state = BootState::Over;
            BootStep::Done(Ok(()))
        } else {
            self.state = BootState::Size(string_of(name));
            BootStep::ReadLine
        }
    }

    fn on_size(&mut self, name: String, line: &[u8]) -> (r: BootStep)
        ensures
            (final(self).state@, r@) == after_size(name@, line@),
    {
        if line.len() == 0 {
            return self.fail(BootError::EofAfterName(name));
        }
        let t: Vec<char> = match decode(line) {
            Some(t) => t,
            None => {
                return self.fail(BootError::NotUtf8);
            },
        };
        match read_unsigned(trimmed(t.as_slice()), usize::MAX as u64) {
            Some(n) => {
                self.state = BootState::Body;
                BootStep::Skip(n)
            },
            None => self.fail(BootError::BadSize { name, line: string_of(t.as_slice()) }),
        }
    }

    /// What to do next, after what came of the last read.
    pub fn next(&mut self, event: BootEvent) -> (r: BootStep)
        requires
            event_fits(old(self).state@, event@),
        ensures
            (final(self).state@, r@) == boot_step(old(self).state@, event@),
    {
        let mut state: BootState = BootState::Over;
        std::mem::swap(&mut state, &mut self.state);
        match event {
            BootEvent::Failed(cause) => match state {
                BootState::Assembler(bytes) => self.fail(BootError::Assembler { bytes, cause }),
                _ => self.fail(BootError::Io(cause)),
            },
            BootEvent::Skipped => {
                self.state = BootState::Name;
                BootStep::ReadLine
            },
            BootEvent::Line(line) => match state {
                BootState::Size(name) => self.on_size(name, line.as_slice()),
                _ => self.on_name(line.as_slice()),
            },
        }
    }
}

// --- whole streams ----------------------------------------------------------

/// The number of bytes of the first line of `s`, with its line feed.
pub open spec fn line_len(s: Seq<u8>) -> int {
    match text::find(s, 0x0a) {
        Some(i) => i + 1,
        None => s.len() as int,
    }
}

/// Where the module `name` ends in `s`, which starts with the line of its size and
/// after which the stream ends.
pub open spec fn module_end(name: Seq<char>, s: Seq<u8>) -> Result<int, BootErrorView> {
    let n = line_len(s);
    if s.len() == 0 {
        Err(BootErrorView::EofAfterName(name))
    } else {
        match text::decoded(s.take(n)) {
            None => Err(BootErrorView::NotUtf8),
            Some(line) => match size_in(line) {
                None => Err(BootErrorView::BadSize { name, line }),
                Some(size) => if s.len() - n < size {
                    Err(BootErrorView::Io(frame::early_eof()))
                } else {
                    Ok(n + size)
                },
            },
        }
    }
}

/// An outcome that counts from `k` on.
pub open spec fn counted_from(k: int, r: Result<int, BootErrorView>) -> Result<
    int,
    BootErrorView,
> {
    match r {
        Ok(i) => Ok(k + i),
        Err(e) => Err(e),
    }
}

/// Where the modules end in `s`, after which the stream ends: behind the first empty
/// name.
pub open spec fn modules_end(s: Seq<u8>) -> Result<int, BootErrorView>
    decreases s.len(),
{
    proof {
        lemma_line_len(s);
        lemma_line_len(s.skip(line_len(s)));
    }
    let n = line_len(s);
    if s.len() == 0 {
        Err(BootErrorView::Eof)
    } else {
        match text::decoded(s.take(n)) {
            None => Err(BootErrorView::NotUtf8),
            Some(line) => if name_in(line).len() == 0 {
                Ok(n)
            } else {
                match module_end(name_in(line), s.skip(n)) {
                    Err(e) => Err(e),
                    Ok(m) => counted_from(n + m, modules_end(s.skip(n + m))),
                }
            },
        }
    }
}

/// Where the bootstrap ends in `s`, after which the stream ends.
pub open spec fn bootstrap_end(assembler_bytes: u64, s: Seq<u8>) -> Result<int, BootErrorView> {
    if s.len() < assembler_bytes {
        Err(
            BootErrorView::Assembler { bytes: assembler_bytes, cause: frame::early_eof() },
        )
    } else {
        counted_from(assembler_bytes as int, modules_end(s.skip(assembler_bytes as int)))
    }
}

/// A line of what is not empty is not empty.
pub proof fn lemma_line_len(s: Seq<u8>)
    ensures
        0 <= line_len(s) <= s.len(),
        s.len() > 0 ==> line_len(s) > 0,
{
    text::lemma_find(s, 0x0a);
}

/// How the end of the bootstrap follows from where it stands, at the position `at`.
spec fn stands(
    end: Result<int, BootErrorView>,
    s: Seq<u8>,
    at: int,
    b: BootStateView,
    step: BootStepView,
) -> bool {
    match step {
        BootStepView::ReadLine => match b {
            BootStateView::Name => end == counted_from(at, modules_end(s.skip(at))),
            BootStateView::Size(name) => end == match module_end(name, s.skip(at)) {
                Err(e) => Err(e),
                Ok(m) => counted_from(at + m, modules_end(s.skip(at + m))),
            },
            _ => false,
        },
        BootStepView::Skip(n) => match b {
            BootStateView::Assembler(bytes) => {
                &&& n == bytes
                &&& end == if s.len() - at < n {
                    Err(BootErrorView::Assembler { bytes, cause: frame::early_eof() })
                } else {
                    counted_from(at + n, modules_end(s.skip(at + n)))
                }
            },
            BootStateView::Body => end == if s.len() - at < n {
                Err(BootErrorView::Io(frame::early_eof()))
            } else {
                counted_from(at + n, modules_end(s.skip(at + n)))
            },
            _ => false,
        },
        BootStepView::Done(None) => end == Ok::<int, BootErrorView>(at),
        BootStepView::Done(Some(e)) => end == Err::<int, BootErrorView>(e),
    }
}

proof fn lemma_line_read(
    end: Result<int, BootErrorView>,
    s: Seq<u8>,
    at: int,
    b: BootStateView,
    line: Seq<u8>,
)
    requires
        0 <= at <= s.len(),
        stands(end, s, at, b, BootStepView::ReadLine),
        line == s.skip(at).take(line_len(s.skip(at))),
    ensures
        ({
            let (next, step) = boot_step(b, BootEventView::Line(line));
            stands(end, s, at + line.len(), next, step)
        }),
{
    let rest = s.skip(at);
    let n = line_len(rest);
    lemma_line_len(rest);
    assert(s.skip(at + n) =~= rest.skip(n));
    match b {
        BootStateView::Name => {
            if rest.len() > 0 {
                if let Some(t) = text::decoded(line) {
                    let tail = rest.skip(n);
                    if let Ok(m) = module_end(name_in(t), tail) {
                        lemma_line_len(tail);
                        assert(rest.skip(n + m) =~= s.skip(at + n + m));
                    }
                }
            }
        },
        BootStateView::Size(name) => {
            if let Ok(m) = module_end(name, rest) {
                assert(s.skip(at + m) =~= s.skip(at + n + (m - n)));
            }
        },
        _ => {},
    }
}

/// Reads a bootstrap from the start of `stream`, after which the stream ends. Gives
/// the position of the first frame.
pub fn consume_sshuttle_bootstrap(assembler_bytes: u64, stream: &[u8]) -> (r: Result<
    usize,
    BootError,
>)
    ensures
        match r {
            Ok(n) => bootstrap_end(assembler_bytes, stream@) == Ok::<int, BootErrorView>(n as int),
            Err(e) => bootstrap_end(assembler_bytes, stream@) == Err::<int, BootErrorView>(e@),
        },
{
    let ghost end = bootstrap_end(assembler_bytes, stream@);
    let n: usize = stream.len();
    let mut at: usize = 0;
    let (mut boot, mut step) = Bootstrap::new(assembler_bytes);
    assert(stream@.skip(0) =~= stream@);
    loop
        invariant
            n == stream@.len(),
            at <= n,
            end == bootstrap_end(assembler_bytes, stream@),
            stands(end, stream@, at as int, boot.state@, step@),
        decreases
                n - at,
                (match step@ {
                    BootStepView::Skip(_) => 2int,
                    BootStepView::ReadLine => 1int,
                    BootStepView::Done(_) => 0int,
                }),
    {
        match step {
            BootStep::Done(r) => {
                return match r {
                    Ok(_) => Ok(at),
                    Err(e) => Err(e),
                };
            },
            BootStep::Skip(want) => {
                if ((n - at) as u64) < want {
                    let mut why: String = String::new();
                    why.append("early eof");
                    assert(why@ =~= frame::early_eof());
                    step = boot.next(BootEvent::Failed(why));
                } else {
                    at = at + want as usize;
                    step = boot.next(BootEvent::Skipped);
                }
            },
            BootStep::ReadLine => {
                let rest: &[u8] = slice_subrange(stream, at, n);
                assert(rest@ =~= stream@.skip(at as int));
                proof {
                    lemma_line_len(rest@);
                }
                let len: usize = match find_byte(rest, 0x0a) {
                    Some(i) => i + 1,
                    None => n - at,
                };
                let line: Vec<u8> = slice_to_vec(slice_subrange(rest, 0, len));
                assert(line@ =~= rest@.take(line_len(rest@)));
                proof {
                    lemma_line_read(end, stream@, at as int, boot.state@, line@);
                }
                at = at + len;
                step = boot.next(BootEvent::Line(line));
            },
        }
    }
}

// --- laws -------------------------------------------------------------------

/// A module as a client sends it.
pub open spec fn module_bytes(name: Seq<char>, body: Seq<u8>) -> Seq<u8> {
    encode_utf8(name) + seq![0x0au8] + (encode_utf8(decimal::digits(body.len())) + seq![0x0au8]
        + body)
}

/// Modules as a client sends them, with the empty line behind them.
pub open spec fn modules_bytes(modules: Seq<(Seq<char>, Seq<u8>)>) -> Seq<u8>
    decreases modules.len(),
{
    if modules.len() == 0 {
        seq![0x0au8]
    } else {
        module_bytes(modules[0].0, modules[0].1) + modules_bytes(modules.drop_first())
    }
}

/// The text can be the name of a module: it takes one line, and is not only a line end.
pub open spec fn is_name(name: Seq<char>) -> bool {
    !name.contains('\n') && name_in(name).len() > 0
}

proof fn lemma_line(t: Seq<char>, rest: Seq<u8>)
    requires
        !t.contains('\n'),
    ensures
        ({
            let s = encode_utf8(t) + seq![0x0au8] + rest;
            let n = line_len(s);
            &&& n == encode_utf8(t).len() + 1
            &&& text::decoded(s.take(n)) == Some(t.push('\n'))
            &&& s.skip(n) == rest
        }),
{
    let e = encode_utf8(t);
    let s = e + seq![0x0au8] + rest;
    text::lemma_encode_free(t, '\n');
    text::lemma_find_after(e, 0x0a, rest);
    text::lemma_encode_ascii('\n');
    text::lemma_encode_concat(t, seq!['\n']);
    assert(t + seq!['\n'] =~= t.push('\n'));
    text::lemma_decoded_encode(t.push('\n'));
    assert(s.take(line_len(s)) =~= e + seq![0x0au8]);
    assert(s.skip(line_len(s)) =~= rest);
}

proof fn lemma_size_line(n: nat)
    requires
        n <= usize::MAX,
    ensures
        size_in(decimal::digits(n).push('\n')) == Some(n),
{
    let d = decimal::digits(n);
    let line = d.push('\n');
    decimal::lemma_digits(n);
    decimal::lemma_parse_digits(n, usize::MAX as nat);
    assert(decimal::is_digit(d[0]));
    assert(decimal::is_digit(d.last()));
    assert(line[0] == d[0]);
    assert(text::trim_start(line, CharClass::White) == line);
    assert(line.drop_last() =~= d);
    reveal_with_fuel(text::trim_end, 2);
    assert(text::trim(line) == d);
}

#[verifier::rlimit(40)]
#[verifier::spinoff_prover]
proof fn lemma_modules_end(modules: Seq<(Seq<char>, Seq<u8>)>, rest: Seq<u8>)
    requires
        forall|i: int|
            0 <= i < modules.len() ==> is_name((#[trigger] modules[i]).0) && modules[i].1.len()
                <= usize::MAX,
    ensures
        modules_end(modules_bytes(modules) + rest) == Ok::<int, BootErrorView>(
            modules_bytes(modules).len() as int,
        ),
    decreases modules.len(),
{
    let s = modules_bytes(modules) + rest;
    if modules.len() == 0 {
        let none = Seq::<char>::empty();
        assert(s =~= encode_utf8(none) + seq![0x0au8] + rest);
        lemma_line(none, rest);
        assert(none.push('\n').drop_last() =~= none);
        reveal_with_fuel(text::trim_end, 2);
    } else {
        let (name, body) = modules[0];
        let others = modules.drop_first();
        let tail = modules_bytes(others) + rest;
        lemma_modules_end(others, rest);
        let d = decimal::digits(body.len());
        let sized = encode_utf8(d) + seq![0x0au8] + (body + tail);
        assert(s =~= encode_utf8(name) + seq![0x0au8] + sized);
        lemma_line(name, sized);
        assert(name.push('\n').drop_last() =~= name);
        assert(name_in(name.push('\n')) == name_in(name));
        decimal::lemma_digits_free(body.len(), '\n');
        lemma_line(d, body + tail);
        lemma_size_line(body.len());
        let n = line_len(s);
        let m = line_len(sized) + body.len();
        assert(module_end(name_in(name), s.skip(n)) == Ok::<int, BootErrorView>(m));
        assert(s.skip(n + m) =~= tail);
    }
}

/// A server takes the whole bootstrap of a client off the stream and no byte of the
/// frames behind it, whatever the bytes of the assembler and of the modules are.
pub proof fn bootstrap_is_consumed(
    assembler: Seq<u8>,
    modules: Seq<(Seq<char>, Seq<u8>)>,
    rest: Seq<u8>,
)
    requires
        assembler.len() <= u64::MAX,
        forall|i: int|
            0 <= i < modules.len() ==> is_name((#[trigger] modules[i]).0) && modules[i].1.len()
                <= usize::MAX,
    ensures
        bootstrap_end(assembler.len() as u64, assembler + modules_bytes(modules) + rest) == Ok::<
            int,
            BootErrorView,
        >((assembler + modules_bytes(modules)).len() as int),
{
    let s = assembler + modules_bytes(modules) + rest;
    lemma_modules_end(modules, rest);
    assert(s.skip(assembler.len() as int) =~= modules_bytes(modules) + rest);
}

// --- laws of a bootstrap that is not accepted -------------------------------

/// The assembler comes first, if it has any bytes, and then the modules.
pub proof fn assembler_is_skipped_first(assembler_bytes: u64)
    ensures
        boot_start(assembler_bytes).1 == if assembler_bytes > 0 {
            BootStepView::Skip(assembler_bytes as nat)
        } else {
            BootStepView::ReadLine
        },
        assembler_bytes > 0 ==> boot_step(
            boot_start(assembler_bytes).0,
            BootEventView::Skipped,
        ) == boot_start(0),
{
}

/// A module is a line with its name, a line with its size, and as many bytes as that says;
/// after it comes the next one.
pub proof fn module_is_skipped(name: Seq<char>, size: nat)
    requires
        is_name(name),
        size <= usize::MAX,
    ensures
        ({
            let named = boot_step(
                BootStateView::Name,
                BootEventView::Line(encode_utf8(name.push('\n'))),
            );
            let sized = boot_step(
                named.0,
                BootEventView::Line(encode_utf8(decimal::digits(size).push('\n'))),
            );
            &&& named.1 == BootStepView::ReadLine
            &&& sized.1 == BootStepView::Skip(size)
            &&& boot_step(sized.0, BootEventView::Skipped) == (
                BootStateView::Name,
                BootStepView::ReadLine,
            )
        }),
{
    let n = name.push('\n');
    let d = decimal::digits(size).push('\n');
    lemma_not_empty(n);
    lemma_not_empty(d);
    text::lemma_decoded_encode(n);
    text::lemma_decoded_encode(d);
    assert(n.drop_last() =~= name);
    assert(name_in(n) == name_in(name));
    lemma_size_line(size);
}

proof fn lemma_not_empty(s: Seq<char>)
    requires
        s.len() > 0,
    ensures
        encode_utf8(s).len() > 0,
{
    let none = Seq::<char>::empty();
    text::lemma_decoded_encode(s);
    text::lemma_decoded_encode(none);
    if encode_utf8(s).len() == 0 {
        assert(encode_utf8(s) =~= encode_utf8(none));
    }
}

/// An empty line, whichever line end it has, ends the bootstrap well.
pub proof fn empty_line_ends_the_bootstrap()
    ensures
        boot_step(BootStateView::Name, BootEventView::Line(encode_utf8(seq!['\n']))).1
            == BootStepView::Done(None),
        boot_step(BootStateView::Name, BootEventView::Line(encode_utf8(seq!['\r', '\n']))).1
            == BootStepView::Done(None),
{
    let a = seq!['\n'];
    let b = seq!['\r', '\n'];
    let none = Seq::<char>::empty();
    lemma_not_empty(a);
    lemma_not_empty(b);
    text::lemma_decoded_encode(a);
    text::lemma_decoded_encode(b);
    assert(none + a =~= a);
    assert(none + b =~= b);
    text::lemma_trim_end_pad(none, a, CharClass::LineEnd);
    text::lemma_trim_end_pad(none, b, CharClass::LineEnd);
}

/// A line with anything else than a number where the size of a module belongs ends the
/// bootstrap with an error that names the module and shows the line; so does one that is not
/// UTF-8, and the end of the stream, at either line.
pub proof fn bad_module_is_refused(name: Seq<char>, line: Seq<char>, raw: Seq<u8>)
    requires
        line.len() > 0,
        decimal::parse_unsigned(text::trim(line), usize::MAX as nat) is None,
        raw.len() > 0,
        text::decoded(raw) is None,
    ensures
        ({
            let at_size = BootStateView::Size(name);
            let at_name = BootStateView::Name;
            let outcome = |state: BootStateView, bytes: Seq<u8>|
                boot_step(state, BootEventView::Line(bytes)).1;
            &&& outcome(at_size, encode_utf8(line)) == BootStepView::Done(
                Some(BootErrorView::BadSize { name, line }),
            )
            &&& outcome(at_size, raw) == BootStepView::Done(Some(BootErrorView::NotUtf8))
            &&& outcome(at_name, raw) == BootStepView::Done(Some(BootErrorView::NotUtf8))
            &&& outcome(at_size, seq![]) == BootStepView::Done(
                Some(BootErrorView::EofAfterName(name)),
            )
            &&& outcome(at_name, seq![]) == BootStepView::Done(Some(BootErrorView::Eof))
        }),
{
    lemma_not_empty(line);
    text::lemma_decoded_encode(line);
}

/// A stream that fails ends the bootstrap with its message, and with the announced size if the
/// assembler was being skipped.
pub proof fn failed_stream_ends_the_bootstrap(bytes: u64, name: Seq<char>, cause: Seq<char>)
    ensures
        ({
            let outcome = |state: BootStateView| boot_step(state, BootEventView::Failed(cause)).1;
            &&& outcome(BootStateView::Assembler(bytes)) == BootStepView::Done(
                Some(BootErrorView::Assembler { bytes, cause }),
            )
            &&& outcome(BootStateView::Name) == BootStepView::Done(
                Some(BootErrorView::Io(cause)),
            )
            &&& outcome(BootStateView::Size(name)) == BootStepView::Done(
                Some(BootErrorView::Io(cause)),
            )
            &&& outcome(BootStateView::Body) == BootStepView::Done(
                Some(BootErrorView::Io(cause)),
            )
        }),
{
}

/// A stream that ends inside the assembler, or inside a module, is refused.
pub proof fn short_bootstrap_is_refused(
    assembler_bytes: u64,
    s: Seq<u8>,
    name: Seq<char>,
    size: nat,
)
    requires
        s.len() < assembler_bytes,
        is_name(name),
        s.len() < size <= usize::MAX,
    ensures
        bootstrap_end(assembler_bytes, s) matches Err(BootErrorView::Assembler { bytes, .. })
            && bytes == assembler_bytes,
        modules_end(
            encode_utf8(name) + seq![0x0au8] + (encode_utf8(decimal::digits(size)) + seq![0x0au8]
                + s),
        ) matches Err(BootErrorView::Io(_)),
{
    let d = decimal::digits(size);
    let sized = encode_utf8(d) + seq![0x0au8] + s;
    lemma_line(name, sized);
    assert(name.push('\n').drop_last() =~= name);
    assert(name_in(name.push('\n')) == name_in(name));
    decimal::lemma_digits_free(size, '\n');
    lemma_line(d, s);
    lemma_size_line(size);
}

/// A name is all of its line but the line end.
pub proof fn name_is_a_line_without_its_end(name: Seq<char>)
    requires
        name.len() > 0,
        name.last() != '\n',
        name.last() != '\r',
    ensures
        name_in(name) == name,
        name_in(name.push('\n')) == name,
        name_in(name + seq!['\r', '\n']) == name,
{
    let a = seq!['\n'];
    let b = seq!['\r', '\n'];
    assert(name + a =~= name.push('\n'));
    text::lemma_trim_end_pad(name, a, CharClass::LineEnd);
    text::lemma_trim_end_pad(name, b, CharClass::LineEnd);
}

/// The size of a module is read from its line with whatever white space around the number.
pub proof fn size_is_read(before: Seq<char>, n: nat, after: Seq<char>)
    requires
        text::all_white(before),
        text::all_white(after),
        n <= usize::MAX,
    ensures
        size_in(before + decimal::digits(n) + after) == Some(n),
{
    let d = decimal::digits(n);
    decimal::lemma_digits(n);
    decimal::lemma_parse_digits(n, usize::MAX as nat);
    assert(decimal::is_digit(d[0]) && decimal::is_digit(d.last()));
    text::white_space_around_is_trimmed(before, d, after);
}

} // verus!
