//! The command line: being run in place of a Python interpreter, and verbosity.

use vstd::prelude::*;
use vstd::slice::slice_subrange;

use crate::decimal;
use crate::decimal::read_unsigned;
use crate::text;
use crate::text::{chars_of, find_char, find_sub, has_text, is_text, trimmed};

verus! {

/// What stands before the number of bytes in the script of a stock sshuttle client.
pub open spec fn read_call() -> Seq<char> {
    "stdin.read("@
}

/// The number of bytes that the script of a stock sshuttle client reads first: what
/// stands between the brackets of the first such call, 0 if that is no number or there
/// is no call.
pub open spec fn assembler_bytes(script: Seq<char>) -> u64 {
    match text::find_text(script, read_call()) {
        None => 0,
        Some(k) => {
            let tail = script.skip(k + read_call().len());
            match text::find(tail, ')') {
                None => 0,
                Some(e) => match decimal::parse_unsigned(
                    text::trim(tail.take(e)),
                    u64::MAX as nat,
                ) {
                    Some(n) => n as u64,
                    None => 0,
                },
            }
        },
    }
}

/// The number of bytes that the script of a stock sshuttle client reads first, 0 if it
/// does not say.
pub fn parse_assembler_bytes(pyscript: &str) -> (r: u64)
    ensures
        r == assembler_bytes(pyscript@),
{
    let v: Vec<char> = chars_of(pyscript);
    let w: Vec<char> = chars_of("stdin.read(");
    let n: usize = v.len();
    match find_sub(v.as_slice(), w.as_slice()) {
        None => 0,
        Some(k) => {
            let start: usize = k + w.len();
            let tail: &[char] = slice_subrange(v.as_slice(), start, n);
            assert(tail@ =~= pyscript@.skip(k + read_call().len()));
            match find_char(tail, ')') {
                None => 0,
                Some(e) => {
                    let digits: &[char] = slice_subrange(tail, 0, e);
                    assert(digits@ =~= tail@.take(e as int));
                    match read_unsigned(trimmed(digits), u64::MAX) {
                        Some(n) => n,
                        None => 0,
                    }
                },
            }
        },
    }
}

/// How verbose the script of a stock sshuttle client is.
pub open spec fn script_verbosity(script: Seq<char>) -> u8 {
    if text::contains_text(script, "verbosity=2"@) {
        2
    } else if text::contains_text(script, "verbosity=1"@) {
        1
    } else {
        0
    }
}

/// What a stock sshuttle client asks of what it takes for a Python interpreter.
#[derive(Clone, Copy, Debug, PartialEq, Eq, Structural)]
pub struct Shim {
    pub assembler_bytes: u64,
    pub verbose: u8,
}

/// What these words, of which the first is the name of the program, ask of a Python
/// interpreter: to run the script that follows `-c`. `None` if they do not ask that.
pub open spec fn shim_of(words: Seq<Seq<char>>) -> Option<Shim> {
    if words.len() >= 3 && words[1] == "-c"@ {
        Some(
            Shim {
                assembler_bytes: assembler_bytes(words[2]),
                verbose: script_verbosity(words[2]),
            },
        )
    } else {
        None
    }
}

/// Tells whether the program is run in place of a Python interpreter, and what for.
pub fn shim(argv: &[String]) -> (r: Option<Shim>)
    ensures
        r == shim_of(text::texts(argv@)),
{
    if argv.len() < 3 {
        return None;
    }
    assert(text::texts(argv@)[1] == argv@[1]@ && text::texts(argv@)[2] == argv@[2]@);
    let flag: Vec<char> = chars_of(argv[1].as_str());
    if !is_text(flag.as_slice(), "-c") {
        return None;
    }
    let script: &str = argv[2].as_str();
    let verbose: u8 = if has_text(script, "verbosity=2") {
        2
    } else if has_text(script, "verbosity=1") {
        1
    } else {
        0
    };
    Some(Shim { assembler_bytes: parse_assembler_bytes(script), verbose })
}

/// The level of the log for a verbosity: messages for users at first, and with more
/// verbosity those for finding faults.
pub open spec fn level_of(verbose: u8) -> Seq<char> {
    if verbose <= 1 {
        "info"@
    } else if verbose == 2 {
        "debug"@
    } else {
        "trace"@
    }
}

/// The level of the log for a verbosity.
pub fn log_level(verbose: u8) -> (r: &'static str)
    ensures
        r@ == level_of(verbose),
{
    match verbose {
        0 | 1 => "info",
        2 => "debug",
        _ => "trace",
    }
}

/// A script that reads so many bytes announces that many, whatever stands before the
/// call, as long as it is no such call itself, and whatever follows it.
pub proof fn announced_bytes_are_found(before: Seq<char>, n: u64, after: Seq<char>)
    requires
        text::occurs_first(
            before + read_call() + decimal::digits(n as nat) + seq![')'] + after,
            read_call(),
            before.len() as int,
        ),
    ensures
        assembler_bytes(
            before + read_call() + decimal::digits(n as nat) + seq![')'] + after,
        ) == n,
{
    let d = decimal::digits(n as nat);
    let s = before + read_call() + d + seq![')'] + after;
    text::lemma_find_text_first(s, read_call(), before.len() as int);
    let tail = d + seq![')'] + after;
    assert(s.skip(before.len() as int + read_call().len()) =~= tail);
    decimal::lemma_digits(n as nat);
    decimal::lemma_digits_free(n as nat, ')');
    text::lemma_find_after(d, ')', after);
    assert(decimal::is_digit(d[0]));
    assert(decimal::is_digit(d.last()));
    text::lemma_trim_same(d);
    decimal::lemma_parse_digits(n as nat, u64::MAX as nat);
}

/// What stands between the brackets of the first call, up to the first closing one, is the
/// number of bytes, with whatever white space around it; if it is no number, none are announced.
pub proof fn first_call_counts(
    before: Seq<char>,
    pad: Seq<char>,
    n: u64,
    other: Seq<char>,
    after: Seq<char>,
)
    requires
        text::all_white(pad),
        !other.contains(')'),
        decimal::parse_unsigned(text::trim(other), u64::MAX as nat) is None,
    ensures
        ({
            let call = before + "stdin.read("@;
            let at = before.len() as int;
            let padded = call + (pad + decimal::digits(n as nat) + pad + seq![')'] + after);
            let bad = call + (other + seq![')'] + after);
            &&& text::occurs_first(padded, "stdin.read("@, at) ==> assembler_bytes(padded) == n
            &&& text::occurs_first(bad, "stdin.read("@, at) ==> assembler_bytes(bad) == 0
        }),
{
    let d = decimal::digits(n as nat);
    let inner = pad + d + pad;
    let call = before + read_call();
    let padded = call + (inner + seq![')'] + after);
    let bad = call + (other + seq![')'] + after);
    let at = before.len() as int;
    let k = at + read_call().len();
    decimal::lemma_digits(n as nat);
    decimal::lemma_parse_digits(n as nat, u64::MAX as nat);
    assert(decimal::is_digit(d[0]) && decimal::is_digit(d.last()));
    text::white_space_around_is_trimmed(pad, d, pad);
    assert forall|j: int| 0 <= j < inner.len() implies inner[j] != ')' by {
        let p = pad.len() as int;
        if j < p {
            assert(text::is_white(pad[j]));
        } else if j < p + d.len() {
            assert(decimal::is_digit(d[j - p]));
        } else {
            assert(text::is_white(pad[j - p - d.len()]));
        }
    }
    text::lemma_find_after(inner, ')', after);
    text::lemma_find_after(other, ')', after);
    assert(padded.skip(k) =~= inner + seq![')'] + after);
    assert(bad.skip(k) =~= other + seq![')'] + after);
    if text::occurs_first(padded, read_call(), at) {
        text::lemma_find_text_first(padded, read_call(), at);
    }
    if text::occurs_first(bad, read_call(), at) {
        text::lemma_find_text_first(bad, read_call(), at);
    }
}

/// A script that makes no such call announces no bytes, and neither does one whose call has no
/// closing bracket.
pub proof fn other_scripts_announce_none(script: Seq<char>, before: Seq<char>, inner: Seq<char>)
    ensures
        !text::contains_text(script, "stdin.read("@) ==> assembler_bytes(script) == 0,
        text::occurs_first(before + "stdin.read("@ + inner, "stdin.read("@, before.len() as int)
            && !inner.contains(')') ==> assembler_bytes(before + "stdin.read("@ + inner) == 0,
{
    let s = before + read_call() + inner;
    if text::occurs_first(s, read_call(), before.len() as int) && !inner.contains(')') {
        text::lemma_find_text_first(s, read_call(), before.len() as int);
        assert(s.skip(before.len() as int + read_call().len()) =~= inner);
        assert forall|j: int| 0 <= j < inner.len() implies inner[j] != ')' by {
            assert(inner.contains(inner[j]));
        }
        text::lemma_find_none(inner, ')');
    }
}

/// The program is run in place of a Python interpreter just where `-c` and a script follow its
/// name; whatever follows the script makes no difference. It takes the number of bytes and the
/// verbosity from the script.
pub proof fn shim_runs_a_script(name: Seq<char>, flag: Seq<char>, script: Seq<char>, rest: Seq<
    Seq<char>,
>)
    ensures
        ({
            let s = shim_of(seq![name, flag, script] + rest);
            if flag == "-c"@ {
                &&& s matches Some(shim)
                &&& shim.assembler_bytes == assembler_bytes(script)
                &&& shim.verbose == if text::contains_text(script, "verbosity=2"@) {
                    2
                } else if text::contains_text(script, "verbosity=1"@) {
                    1
                } else {
                    0u8
                }
            } else {
                s is None
            }
        }),
        shim_of(seq![name, flag]) is None,
        shim_of(seq![name]) is None,
        shim_of(seq![]) is None,
{
}

/// Messages for users are shown at first, those for finding faults from a verbosity of two on,
/// and all of them above that.
pub proof fn more_verbosity_shows_more(verbose: u8)
    ensures
        verbose < 2 ==> level_of(verbose) == "info"@,
        verbose == 2 ==> level_of(verbose) == "debug"@,
        verbose > 2 ==> level_of(verbose) == "trace"@,
{
}

} // verus!
