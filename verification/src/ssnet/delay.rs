//! The pause between frames.

use vstd::prelude::*;

use crate::decimal::{digits, lemma_parse_digits, parse_unsigned, read_unsigned};
use crate::text::chars_of;

verus! {

/// How long to wait after each frame, in microseconds; zero is no wait.
#[derive(Clone, Copy, Debug, PartialEq, Eq, Structural)]
pub struct FrameDelay {
    pub us: u64,
}

/// The delay after the setting `var` was read: its number, or what it was before
/// where the setting is absent or not a number.
pub open spec fn delay_from(before: u64, var: Option<Seq<char>>) -> u64 {
    match var {
        Some(s) => match parse_unsigned(s, u64::MAX as nat) {
            Some(n) => n as u64,
            None => before,
        },
        None => before,
    }
}

/// Takes the delay from the setting `RUSHTLE_FRAME_DELAY_US`, whose value is `var`.
pub fn init_frame_delay_from_env(delay: &mut FrameDelay, var: Option<&str>)
    ensures
        final(delay).us == delay_from(
            old(delay).us,
            match var {
                Some(s) => Some(s@),
                None => None,
            },
        ),
{
    match var {
        Some(s) => {
            let v: Vec<char> = chars_of(s);
            match read_unsigned(v.as_slice(), u64::MAX) {
                Some(n) => {
                    delay.us = n;
                },
                None => {},
            }
        },
        None => {},
    }
}

/// Sets the delay.
pub fn set_frame_delay_us(delay: &mut FrameDelay, us: u64)
    ensures
        final(delay).us == us,
{
    delay.us = us;
}

/// The delay in microseconds.
pub fn frame_delay_us(delay: &FrameDelay) -> (r: u64)
    ensures
        r == delay.us,
{
    delay.us
}

/// The wait that follows a frame, `None` if there is none.
pub fn frame_delay(delay: &FrameDelay) -> (r: Option<u64>)
    ensures
        r == if delay.us == 0 {
            None::<u64>
        } else {
            Some(delay.us)
        },
{
    let us: u64 = frame_delay_us(delay);
    if us == 0 {
        None
    } else {
        Some(us)
    }
}

/// A setting that is a number is the delay; one that is none, or no setting at all, leaves the
/// delay as it was.
pub proof fn setting_is_the_delay(before: u64, n: u64, s: Seq<char>)
    ensures
        delay_from(before, Some(digits(n as nat))) == n,
        parse_unsigned(s, u64::MAX as nat) is None ==> delay_from(before, Some(s)) == before,
        delay_from(before, None) == before,
{
    lemma_parse_digits(n as nat, u64::MAX as nat);
}

} // verus!
