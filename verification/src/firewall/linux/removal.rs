//! Taking rules down.

use vstd::prelude::*;

use crate::firewall::linux;
use crate::firewall::linux::{iptables_cmd, iptables_cmd_quiet, RuleCmd, RuleCmdView, Tool};

verus! {

/// How long to wait before the chain is deleted a second time.
pub const RETRY_MS: u64 = 100;

/// How far the removal with one tool has come.
#[derive(Clone, Copy, Debug, PartialEq, Eq, Structural)]
pub enum RemovePhase {
    /// The jumps to the chain are being taken back, one after the other.
    Drain,
    /// The chain is being emptied.
    Flush,
    /// The chain is being deleted.
    Delete,
    /// That failed; it is being deleted again.
    Retry,
}

/// How far the removal has come.
#[derive(Clone, Copy, Debug, PartialEq, Eq, Structural)]
pub enum RemoveState {
    /// At this phase with this tool.
    Busy(Tool, RemovePhase),
    /// It is over.
    Over,
}

/// What to do to remove rules.
#[derive(Debug)]
pub enum RemoveAction {
    /// Run this command.
    Run(RuleCmd),
    /// Wait so many milliseconds, and run this command.
    WaitAndRun(u64, RuleCmd),
    /// The rules are removed, as far as can be.
    Done,
}

/// What a `RemoveAction` says.
#[verifier::ext_equal]
pub enum RemoveActionView {
    Run(RuleCmdView),
    WaitAndRun(u64, RuleCmdView),
    Done,
}

impl View for RemoveAction {
    type V = RemoveActionView;

    open spec fn view(&self) -> RemoveActionView {
        match self {
            RemoveAction::Run(c) => RemoveActionView::Run(c@),
            RemoveAction::WaitAndRun(ms, c) => RemoveActionView::WaitAndRun(*ms, c@),
            RemoveAction::Done => RemoveActionView::Done,
        }
    }
}

/// Run a command, and hide its messages.
pub open spec fn hush(tool: Tool, args: Seq<Seq<char>>) -> RemoveActionView {
    RemoveActionView::Run(RuleCmdView { tool, args, quiet: true })
}

/// What to do in a state.
pub open spec fn remove_action(chain: Seq<char>, state: RemoveState) -> RemoveActionView {
    match state {
        RemoveState::Over => RemoveActionView::Done,
        RemoveState::Busy(tool, phase) => match phase {
            RemovePhase::Drain => hush(tool, linux::drop_jump(chain)),
            RemovePhase::Flush => hush(tool, linux::flush_chain(chain)),
            RemovePhase::Delete => hush(tool, linux::delete_chain(chain)),
            RemovePhase::Retry => RemoveActionView::WaitAndRun(
                RETRY_MS,
                RuleCmdView { tool, args: linux::delete_chain(chain), quiet: false },
            ),
        },
    }
}

/// What comes once the removal with a tool is over.
pub open spec fn after_tool(tool: Tool, has_v6: bool) -> RemoveState {
    if tool == Tool::V4 && has_v6 {
        RemoveState::Busy(Tool::V6, RemovePhase::Drain)
    } else {
        RemoveState::Over
    }
}

/// The state after a command that went well, or failed. Jumps are taken back until one
/// cannot be, which means that there is none left; the chain is deleted twice if need be; and no
/// other failure matters.
pub open spec fn remove_step(has_v6: bool, state: RemoveState, ok: bool) -> RemoveState {
    match state {
        RemoveState::Over => RemoveState::Over,
        RemoveState::Busy(tool, phase) => match phase {
            RemovePhase::Drain => if ok {
                RemoveState::Busy(tool, RemovePhase::Drain)
            } else {
                RemoveState::Busy(tool, RemovePhase::Flush)
            },
            RemovePhase::Flush => RemoveState::Busy(tool, RemovePhase::Delete),
            RemovePhase::Delete => if ok {
                after_tool(tool, has_v6)
            } else {
                RemoveState::Busy(tool, RemovePhase::Retry)
            },
            RemovePhase::Retry => after_tool(tool, has_v6),
        },
    }
}

/// Rules that are being removed.
#[derive(Debug)]
pub struct Remover {
    pub chain: String,
    pub has_v6: bool,
    pub state: RemoveState,
}

/// Starts to remove the rules of `chain`, those for IPv6 too if there are any: gives
/// what is to be done first.
pub fn remove(chain: &str, has_v6: bool) -> (r: (Remover, RemoveAction))
    ensures
        r.0.chain@ == chain@,
        r.0.has_v6 == has_v6,
        r.0.state == RemoveState::Busy(Tool::V4, RemovePhase::Drain),
        r.1@ == remove_action(chain@, r.0.state),
{
    let mut name: String = String::new();
    name.append(chain);
    assert(name@ =~= chain@);
    let r: Remover = Remover {
        chain: name,
        has_v6,
        state: RemoveState::Busy(Tool::V4, RemovePhase::Drain),
    };
    let a: RemoveAction = r.action();
    (r, a)
}

impl Remover {
    fn action(&self) -> (r: RemoveAction)
        ensures
            r@ == remove_action(self.chain@, self.state),
    {
        let chain: &str = self.chain.as_str();
        match self.state {
            RemoveState::Over => RemoveAction::Done,
            RemoveState::Busy(tool, phase) => match phase {
                RemovePhase::Drain => {
                    let args: Vec<&str> = vec!["-t", "nat", "-D", "OUTPUT", "-j", chain];
                    assert(linux::strs(args@) =~= linux::drop_jump(chain@));
                    RemoveAction::Run(iptables_cmd_quiet(tool, args.as_slice()))
                },
                RemovePhase::Flush => {
                    let args: Vec<&str> = vec!["-t", "nat", "-F", chain];
                    assert(linux::strs(args@) =~= linux::flush_chain(chain@));
                    RemoveAction::Run(iptables_cmd_quiet(tool, args.as_slice()))
                },
                RemovePhase::Delete => {
                    let args: Vec<&str> = vec!["-t", "nat", "-X", chain];
                    assert(linux::strs(args@) =~= linux::delete_chain(chain@));
                    RemoveAction::Run(iptables_cmd_quiet(tool, args.as_slice()))
                },
                RemovePhase::Retry => {
                    let args: Vec<&str> = vec!["-t", "nat", "-X", chain];
                    assert(linux::strs(args@) =~= linux::delete_chain(chain@));
                    RemoveAction::WaitAndRun(RETRY_MS, iptables_cmd(tool, args.as_slice()))
                },
            },
        }
    }

    fn finish(&mut self, tool: Tool)
        ensures
            final(self).chain == old(self).chain,
            final(self).has_v6 == old(self).has_v6,
            final(self).state == after_tool(tool, old(self).has_v6),
    {
        self.state = if tool == Tool::V4 && self.has_v6 {
            RemoveState::Busy(Tool::V6, RemovePhase::Drain)
        } else {
            RemoveState::Over
        };
    }

    /// What to do next, after a command that went well, or failed.
    pub fn next(&mut self, ok: bool) -> (r: RemoveAction)
        ensures
            final(self).chain == old(self).chain,
            final(self).has_v6 == old(self).has_v6,
            final(self).state == remove_step(old(self).has_v6, old(self).state, ok),
            r@ == remove_action(old(self).chain@, final(self).state),
    {
        match self.state {
            RemoveState::Over => {},
            RemoveState::Busy(tool, phase) => match phase {
                RemovePhase::Drain => {
                    if !ok {
                        self.state = RemoveState::Busy(tool, RemovePhase::Flush);
                    }
                },
                RemovePhase::Flush => {
                    self.state = RemoveState::Busy(tool, RemovePhase::Delete);
                },
                RemovePhase::Delete => {
                    if ok {
                        self.finish(tool);
                    } else {
                        self.state = RemoveState::Busy(tool, RemovePhase::Retry);
                    }
                },
                RemovePhase::Retry => {
                    self.finish(tool);
                },
            },
        }
        self.action()
    }
}

// --- laws -------------------------------------------------------------------

/// Where a removal stands after commands with these outcomes.
pub open spec fn remove_after(has_v6: bool, oks: Seq<bool>) -> RemoveState
    decreases oks.len(),
{
    if oks.len() == 0 {
        RemoveState::Busy(Tool::V4, RemovePhase::Drain)
    } else {
        remove_step(has_v6, remove_after(has_v6, oks.drop_last()), oks.last())
    }
}

/// The place of a state in the order in which they come.
pub open spec fn rank(state: RemoveState) -> int {
    match state {
        RemoveState::Over => 8,
        RemoveState::Busy(tool, phase) => (if tool == Tool::V4 {
            0int
        } else {
            4
        }) + match phase {
            RemovePhase::Drain => 0int,
            RemovePhase::Flush => 1,
            RemovePhase::Delete => 2,
            RemovePhase::Retry => 3,
        },
    }
}

/// The state is one of taking jumps back.
pub open spec fn is_drain(state: RemoveState) -> bool {
    state matches RemoveState::Busy(_, phase) && phase == RemovePhase::Drain
}

/// A removal never goes back, and goes on with every command but one that takes a jump
/// back.
proof fn lemma_rank(has_v6: bool, oks: Seq<bool>, n: int)
    requires
        0 <= n < oks.len(),
    ensures
        ({
            let before = remove_after(has_v6, oks.take(n));
            let after = remove_after(has_v6, oks.take(n + 1));
            &&& rank(after) >= rank(before)
            &&& rank(before) < 8 && !(is_drain(before) && oks[n]) ==> rank(after) > rank(before)
            &&& !has_v6 && rank(after) >= 4 ==> after == RemoveState::Over
        }),
    decreases n,
{
    assert(oks.take(n + 1).drop_last() =~= oks.take(n));
    if n > 0 {
        lemma_rank(has_v6, oks, n - 1);
    } else {
        assert(oks.take(0) =~= seq![]);
    }
}

/// The removal with one tool is past four commands after the first that fails.
proof fn lemma_past(has_v6: bool, oks: Seq<bool>, i: int, from: int)
    requires
        0 <= i,
        i + 4 <= oks.len(),
        !oks[i],
        from == 0 || from == 4,
        rank(remove_after(has_v6, oks.take(i))) >= from,
    ensures
        rank(remove_after(has_v6, oks.take(i + 4))) >= from + 4,
        !has_v6 ==> remove_after(has_v6, oks.take(i + 4)) == RemoveState::Over,
{
    lemma_rank(has_v6, oks, i);
    lemma_rank(has_v6, oks, i + 1);
    lemma_rank(has_v6, oks, i + 2);
    lemma_rank(has_v6, oks, i + 3);
}

proof fn lemma_no_way_back(has_v6: bool, oks: Seq<bool>, i: int, j: int)
    requires
        0 <= i <= j <= oks.len(),
    ensures
        rank(remove_after(has_v6, oks.take(j))) >= rank(remove_after(has_v6, oks.take(i))),
    decreases j,
{
    if i < j {
        lemma_no_way_back(has_v6, oks, i, j - 1);
        lemma_rank(has_v6, oks, j - 1);
    }
}

/// The removal comes to its end: once a command fails, which the last attempt to take a
/// jump back does, it takes three more commands at most, for each address family.
pub proof fn removal_ends(has_v6: bool, oks: Seq<bool>, i: int, j: int)
    requires
        0 <= i,
        i + 4 <= oks.len(),
        !oks[i],
        has_v6 ==> i + 4 <= j && j + 4 <= oks.len() && !oks[j],
    ensures
        remove_after(has_v6, oks) == RemoveState::Over,
{
    let n = oks.len() as int;
    assert(oks.take(n) =~= oks);
    lemma_past(has_v6, oks, i, 0);
    if has_v6 {
        lemma_no_way_back(has_v6, oks, i + 4, j);
        lemma_past(has_v6, oks, j, 4);
        lemma_no_way_back(has_v6, oks, j + 4, n);
    } else {
        lemma_no_way_back(has_v6, oks, i + 4, n);
    }
}

/// The commands of a removal, in order: jumps to the chain are taken back, the chain is emptied,
/// and it is deleted, all without messages; if it could not be deleted, it is once more after a
/// tenth of a second, with messages.
pub proof fn removal_is_spelled(chain: Seq<char>, tool: Tool)
    ensures
        ({
            let run = |args: Seq<Seq<char>>|
                RemoveActionView::Run(RuleCmdView { tool, args, quiet: true });
            let at = |phase: RemovePhase| remove_action(chain, RemoveState::Busy(tool, phase));
            let delete = seq!["-t"@, "nat"@, "-X"@, chain];
            &&& at(RemovePhase::Drain) == run(
                seq!["-t"@, "nat"@, "-D"@, "OUTPUT"@, "-j"@, chain],
            )
            &&& at(RemovePhase::Flush) == run(seq!["-t"@, "nat"@, "-F"@, chain])
            &&& at(RemovePhase::Delete) == run(delete)
            &&& at(RemovePhase::Retry) == RemoveActionView::WaitAndRun(
                100,
                RuleCmdView { tool, args: delete, quiet: false },
            )
            &&& remove_action(chain, RemoveState::Over) == RemoveActionView::Done
        }),
{
}

/// Jumps are taken back as long as that goes well. What follows does so whether it goes well or
/// not, but for the second deletion, which follows a first that failed. Then comes the other
/// family, if it is asked for and was not dealt with, and the end otherwise.
pub proof fn removal_goes_on(has_v6: bool, tool: Tool, ok: bool)
    ensures
        ({
            let at = |phase: RemovePhase| RemoveState::Busy(tool, phase);
            let next = |phase: RemovePhase, ok: bool| remove_step(has_v6, at(phase), ok);
            let done = if tool == Tool::V4 && has_v6 {
                RemoveState::Busy(Tool::V6, RemovePhase::Drain)
            } else {
                RemoveState::Over
            };
            &&& next(RemovePhase::Drain, true) == at(RemovePhase::Drain)
            &&& next(RemovePhase::Drain, false) == at(RemovePhase::Flush)
            &&& next(RemovePhase::Flush, ok) == at(RemovePhase::Delete)
            &&& next(RemovePhase::Delete, true) == done
            &&& next(RemovePhase::Delete, false) == at(RemovePhase::Retry)
            &&& next(RemovePhase::Retry, ok) == done
            &&& remove_step(has_v6, RemoveState::Over, ok) == RemoveState::Over
        }),
{
}

} // verus!
