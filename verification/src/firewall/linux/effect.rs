//! What the commands do to a packet filter, and what is left of them in the end.

use vstd::prelude::*;

use crate::decimal;
use crate::firewall::linux;
use crate::firewall::linux::removal;
use crate::firewall::linux::removal::{RemovePhase, RemoveState};
use crate::firewall::linux::{CreatePhase, InstallStepView, InstallerView, Tool};

verus! {

/// What a packet filter holds of one chain, for one address family.
#[verifier::ext_equal]
pub struct Table {
    /// The rules of the chain, if it is there.
    pub rules: Option<Seq<Seq<Seq<char>>>>,
    /// How often outgoing traffic is sent through the chain.
    pub jumps: nat,
}

/// Only a chain that is there can be jumped to.
pub open spec fn is_table(t: Table) -> bool {
    t.rules is None ==> t.jumps == 0
}

/// What a packet filter does with a command that concerns the chain, and whether the
/// command succeeds: a chain is made once, deleted only if it is empty and nothing
/// jumps to it, and rules go to a chain that is there.
pub open spec fn obey(t: Table, chain: Seq<char>, args: Seq<Seq<char>>) -> (Table, bool) {
    match t.rules {
        None => if args == linux::new_chain(chain) {
            (Table { rules: Some(seq![]), ..t }, true)
        } else {
            (t, false)
        },
        Some(rules) => if args == linux::new_chain(chain) {
            (t, false)
        } else if args == linux::list_chain(chain) {
            (t, true)
        } else if args == linux::flush_chain(chain) {
            (Table { rules: Some(seq![]), ..t }, true)
        } else if args == linux::delete_chain(chain) {
            if rules.len() == 0 && t.jumps == 0 {
                (Table { rules: None, ..t }, true)
            } else {
                (t, false)
            }
        } else if args == linux::jump_to(chain) {
            (Table { jumps: t.jumps + 1, ..t }, true)
        } else if args == linux::drop_jump(chain) {
            if t.jumps > 0 {
                (Table { jumps: (t.jumps - 1) as nat, ..t }, true)
            } else {
                (t, false)
            }
        } else {
            (Table { rules: Some(rules.push(args)), ..t }, true)
        },
    }
}

/// The commands that concern a chain are told apart.
pub proof fn lemma_commands_differ(chain: Seq<char>)
    ensures
        linux::new_chain(chain) != linux::flush_chain(chain),
        linux::new_chain(chain) != linux::delete_chain(chain),
        linux::flush_chain(chain) != linux::delete_chain(chain),
        linux::jump_to(chain) != linux::drop_jump(chain),
        linux::new_chain(chain).len() == 4,
        linux::flush_chain(chain).len() == 4,
        linux::delete_chain(chain).len() == 4,
        linux::list_chain(chain).len() == 5,
        linux::jump_to(chain).len() == 6,
        linux::drop_jump(chain).len() == 6,
{
    reveal_strlit("-N");
    reveal_strlit("-F");
    reveal_strlit("-X");
    reveal_strlit("-A");
    reveal_strlit("-D");
    assert("-N"@[1] != "-F"@[1]);
    assert("-N"@[1] != "-X"@[1]);
    assert("-F"@[1] != "-X"@[1]);
    assert("-A"@[1] != "-D"@[1]);
    assert(linux::new_chain(chain)[2] == "-N"@);
    assert(linux::flush_chain(chain)[2] == "-F"@);
    assert(linux::delete_chain(chain)[2] == "-X"@);
    assert(linux::jump_to(chain)[2] == "-A"@);
    assert(linux::drop_jump(chain)[2] == "-D"@);
}

/// What the packet filters of both address families hold of the chain.
#[verifier::ext_equal]
pub struct Tables {
    pub v4: Table,
    pub v6: Table,
}

/// Only chains that are there are jumped to.
pub open spec fn are_tables(ts: Tables) -> bool {
    is_table(ts.v4) && is_table(ts.v6)
}

/// The table that a tool works on.
pub open spec fn table(ts: Tables, tool: Tool) -> Table {
    match tool {
        Tool::V4 => ts.v4,
        Tool::V6 => ts.v6,
    }
}

/// The tables with another one for a tool.
pub open spec fn with(ts: Tables, tool: Tool, t: Table) -> Tables {
    match tool {
        Tool::V4 => Tables { v4: t, ..ts },
        Tool::V6 => Tables { v6: t, ..ts },
    }
}

/// What a command does to the table of its tool.
pub open spec fn obey_with(ts: Tables, tool: Tool, chain: Seq<char>, args: Seq<Seq<char>>) -> (
    Tables,
    bool,
) {
    let (t, ok) = obey(table(ts, tool), chain, args);
    (with(ts, tool, t), ok)
}

/// Nothing of a chain.
pub open spec fn nothing() -> Table {
    Table { rules: None, jumps: 0 }
}

// --- removing ---------------------------------------------------------------

/// The arguments of the command of a phase.
pub open spec fn phase_args(chain: Seq<char>, phase: RemovePhase) -> Seq<Seq<char>> {
    match phase {
        RemovePhase::Drain => linux::drop_jump(chain),
        RemovePhase::Flush => linux::flush_chain(chain),
        RemovePhase::Delete | RemovePhase::Retry => linux::delete_chain(chain),
    }
}

/// The command of a phase has these arguments.
pub proof fn phases_have_their_commands(chain: Seq<char>, tool: Tool, phase: RemovePhase)
    ensures
        match removal::remove_action(chain, RemoveState::Busy(tool, phase)) {
            removal::RemoveActionView::Run(c) => c.tool == tool && c.args == phase_args(
                chain,
                phase,
            ),
            removal::RemoveActionView::WaitAndRun(_, c) => c.tool == tool && c.args == phase_args(
                chain,
                phase,
            ),
            removal::RemoveActionView::Done => false,
        },
{
}

/// How many jumps there are for the tool that is at work.
pub open spec fn jumps_at(state: RemoveState, ts: Tables) -> nat {
    match state {
        RemoveState::Over => 0,
        RemoveState::Busy(tool, _) => table(ts, tool).jumps,
    }
}

/// What is left once a removal is over, from a state on. The filter may be `busy`, so
/// that a chain cannot be deleted the first time.
pub open spec fn left_over(
    chain: Seq<char>,
    has_v6: bool,
    state: RemoveState,
    ts: Tables,
    busy: bool,
) -> Tables
    decreases 8 - removal::rank(state), jumps_at(state, ts),
{
    proof {
        lemma_commands_differ(chain);
    }
    match state {
        RemoveState::Over => ts,
        RemoveState::Busy(tool, phase) => {
            let (us, ok) = if busy && phase == RemovePhase::Delete {
                (ts, false)
            } else {
                obey_with(ts, tool, chain, phase_args(chain, phase))
            };
            left_over(chain, has_v6, removal::remove_step(has_v6, state, ok), us, busy)
        },
    }
}

proof fn lemma_flushed(chain: Seq<char>, has_v6: bool, tool: Tool, ts: Tables, busy: bool)
    requires
        is_table(table(ts, tool)),
        table(ts, tool).jumps == 0,
    ensures
        left_over(chain, has_v6, RemoveState::Busy(tool, RemovePhase::Flush), ts, busy)
            == left_over(
            chain,
            has_v6,
            removal::after_tool(tool, has_v6),
            with(ts, tool, nothing()),
            busy,
        ),
{
    lemma_commands_differ(chain);
    let t = table(ts, tool);
    let flushed = obey(t, chain, linux::flush_chain(chain)).0;
    let us = with(ts, tool, flushed);
    let gone = obey(flushed, chain, linux::delete_chain(chain)).0;
    assert(gone == nothing());
    let flush = RemoveState::Busy(tool, RemovePhase::Flush);
    let delete = RemoveState::Busy(tool, RemovePhase::Delete);
    let retry = RemoveState::Busy(tool, RemovePhase::Retry);
    let after = removal::after_tool(tool, has_v6);
    let end = left_over(chain, has_v6, after, with(ts, tool, nothing()), busy);
    assert(with(us, tool, gone) == with(ts, tool, nothing()));
    assert(left_over(chain, has_v6, flush, ts, busy) == left_over(chain, has_v6, delete, us, busy));
    assert(left_over(chain, has_v6, retry, us, busy) == end);
    assert(left_over(chain, has_v6, delete, us, busy) == end) by {
        if t.rules is None {
            assert(flushed == t && us == ts);
        }
    }
}

proof fn lemma_drained(chain: Seq<char>, has_v6: bool, tool: Tool, ts: Tables, busy: bool)
    requires
        is_table(table(ts, tool)),
    ensures
        left_over(chain, has_v6, RemoveState::Busy(tool, RemovePhase::Drain), ts, busy)
            == left_over(
            chain,
            has_v6,
            removal::after_tool(tool, has_v6),
            with(ts, tool, nothing()),
            busy,
        ),
    decreases table(ts, tool).jumps,
{
    lemma_commands_differ(chain);
    let t = table(ts, tool);
    let drain = RemoveState::Busy(tool, RemovePhase::Drain);
    if t.jumps == 0 {
        assert(obey(t, chain, linux::drop_jump(chain)) == (t, false));
        assert(with(ts, tool, t) == ts);
        lemma_flushed(chain, has_v6, tool, ts, busy);
    } else {
        let u = Table { jumps: (t.jumps - 1) as nat, ..t };
        let us = with(ts, tool, u);
        assert(obey(t, chain, linux::drop_jump(chain)) == (u, true));
        assert(left_over(chain, has_v6, drain, ts, busy) == left_over(
            chain,
            has_v6,
            drain,
            us,
            busy,
        ));
        lemma_drained(chain, has_v6, tool, us, busy);
        assert(with(us, tool, nothing()) == with(ts, tool, nothing()));
    }
}

/// The removal leaves nothing of the chain behind, whatever rules are in it and however
/// many jumps to it there are, and leaves IPv6 alone unless it was asked to remove its
/// rules too.
pub proof fn removal_leaves_nothing(chain: Seq<char>, has_v6: bool, ts: Tables, busy: bool)
    requires
        are_tables(ts),
    ensures
        left_over(
            chain,
            has_v6,
            RemoveState::Busy(Tool::V4, RemovePhase::Drain),
            ts,
            busy,
        ) == (Tables {
            v4: nothing(),
            v6: if has_v6 {
                nothing()
            } else {
                ts.v6
            },
        }),
{
    lemma_drained(chain, has_v6, Tool::V4, ts, busy);
    if has_v6 {
        lemma_drained(chain, has_v6, Tool::V6, with(ts, Tool::V4, nothing()), busy);
    }
}

// --- installing -------------------------------------------------------------

/// How many commands the making of a chain still takes at most.
pub open spec fn tries_left(phase: CreatePhase) -> nat {
    match phase {
        CreatePhase::Make => 2,
        CreatePhase::Look => 1,
        CreatePhase::MakeLoud => 0,
    }
}

/// What the packet filters hold once the steps are through, from where they stand on, and
/// whether they went well.
pub open spec fn put_up(v: InstallerView, ts: Tables) -> (Tables, bool)
    decreases v.steps.len() - v.at, tries_left(v.phase),
{
    match linux::install_action(v) {
        linux::InstallActionView::Done(why) => (ts, why is None),
        linux::InstallActionView::Run(cmd) => {
            let (us, ok) = obey_with(ts, cmd.tool, v.chain, cmd.args);
            let why = if ok {
                None
            } else {
                Some(Seq::<char>::empty())
            };
            match linux::install_step(v, why).1 {
                linux::InstallActionView::Done(Some(_)) => (us, false),
                _ => {
                    let w = linux::install_step(v, why).0;
                    put_up(w, us)
                },
            }
        },
    }
}

/// The steps from `from` up to `to` make a chain, empty it, give it rules, and then send
/// traffic through it, all with one tool.
pub open spec fn makes_chain(
    steps: Seq<InstallStepView>,
    from: int,
    to: int,
    tool: Tool,
    chain: Seq<char>,
) -> bool {
    &&& 0 <= from
    &&& from + 3 <= to <= steps.len()
    &&& steps[from] == InstallStepView::Create(tool)
    &&& steps[from + 1] == linux::run(tool, linux::flush_chain(chain))
    &&& steps[to - 1] == linux::run(tool, linux::jump_to(chain))
    &&& forall|i: int| from + 2 <= i < to - 1 ==> is_rule(#[trigger] steps[i], tool)
}

/// The step adds a rule to the chain.
pub open spec fn is_rule(step: InstallStepView, tool: Tool) -> bool {
    step matches InstallStepView::Run(cmd) && cmd.tool == tool && cmd.args.len() > 6
}

/// The arguments of the command of a step.
pub open spec fn step_args(step: InstallStepView) -> Seq<Seq<char>> {
    match step {
        InstallStepView::Run(cmd) => cmd.args,
        InstallStepView::Create(_) => seq![],
    }
}

/// The rules that the steps from `from` up to `to` give the chain.
pub open spec fn rules_between(steps: Seq<InstallStepView>, from: int, to: int) -> Seq<
    Seq<Seq<char>>,
> {
    Seq::new((to - from) as nat, |i: int| step_args(steps[from + i]))
}

/// The installation stands before the step `at`.
pub open spec fn standing(chain: Seq<char>, steps: Seq<InstallStepView>, at: int) -> InstallerView {
    InstallerView { chain, steps, at: at as nat, phase: CreatePhase::Make }
}

proof fn lemma_rules_put(
    chain: Seq<char>,
    steps: Seq<InstallStepView>,
    from: int,
    to: int,
    at: int,
    tool: Tool,
    ts: Tables,
)
    requires
        makes_chain(steps, from, to, tool, chain),
        from + 2 <= at < to,
        table(ts, tool).rules is Some,
    ensures
        put_up(standing(chain, steps, at), ts) == put_up(
            standing(chain, steps, to),
            with(
                ts,
                tool,
                Table {
                    rules: Some(table(ts, tool).rules->0 + rules_between(steps, at, to - 1)),
                    jumps: table(ts, tool).jumps + 1,
                },
            ),
        ),
    decreases to - at,
{
    lemma_commands_differ(chain);
    let v = standing(chain, steps, at);
    let w = standing(chain, steps, at + 1);
    let t = table(ts, tool);
    let rules = t.rules->0;
    assert(linux::step_done(v) == w);
    if at == to - 1 {
        let u = Table { jumps: t.jumps + 1, ..t };
        assert(obey(t, chain, linux::jump_to(chain)) == (u, true));
        assert(rules + rules_between(steps, at, to - 1) =~= rules);
        assert(put_up(v, ts) == put_up(w, with(ts, tool, u)));
    } else {
        assert(is_rule(steps[at], tool));
        let args = step_args(steps[at]);
        let u = Table { rules: Some(rules.push(args)), ..t };
        let us = with(ts, tool, u);
        assert(obey(t, chain, args) == (u, true));
        assert(put_up(v, ts) == put_up(w, us));
        lemma_rules_put(chain, steps, from, to, at + 1, tool, us);
        assert(rules + rules_between(steps, at, to - 1) =~= rules.push(args) + rules_between(
            steps,
            at + 1,
            to - 1,
        ));
    }
}

proof fn lemma_chain_put(
    chain: Seq<char>,
    steps: Seq<InstallStepView>,
    from: int,
    to: int,
    tool: Tool,
    ts: Tables,
)
    requires
        makes_chain(steps, from, to, tool, chain),
        is_table(table(ts, tool)),
    ensures
        put_up(standing(chain, steps, from), ts) == put_up(
            standing(chain, steps, to),
            with(
                ts,
                tool,
                Table {
                    rules: Some(rules_between(steps, from + 2, to - 1)),
                    jumps: table(ts, tool).jumps + 1,
                },
            ),
        ),
{
    lemma_commands_differ(chain);
    let v = standing(chain, steps, from);
    let v1 = standing(chain, steps, from + 1);
    let v2 = standing(chain, steps, from + 2);
    let t = table(ts, tool);
    let made = if t.rules is None {
        Table { rules: Some(seq![]), ..t }
    } else {
        t
    };
    assert(linux::step_done(v) == v1);
    assert(put_up(v, ts) == put_up(v1, with(ts, tool, made))) by {
        if t.rules is Some {
            let look = InstallerView { phase: CreatePhase::Look, ..v };
            assert(obey(t, chain, linux::new_chain(chain)) == (t, false));
            assert(obey(t, chain, linux::list_chain(chain)) == (t, true));
            assert(with(ts, tool, t) == ts);
            assert(linux::step_done(look) == v1);
            assert(put_up(v, ts) == put_up(look, ts));
            assert(put_up(look, ts) == put_up(v1, ts));
        }
    }
    let flushed = Table { rules: Some(seq![]), ..t };
    let us = with(ts, tool, flushed);
    assert(linux::step_done(v1) == v2);
    assert(put_up(v1, with(ts, tool, made)) == put_up(v2, us)) by {
        assert(obey(made, chain, linux::flush_chain(chain)) == (flushed, true));
        assert(with(with(ts, tool, made), tool, flushed) == us);
    }
    lemma_rules_put(chain, steps, from, to, from + 2, tool, us);
    assert(seq![] + rules_between(steps, from + 2, to - 1) =~= rules_between(
        steps,
        from + 2,
        to - 1,
    ));
}

/// What an installation is asked for.
pub struct Wanted {
    pub chain: Seq<char>,
    pub tcp_port: u16,
    pub dns_port: u16,
    pub subnets_v4: Seq<Seq<char>>,
    pub subnets_v6: Seq<Seq<char>>,
    pub dns: bool,
    pub nameservers: Seq<Seq<char>>,
}

/// The steps for IPv4.
pub open spec fn steps_v4(w: Wanted) -> Seq<InstallStepView> {
    linux::v4_steps(w.chain, w.tcp_port, w.dns_port, w.subnets_v4, w.dns, w.nameservers)
}

/// The steps for IPv6.
pub open spec fn steps_v6(w: Wanted) -> Seq<InstallStepView> {
    linux::v6_steps(w.chain, w.tcp_port, w.subnets_v6)
}

/// All the steps of an installation.
pub open spec fn all_steps(w: Wanted) -> Seq<InstallStepView> {
    steps_v4(w) + steps_v6(w)
}

/// The rules that the steps of one tool give the chain: one for each step but the first
/// two, which make the chain and empty it, and the last, which sends traffic through it.
pub open spec fn chain_rules(steps: Seq<InstallStepView>) -> Seq<Seq<Seq<char>>> {
    rules_between(steps, 2, steps.len() - 1)
}

/// An installation goes well and leaves the same rules in the chain, for both address
/// families, whether the chain is new or there from before with other rules; and traffic
/// is sent through it once more.
pub proof fn stale_chain_is_no_hindrance(w: Wanted, ts: Tables)
    requires
        are_tables(ts),
    ensures
        put_up(standing(w.chain, all_steps(w), 0), ts) == (
            Tables {
                v4: Table { rules: Some(chain_rules(steps_v4(w))), jumps: ts.v4.jumps + 1 },
                v6: if w.subnets_v6.len() > 0 {
                    Table { rules: Some(chain_rules(steps_v6(w))), jumps: ts.v6.jumps + 1 }
                } else {
                    ts.v6
                },
            },
            true,
        ),
{
    let steps = all_steps(w);
    let four = steps_v4(w);
    let six = steps_v6(w);
    let n = four.len() as int;
    let m = steps.len() as int;
    assert forall|i: int| 2 <= i < n - 1 implies is_rule(#[trigger] steps[i], Tool::V4) by {
        assert(steps[i] == four[i]);
    }
    assert(makes_chain(steps, 0, n, Tool::V4, w.chain));
    lemma_chain_put(w.chain, steps, 0, n, Tool::V4, ts);
    assert(rules_between(steps, 2, n - 1) =~= chain_rules(four)) by {
        assert forall|i: int| 0 <= i < n - 3 implies #[trigger] steps[2 + i] == four[2 + i] by {}
    }
    let us = with(
        ts,
        Tool::V4,
        Table { rules: Some(chain_rules(four)), jumps: ts.v4.jumps + 1 },
    );
    if w.subnets_v6.len() > 0 {
        assert forall|i: int| n + 2 <= i < m - 1 implies is_rule(#[trigger] steps[i], Tool::V6) by {
            assert(steps[i] == six[i - n]);
        }
        assert(steps[n] == six[0] && steps[n + 1] == six[1] && steps[m - 1] == six.last());
        assert(makes_chain(steps, n, m, Tool::V6, w.chain));
        lemma_chain_put(w.chain, steps, n, m, Tool::V6, us);
        assert(rules_between(steps, n + 2, m - 1) =~= chain_rules(six)) by {
            assert forall|i: int| 0 <= i < m - n - 3 implies #[trigger] steps[n + 2 + i] == six[2
                + i] by {}
        }
    } else {
        assert(six =~= seq![]);
        assert(m == n);
    }
}

/// Of two installations that are asked for the same, each leaves the same rules as the
/// other, whatever was in the chain before.
pub proof fn installs_are_alike(w: Wanted, a: Tables, b: Tables)
    requires
        are_tables(a),
        are_tables(b),
    ensures
        ({
            let x = put_up(standing(w.chain, all_steps(w), 0), a);
            let y = put_up(standing(w.chain, all_steps(w), 0), b);
            &&& x.1 && y.1
            &&& x.0.v4.rules == y.0.v4.rules
            &&& w.subnets_v6.len() > 0 ==> x.0.v6.rules == y.0.v6.rules
        }),
{
    stale_chain_is_no_hindrance(w, a);
    stale_chain_is_no_hindrance(w, b);
}

/// What is installed is removed without a trace, for both address families, even if
/// earlier runs left the chain behind, with however many jumps to it.
pub proof fn removal_undoes_install(w: Wanted, ts: Tables, busy: bool)
    requires
        are_tables(ts),
    ensures
        left_over(
            w.chain,
            w.subnets_v6.len() > 0,
            RemoveState::Busy(Tool::V4, RemovePhase::Drain),
            put_up(standing(w.chain, all_steps(w), 0), ts).0,
            busy,
        ) == (Tables {
            v4: nothing(),
            v6: if w.subnets_v6.len() > 0 {
                nothing()
            } else {
                ts.v6
            },
        }),
{
    stale_chain_is_no_hindrance(w, ts);
    removal_leaves_nothing(
        w.chain,
        w.subnets_v6.len() > 0,
        put_up(standing(w.chain, all_steps(w), 0), ts).0,
        busy,
    );
}

// --- what the chains hold ---------------------------------------------------

/// How many rules there are for DNS.
pub open spec fn dns_count(w: Wanted) -> int {
    if !w.dns {
        0
    } else if w.nameservers.len() == 0 {
        1
    } else {
        w.nameservers.len() as int
    }
}

/// Once rules are installed, whatever was there before, the chain of IPv4 redirects the
/// connections to every network that was asked for, in order, and with `dns` the queries to
/// every name server, or all queries if none is known; it then lets local traffic pass, and
/// holds no other rule.
pub proof fn v4_chain_redirects_every_network(w: Wanted, ts: Tables)
    requires
        are_tables(ts),
    ensures
        ({
            let (after, ok) = put_up(standing(w.chain, all_steps(w), 0), ts);
            let rules = after.v4.rules->0;
            let n = dns_count(w);
            let append = seq!["-t"@, "nat"@, "-A"@, w.chain];
            &&& ok
            &&& after.v4.rules is Some
            &&& after.v4.jumps == ts.v4.jumps + 1
            &&& rules.len() == n + w.subnets_v4.len() + 1
            &&& forall|i: int|
                0 <= i < w.subnets_v4.len() ==> rules[n + i] == append + seq![
                    "-p"@,
                    "tcp"@,
                    "-d"@,
                    #[trigger] w.subnets_v4[i],
                    "-j"@,
                    "REDIRECT"@,
                    "--to-ports"@,
                    decimal::digits(w.tcp_port as nat),
                ]
            &&& w.dns ==> forall|i: int|
                0 <= i < w.nameservers.len() ==> rules[i] == append + seq![
                    "-p"@,
                    "udp"@,
                    "-d"@,
                    #[trigger] w.nameservers[i],
                    "--dport"@,
                    "53"@,
                    "-j"@,
                    "REDIRECT"@,
                    "--to-ports"@,
                    decimal::digits(w.dns_port as nat),
                ]
            &&& w.dns && w.nameservers.len() == 0 ==> rules[0] == append + seq![
                "-p"@,
                "udp"@,
                "--dport"@,
                "53"@,
                "-j"@,
                "REDIRECT"@,
                "--to-ports"@,
                decimal::digits(w.dns_port as nat),
            ]
            &&& rules.last() == append + seq![
                "-m"@,
                "addrtype"@,
                "--dst-type"@,
                "LOCAL"@,
                "-j"@,
                "RETURN"@,
            ]
        }),
{
    stale_chain_is_no_hindrance(w, ts);
    let n = dns_count(w);
    let four = steps_v4(w);
    let rules = chain_rules(four);
    let append = seq!["-t"@, "nat"@, "-A"@, w.chain];
    assert(four.len() == 2 + n + w.subnets_v4.len() + 2);
    assert forall|i: int| 0 <= i < w.subnets_v4.len() implies rules[n + i] == append + seq![
        "-p"@,
        "tcp"@,
        "-d"@,
        #[trigger] w.subnets_v4[i],
        "-j"@,
        "REDIRECT"@,
        "--to-ports"@,
        decimal::digits(w.tcp_port as nat),
    ] by {
        assert(four[2 + n + i] == linux::tcp_steps(
            Tool::V4,
            w.chain,
            w.tcp_port,
            w.subnets_v4,
        )[i]);
        assert(rules[n + i] =~= append + seq![
            "-p"@,
            "tcp"@,
            "-d"@,
            w.subnets_v4[i],
            "-j"@,
            "REDIRECT"@,
            "--to-ports"@,
            decimal::digits(w.tcp_port as nat),
        ]);
    }
    if w.dns {
        let dns = linux::dns_steps(w.chain, w.dns_port, w.nameservers);
        assert forall|i: int| 0 <= i < w.nameservers.len() implies rules[i] == append + seq![
            "-p"@,
            "udp"@,
            "-d"@,
            #[trigger] w.nameservers[i],
            "--dport"@,
            "53"@,
            "-j"@,
            "REDIRECT"@,
            "--to-ports"@,
            decimal::digits(w.dns_port as nat),
        ] by {
            assert(four[2 + i] == dns[i]);
            assert(rules[i] =~= append + seq![
                "-p"@,
                "udp"@,
                "-d"@,
                w.nameservers[i],
                "--dport"@,
                "53"@,
                "-j"@,
                "REDIRECT"@,
                "--to-ports"@,
                decimal::digits(w.dns_port as nat),
            ]);
        }
        if w.nameservers.len() == 0 {
            assert(four[2] == dns[0]);
            assert(rules[0] =~= append + seq![
                "-p"@,
                "udp"@,
                "--dport"@,
                "53"@,
                "-j"@,
                "REDIRECT"@,
                "--to-ports"@,
                decimal::digits(w.dns_port as nat),
            ]);
        }
    }
    assert(rules.last() =~= append + seq![
        "-m"@,
        "addrtype"@,
        "--dst-type"@,
        "LOCAL"@,
        "-j"@,
        "RETURN"@,
    ]);
}

/// Once rules are installed, whatever was there before, the chain of IPv6 first lets traffic
/// to the loopback address pass, then redirects the connections to every network of IPv6 that
/// was asked for, in order, and holds no other rule; without such a network IPv6 is left
/// alone.
pub proof fn v6_chain_redirects_every_network(w: Wanted, ts: Tables)
    requires
        are_tables(ts),
    ensures
        ({
            let after = put_up(standing(w.chain, all_steps(w), 0), ts).0;
            let rules = after.v6.rules->0;
            let append = seq!["-t"@, "nat"@, "-A"@, w.chain];
            &&& w.subnets_v6.len() == 0 ==> after.v6 == ts.v6
            &&& w.subnets_v6.len() > 0 ==> {
                &&& after.v6.rules is Some
                &&& after.v6.jumps == ts.v6.jumps + 1
                &&& rules.len() == w.subnets_v6.len() + 1
                &&& rules[0] == append + seq!["-d"@, "::1/128"@, "-j"@, "RETURN"@]
                &&& forall|i: int|
                    0 <= i < w.subnets_v6.len() ==> rules[1 + i] == append + seq![
                        "-p"@,
                        "tcp"@,
                        "-d"@,
                        #[trigger] w.subnets_v6[i],
                        "-j"@,
                        "REDIRECT"@,
                        "--to-ports"@,
                        decimal::digits(w.tcp_port as nat),
                    ]
            }
        }),
{
    stale_chain_is_no_hindrance(w, ts);
    if w.subnets_v6.len() > 0 {
        let six = steps_v6(w);
        let rules = chain_rules(six);
        let append = seq!["-t"@, "nat"@, "-A"@, w.chain];
        assert(six.len() == 3 + w.subnets_v6.len() + 1);
        assert(rules[0] =~= append + seq!["-d"@, "::1/128"@, "-j"@, "RETURN"@]);
        assert forall|i: int| 0 <= i < w.subnets_v6.len() implies rules[1 + i] == append + seq![
            "-p"@,
            "tcp"@,
            "-d"@,
            #[trigger] w.subnets_v6[i],
            "-j"@,
            "REDIRECT"@,
            "--to-ports"@,
            decimal::digits(w.tcp_port as nat),
        ] by {
            assert(six[3 + i] == linux::tcp_steps(
                Tool::V6,
                w.chain,
                w.tcp_port,
                w.subnets_v6,
            )[i]);
            assert(rules[1 + i] =~= append + seq![
                "-p"@,
                "tcp"@,
                "-d"@,
                w.subnets_v6[i],
                "-j"@,
                "REDIRECT"@,
                "--to-ports"@,
                decimal::digits(w.tcp_port as nat),
            ]);
        }
    }
}

/// The commands that concern a chain as a whole are those of the table `nat`: one makes it,
/// one lists it, one empties it, one deletes it, and two put up and take back a jump to it
/// for outgoing traffic.
pub proof fn chain_commands_are_spelled(chain: Seq<char>)
    ensures
        linux::new_chain(chain) == seq!["-t"@, "nat"@, "-N"@, chain],
        linux::list_chain(chain) == seq!["-t"@, "nat"@, "-L"@, chain, "-n"@],
        linux::flush_chain(chain) == seq!["-t"@, "nat"@, "-F"@, chain],
        linux::delete_chain(chain) == seq!["-t"@, "nat"@, "-X"@, chain],
        linux::jump_to(chain) == seq!["-t"@, "nat"@, "-A"@, "OUTPUT"@, "-j"@, chain],
        linux::drop_jump(chain) == seq!["-t"@, "nat"@, "-D"@, "OUTPUT"@, "-j"@, chain],
{
}

/// The commands of an installation: each tool makes its chain, empties it, gives it its rules,
/// and only then sends outgoing traffic through it. No other command touches more than the
/// chain, and the messages of all of them are shown.
pub proof fn traffic_is_sent_through_a_full_chain(w: Wanted)
    ensures
        ({
            let four = steps_v4(w);
            let six = steps_v6(w);
            let flush = seq!["-t"@, "nat"@, "-F"@, w.chain];
            let jump = seq!["-t"@, "nat"@, "-A"@, "OUTPUT"@, "-j"@, w.chain];
            &&& four.len() == dns_count(w) + w.subnets_v4.len() + 4
            &&& four[0] == InstallStepView::Create(Tool::V4)
            &&& four[1] == InstallStepView::Run(
                linux::RuleCmdView { tool: Tool::V4, args: flush, quiet: false },
            )
            &&& four.last() == InstallStepView::Run(
                linux::RuleCmdView { tool: Tool::V4, args: jump, quiet: false },
            )
            &&& forall|i: int|
                2 <= i < four.len() - 1 ==> appends_to(#[trigger] four[i], Tool::V4, w.chain)
            &&& w.subnets_v6.len() == 0 ==> six.len() == 0
            &&& w.subnets_v6.len() > 0 ==> {
                &&& six.len() == w.subnets_v6.len() + 4
                &&& six[0] == InstallStepView::Create(Tool::V6)
                &&& six[1] == InstallStepView::Run(
                    linux::RuleCmdView { tool: Tool::V6, args: flush, quiet: false },
                )
                &&& six.last() == InstallStepView::Run(
                    linux::RuleCmdView { tool: Tool::V6, args: jump, quiet: false },
                )
                &&& forall|i: int|
                    2 <= i < six.len() - 1 ==> appends_to(#[trigger] six[i], Tool::V6, w.chain)
            }
        }),
{
    let four = steps_v4(w);
    let n = dns_count(w);
    assert(four.len() == 2 + n + w.subnets_v4.len() + 2);
    assert forall|i: int| 2 <= i < four.len() - 1 implies appends_to(
        #[trigger] four[i],
        Tool::V4,
        w.chain,
    ) by {
        if i < 2 + n {
            assert(four[i] == linux::dns_steps(w.chain, w.dns_port, w.nameservers)[i - 2]);
        } else if i < 2 + n + w.subnets_v4.len() {
            assert(four[i] == linux::tcp_steps(
                Tool::V4,
                w.chain,
                w.tcp_port,
                w.subnets_v4,
            )[i - 2 - n]);
        }
        assert(step_args(four[i]).take(4) =~= seq!["-t"@, "nat"@, "-A"@, w.chain]);
    }
    if w.subnets_v6.len() > 0 {
        let six = steps_v6(w);
        assert(six.len() == 3 + w.subnets_v6.len() + 1);
        assert forall|i: int| 2 <= i < six.len() - 1 implies appends_to(
            #[trigger] six[i],
            Tool::V6,
            w.chain,
        ) by {
            if i >= 3 {
                assert(six[i] == linux::tcp_steps(
                    Tool::V6,
                    w.chain,
                    w.tcp_port,
                    w.subnets_v6,
                )[i - 3]);
            }
            assert(step_args(six[i]).take(4) =~= seq!["-t"@, "nat"@, "-A"@, w.chain]);
        }
    }
}

/// The step appends a rule to the chain, and shows its messages.
pub open spec fn appends_to(step: InstallStepView, tool: Tool, chain: Seq<char>) -> bool {
    &&& step matches InstallStepView::Run(cmd)
    &&& cmd.tool == tool
    &&& !cmd.quiet
    &&& cmd.args.len() > 4
    &&& cmd.args.take(4) == seq!["-t"@, "nat"@, "-A"@, chain]
}

} // verus!
