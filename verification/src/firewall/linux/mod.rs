//! Redirection on Linux, by rules of `iptables` and `ip6tables`.
//!
//! Installing and removing rules are told apart from running commands: each is a
//! machine that says which command to run next, and is told how it went.

pub mod effect;
pub mod nameservers;
pub mod removal;

use vstd::prelude::*;

use crate::decimal;
use crate::decimal::push_decimal;
use crate::ip;
use crate::ip::{IpAddr, IpView};
use crate::ip_text;
use crate::ip_text::write_ip;
use crate::ssnet::frame;
use crate::ssnet::frame::from_be;
use crate::text;
use crate::text::copied;

verus! {

// --- commands ---------------------------------------------------------------

/// The program that a command runs, one for each address family.
#[derive(Clone, Copy, Debug, PartialEq, Eq, Structural)]
pub enum Tool {
    V4,
    V6,
}

/// The name of a program.
pub open spec fn tool_name(tool: Tool) -> Seq<char> {
    match tool {
        Tool::V4 => "iptables"@,
        Tool::V6 => "ip6tables"@,
    }
}

/// The name of a program.
pub fn tool_bin(tool: Tool) -> (r: &'static str)
    ensures
        r@ == tool_name(tool),
{
    match tool {
        Tool::V4 => "iptables",
        Tool::V6 => "ip6tables",
    }
}

/// A command to run.
#[derive(Debug)]
pub struct RuleCmd {
    pub tool: Tool,
    pub args: Vec<String>,
    /// Hide what the command writes to its standard error.
    pub quiet: bool,
}

/// What a `RuleCmd` says.
#[verifier::ext_equal]
pub struct RuleCmdView {
    pub tool: Tool,
    pub args: Seq<Seq<char>>,
    pub quiet: bool,
}

impl View for RuleCmd {
    type V = RuleCmdView;

    open spec fn view(&self) -> RuleCmdView {
        RuleCmdView { tool: self.tool, args: text::texts(self.args@), quiet: self.quiet }
    }
}

/// The texts of a list of string slices.
pub open spec fn strs(v: Seq<&str>) -> Seq<Seq<char>> {
    Seq::new(v.len(), |i: int| v[i]@)
}

fn owned(v: &[&str]) -> (r: Vec<String>)
    ensures
        text::texts(r@) == strs(v@),
{
    let mut r: Vec<String> = Vec::new();
    let n: usize = v.len();
    for i in 0..n
        invariant
            n == v@.len(),
            text::texts(r@) =~= strs(v@).take(i as int),
    {
        let mut s: String = String::new();
        s.append(v[i]);
        assert(s@ =~= v@[i as int]@);
        let ghost before = text::texts(r@);
        r.push(s);
        assert(text::texts(r@) =~= before.push(s@));
    }
    assert(strs(v@).take(n as int) =~= strs(v@));
    r
}

/// The command that runs a tool with these arguments, and shows its messages.
pub fn iptables_cmd(tool: Tool, args: &[&str]) -> (r: RuleCmd)
    ensures
        r@ == (RuleCmdView { tool, args: strs(args@), quiet: false }),
{
    RuleCmd { tool, args: owned(args), quiet: false }
}

/// The command that runs a tool with these arguments, and hides its messages. It is for
/// commands that are expected to fail.
pub fn iptables_cmd_quiet(tool: Tool, args: &[&str]) -> (r: RuleCmd)
    ensures
        r@ == (RuleCmdView { tool, args: strs(args@), quiet: true }),
{
    RuleCmd { tool, args: owned(args), quiet: true }
}

/// What a command is run as: with a bound on how long it waits for the lock of the
/// packet filter, and through `sudo` if it would not run as root.
pub open spec fn command_words(cmd: RuleCmdView, as_root: bool) -> Seq<Seq<char>> {
    let direct = seq![tool_name(cmd.tool), "-w"@, "5"@] + cmd.args;
    if as_root {
        direct
    } else {
        seq!["sudo"@, "-p"@, "[local sudo] Password: "@] + direct
    }
}

/// What a command is run as: the program, and its arguments.
pub fn command_line(cmd: &RuleCmd, as_root: bool) -> (r: Vec<String>)
    ensures
        text::texts(r@) == command_words(cmd@, as_root),
{
    let head: Vec<&str> = if as_root {
        vec![tool_bin(cmd.tool), "-w", "5"]
    } else {
        vec!["sudo", "-p", "[local sudo] Password: ", tool_bin(cmd.tool), "-w", "5"]
    };
    let mut r: Vec<String> = owned(head.as_slice());
    let ghost start = text::texts(r@);
    let n: usize = cmd.args.len();
    for i in 0..n
        invariant
            n == cmd.args@.len(),
            text::texts(r@) =~= start + text::texts(cmd.args@).take(i as int),
    {
        let ghost before = text::texts(r@);
        let s: String = cmd.args[i].clone();
        r.push(s);
        assert(text::texts(r@) =~= before.push(s@));
    }
    assert(text::texts(cmd.args@).take(n as int) =~= text::texts(cmd.args@));
    assert(start =~= if as_root {
        seq![tool_name(cmd.tool), "-w"@, "5"@]
    } else {
        seq!["sudo"@, "-p"@, "[local sudo] Password: "@, tool_name(cmd.tool), "-w"@, "5"@]
    });
    assert(text::texts(r@) =~= command_words(cmd@, as_root));
    r
}

/// No command waits for the lock of the packet filter without bound, and each one hands its
/// arguments to the tool as they are.
pub proof fn commands_wait_within_bounds(cmd: RuleCmdView, as_root: bool)
    ensures
        ({
            let words = command_words(cmd, as_root);
            let i = if as_root {
                0int
            } else {
                3
            };
            &&& words[i] == tool_name(cmd.tool)
            &&& words[i + 1] == "-w"@
            &&& words[i + 2] == "5"@
            &&& words.skip(i + 3) == cmd.args
        }),
{
    let words = command_words(cmd, as_root);
    let i = if as_root {
        0int
    } else {
        3
    };
    assert(words.skip(i + 3) =~= cmd.args);
}

// --- rules ------------------------------------------------------------------

/// Make the chain.
pub open spec fn new_chain(chain: Seq<char>) -> Seq<Seq<char>> {
    seq!["-t"@, "nat"@, "-N"@, chain]
}

/// List the chain, which succeeds if it is there.
pub open spec fn list_chain(chain: Seq<char>) -> Seq<Seq<char>> {
    seq!["-t"@, "nat"@, "-L"@, chain, "-n"@]
}

/// Empty the chain.
pub open spec fn flush_chain(chain: Seq<char>) -> Seq<Seq<char>> {
    seq!["-t"@, "nat"@, "-F"@, chain]
}

/// Delete the chain.
pub open spec fn delete_chain(chain: Seq<char>) -> Seq<Seq<char>> {
    seq!["-t"@, "nat"@, "-X"@, chain]
}

/// Send outgoing traffic through the chain.
pub open spec fn jump_to(chain: Seq<char>) -> Seq<Seq<char>> {
    seq!["-t"@, "nat"@, "-A"@, "OUTPUT"@, "-j"@, chain]
}

/// Take one such rule back.
pub open spec fn drop_jump(chain: Seq<char>) -> Seq<Seq<char>> {
    seq!["-t"@, "nat"@, "-D"@, "OUTPUT"@, "-j"@, chain]
}

/// Redirect all DNS queries to the port.
pub open spec fn redirect_dns(chain: Seq<char>, port: u16) -> Seq<Seq<char>> {
    seq![
        "-t"@,
        "nat"@,
        "-A"@,
        chain,
        "-p"@,
        "udp"@,
        "--dport"@,
        "53"@,
        "-j"@,
        "REDIRECT"@,
        "--to-ports"@,
        decimal::digits(port as nat),
    ]
}

/// Redirect the DNS queries to one name server to the port.
pub open spec fn redirect_dns_of(chain: Seq<char>, ns: Seq<char>, port: u16) -> Seq<Seq<char>> {
    seq![
        "-t"@,
        "nat"@,
        "-A"@,
        chain,
        "-p"@,
        "udp"@,
        "-d"@,
        ns,
        "--dport"@,
        "53"@,
        "-j"@,
        "REDIRECT"@,
        "--to-ports"@,
        decimal::digits(port as nat),
    ]
}

/// Redirect the TCP connections to a network to the port.
pub open spec fn redirect_tcp(chain: Seq<char>, subnet: Seq<char>, port: u16) -> Seq<Seq<char>> {
    seq![
        "-t"@,
        "nat"@,
        "-A"@,
        chain,
        "-p"@,
        "tcp"@,
        "-d"@,
        subnet,
        "-j"@,
        "REDIRECT"@,
        "--to-ports"@,
        decimal::digits(port as nat),
    ]
}

/// Let traffic to the host itself pass.
pub open spec fn pass_local(chain: Seq<char>) -> Seq<Seq<char>> {
    seq![
        "-t"@,
        "nat"@,
        "-A"@,
        chain,
        "-m"@,
        "addrtype"@,
        "--dst-type"@,
        "LOCAL"@,
        "-j"@,
        "RETURN"@,
    ]
}

/// Let traffic to the loopback address of IPv6 pass.
pub open spec fn pass_loopback(chain: Seq<char>) -> Seq<Seq<char>> {
    seq!["-t"@, "nat"@, "-A"@, chain, "-d"@, "::1/128"@, "-j"@, "RETURN"@]
}

// --- installing -------------------------------------------------------------

/// One step of installing rules.
#[derive(Debug)]
pub enum InstallStep {
    /// Make the chain, unless it is there from before.
    Create(Tool),
    /// Run this command.
    Run(RuleCmd),
}

/// What an `InstallStep` says.
#[verifier::ext_equal]
pub enum InstallStepView {
    Create(Tool),
    Run(RuleCmdView),
}

impl View for InstallStep {
    type V = InstallStepView;

    open spec fn view(&self) -> InstallStepView {
        match self {
            InstallStep::Create(t) => InstallStepView::Create(*t),
            InstallStep::Run(c) => InstallStepView::Run(c@),
        }
    }
}

/// What a list of steps says.
pub open spec fn step_views(v: Seq<InstallStep>) -> Seq<InstallStepView> {
    Seq::new(v.len(), |i: int| v[i]@)
}

/// Run a command, and show its messages.
pub open spec fn run(tool: Tool, args: Seq<Seq<char>>) -> InstallStepView {
    InstallStepView::Run(RuleCmdView { tool, args, quiet: false })
}

/// The rules for DNS: one for each name server, or one for all queries if none is
/// known.
pub open spec fn dns_steps(
    chain: Seq<char>,
    port: u16,
    nameservers: Seq<Seq<char>>,
) -> Seq<InstallStepView> {
    if nameservers.len() == 0 {
        seq![run(Tool::V4, redirect_dns(chain, port))]
    } else {
        Seq::new(
            nameservers.len(),
            |i: int| run(Tool::V4, redirect_dns_of(chain, nameservers[i], port)),
        )
    }
}

/// The rules for TCP: one for each network.
pub open spec fn tcp_steps(
    tool: Tool,
    chain: Seq<char>,
    port: u16,
    subnets: Seq<Seq<char>>,
) -> Seq<InstallStepView> {
    Seq::new(subnets.len(), |i: int| run(tool, redirect_tcp(chain, subnets[i], port)))
}

/// The steps for IPv4. The chain takes effect last, with all its rules in it.
pub open spec fn v4_steps(
    chain: Seq<char>,
    tcp_port: u16,
    dns_port: u16,
    subnets: Seq<Seq<char>>,
    dns: bool,
    nameservers: Seq<Seq<char>>,
) -> Seq<InstallStepView> {
    seq![InstallStepView::Create(Tool::V4), run(Tool::V4, flush_chain(chain))] + (if dns {
        dns_steps(chain, dns_port, nameservers)
    } else {
        seq![]
    }) + tcp_steps(Tool::V4, chain, tcp_port, subnets) + seq![
        run(Tool::V4, pass_local(chain)),
        run(Tool::V4, jump_to(chain)),
    ]
}

/// The steps for IPv6, none if there are no networks of IPv6.
pub open spec fn v6_steps(
    chain: Seq<char>,
    tcp_port: u16,
    subnets: Seq<Seq<char>>,
) -> Seq<InstallStepView> {
    if subnets.len() == 0 {
        seq![]
    } else {
        seq![
            InstallStepView::Create(Tool::V6),
            run(Tool::V6, flush_chain(chain)),
            run(Tool::V6, pass_loopback(chain)),
        ] + tcp_steps(Tool::V6, chain, tcp_port, subnets) + seq![run(Tool::V6, jump_to(chain))]
    }
}

fn port_text(port: u16) -> (r: String)
    ensures
        r@ == decimal::digits(port as nat),
{
    let mut s: String = String::new();
    push_decimal(&mut s, port as u64);
    assert(s@ =~= decimal::digits(port as nat));
    s
}

fn push_run(steps: &mut Vec<InstallStep>, tool: Tool, args: Vec<&str>)
    ensures
        step_views(final(steps)@) == step_views(old(steps)@).push(run(tool, strs(args@))),
{
    let cmd: RuleCmd = iptables_cmd(tool, args.as_slice());
    steps.push(InstallStep::Run(cmd));
    assert(step_views(steps@) =~= step_views(old(steps)@).push(run(tool, strs(args@))));
}

fn push_dns(steps: &mut Vec<InstallStep>, chain: &str, port: u16, nameservers: &[String])
    ensures
        step_views(final(steps)@) == step_views(old(steps)@) + dns_steps(
            chain@,
            port,
            text::texts(nameservers@),
        ),
{
    let p: String = port_text(port);
    let ghost start = step_views(steps@);
    let ghost all = dns_steps(chain@, port, text::texts(nameservers@));
    let n: usize = nameservers.len();
    if n == 0 {
        let args: Vec<&str> = vec![
            "-t",
            "nat",
            "-A",
            chain,
            "-p",
            "udp",
            "--dport",
            "53",
            "-j",
            "REDIRECT",
            "--to-ports",
            p.as_str(),
        ];
        assert(strs(args@) =~= redirect_dns(chain@, port));
        push_run(steps, Tool::V4, args);
        assert(step_views(steps@) =~= start + all);
        return ;
    }
    for i in 0..n
        invariant
            n == nameservers@.len(),
            n > 0,
            p@ == decimal::digits(port as nat),
            all == dns_steps(chain@, port, text::texts(nameservers@)),
            step_views(steps@) =~= start + all.take(i as int),
    {
        let ns: &str = nameservers[i].as_str();
        let args: Vec<&str> = vec![
            "-t",
            "nat",
            "-A",
            chain,
            "-p",
            "udp",
            "-d",
            ns,
            "--dport",
            "53",
            "-j",
            "REDIRECT",
            "--to-ports",
            p.as_str(),
        ];
        assert(strs(args@) =~= redirect_dns_of(chain@, ns@, port));
        push_run(steps, Tool::V4, args);
    }
    assert(all.take(n as int) =~= all);
}

fn push_tcp(steps: &mut Vec<InstallStep>, tool: Tool, chain: &str, port: u16, subnets: &[String])
    ensures
        step_views(final(steps)@) == step_views(old(steps)@) + tcp_steps(
            tool,
            chain@,
            port,
            text::texts(subnets@),
        ),
{
    let p: String = port_text(port);
    let ghost start = step_views(steps@);
    let ghost all = tcp_steps(tool, chain@, port, text::texts(subnets@));
    let n: usize = subnets.len();
    for i in 0..n
        invariant
            n == subnets@.len(),
            p@ == decimal::digits(port as nat),
            all == tcp_steps(tool, chain@, port, text::texts(subnets@)),
            step_views(steps@) =~= start + all.take(i as int),
    {
        let subnet: &str = subnets[i].as_str();
        let args: Vec<&str> = vec![
            "-t",
            "nat",
            "-A",
            chain,
            "-p",
            "tcp",
            "-d",
            subnet,
            "-j",
            "REDIRECT",
            "--to-ports",
            p.as_str(),
        ];
        assert(strs(args@) =~= redirect_tcp(chain@, subnet@, port));
        push_run(steps, tool, args);
    }
    assert(all.take(n as int) =~= all);
}

fn push_create(steps: &mut Vec<InstallStep>, tool: Tool, chain: &str)
    ensures
        step_views(final(steps)@) == step_views(old(steps)@) + seq![
            InstallStepView::Create(tool),
            run(tool, flush_chain(chain@)),
        ],
{
    let ghost start = step_views(steps@);
    steps.push(InstallStep::Create(tool));
    assert(step_views(steps@) =~= start.push(InstallStepView::Create(tool)));
    let args: Vec<&str> = vec!["-t", "nat", "-F", chain];
    assert(strs(args@) =~= flush_chain(chain@));
    push_run(steps, tool, args);
    assert(step_views(steps@) =~= start + seq![
        InstallStepView::Create(tool),
        run(tool, flush_chain(chain@)),
    ]);
}

/// The steps that install the rules of `chain`, in order: those for IPv4, and then
/// those for IPv6 if there are networks of IPv6. They redirect TCP connections to the
/// networks to `tcp_port` and, with `dns`, DNS queries to `nameservers` to `dns_port`.
pub fn install(
    chain: &str,
    tcp_port: u16,
    dns_port: u16,
    subnets_v4: &[String],
    subnets_v6: &[String],
    dns: bool,
    nameservers: &[String],
) -> (r: Vec<InstallStep>)
    ensures
        step_views(r@) == v4_steps(
            chain@,
            tcp_port,
            dns_port,
            text::texts(subnets_v4@),
            dns,
            text::texts(nameservers@),
        ) + v6_steps(chain@, tcp_port, text::texts(subnets_v6@)),
{
    let mut steps: Vec<InstallStep> = Vec::new();
    push_create(&mut steps, Tool::V4, chain);
    if dns {
        push_dns(&mut steps, chain, dns_port, nameservers);
    }
    push_tcp(&mut steps, Tool::V4, chain, tcp_port, subnets_v4);
    let local: Vec<&str> = vec![
        "-t",
        "nat",
        "-A",
        chain,
        "-m",
        "addrtype",
        "--dst-type",
        "LOCAL",
        "-j",
        "RETURN",
    ];
    assert(strs(local@) =~= pass_local(chain@));
    push_run(&mut steps, Tool::V4, local);
    let jump: Vec<&str> = vec!["-t", "nat", "-A", "OUTPUT", "-j", chain];
    assert(strs(jump@) =~= jump_to(chain@));
    push_run(&mut steps, Tool::V4, jump);
    let ghost first = v4_steps(
        chain@,
        tcp_port,
        dns_port,
        text::texts(subnets_v4@),
        dns,
        text::texts(nameservers@),
    );
    assert(step_views(steps@) =~= first);
    if subnets_v6.len() > 0 {
        push_create(&mut steps, Tool::V6, chain);
        let loopback: Vec<&str> = vec!["-t", "nat", "-A", chain, "-d", "::1/128", "-j", "RETURN"];
        assert(strs(loopback@) =~= pass_loopback(chain@));
        push_run(&mut steps, Tool::V6, loopback);
        push_tcp(&mut steps, Tool::V6, chain, tcp_port, subnets_v6);
        let jump6: Vec<&str> = vec!["-t", "nat", "-A", "OUTPUT", "-j", chain];
        assert(strs(jump6@) =~= jump_to(chain@));
        push_run(&mut steps, Tool::V6, jump6);
    }
    assert(step_views(steps@) =~= first + v6_steps(chain@, tcp_port, text::texts(subnets_v6@)));
    steps
}

/// How far the making of a chain has come.
#[derive(Clone, Copy, Debug, PartialEq, Eq, Structural)]
pub enum CreatePhase {
    /// It is being made.
    Make,
    /// That failed; whether it is there from before is being looked up.
    Look,
    /// It is not; it is being made again, to show why it cannot be made.
    MakeLoud,
}

/// The command that makes the chain, in each phase.
pub open spec fn create_cmd(tool: Tool, chain: Seq<char>, phase: CreatePhase) -> RuleCmdView {
    match phase {
        CreatePhase::Make => RuleCmdView { tool, args: new_chain(chain), quiet: true },
        CreatePhase::Look => RuleCmdView { tool, args: list_chain(chain), quiet: true },
        CreatePhase::MakeLoud => RuleCmdView { tool, args: new_chain(chain), quiet: false },
    }
}

/// The command that makes the chain, in each phase.
pub fn iptables_create_chain(tool: Tool, chain: &str, phase: CreatePhase) -> (r: RuleCmd)
    ensures
        r@ == create_cmd(tool, chain@, phase),
{
    let make: Vec<&str> = vec!["-t", "nat", "-N", chain];
    assert(strs(make@) =~= new_chain(chain@));
    match phase {
        CreatePhase::Make => iptables_cmd_quiet(tool, make.as_slice()),
        CreatePhase::Look => {
            let look: Vec<&str> = vec!["-t", "nat", "-L", chain, "-n"];
            assert(strs(look@) =~= list_chain(chain@));
            iptables_cmd_quiet(tool, look.as_slice())
        },
        CreatePhase::MakeLoud => iptables_cmd(tool, make.as_slice()),
    }
}

/// What to do to install rules.
#[derive(Debug)]
pub enum InstallAction {
    /// Run this command.
    Run(RuleCmd),
    /// The rules are installed, or cannot be, for this reason.
    Done(Result<(), String>),
}

/// What an `InstallAction` says.
#[verifier::ext_equal]
pub enum InstallActionView {
    Run(RuleCmdView),
    Done(Option<Seq<char>>),
}

/// The reason for which a command failed, `None` if it did not.
pub open spec fn failure(outcome: Result<(), String>) -> Option<Seq<char>> {
    match outcome {
        Ok(_) => None,
        Err(s) => Some(s@),
    }
}

impl View for InstallAction {
    type V = InstallActionView;

    open spec fn view(&self) -> InstallActionView {
        match self {
            InstallAction::Run(c) => InstallActionView::Run(c@),
            InstallAction::Done(r) => InstallActionView::Done(failure(*r)),
        }
    }
}

/// Rules that are being installed: the steps, which of them is under way and, if it is
/// the making of the chain, how far that has come.
#[derive(Debug)]
pub struct Installer {
    pub chain: String,
    pub steps: Vec<InstallStep>,
    pub at: usize,
    pub phase: CreatePhase,
}

/// What an `Installer` says.
#[verifier::ext_equal]
pub struct InstallerView {
    pub chain: Seq<char>,
    pub steps: Seq<InstallStepView>,
    pub at: nat,
    pub phase: CreatePhase,
}

impl View for Installer {
    type V = InstallerView;

    open spec fn view(&self) -> InstallerView {
        InstallerView {
            chain: self.chain@,
            steps: step_views(self.steps@),
            at: self.at as nat,
            phase: self.phase,
        }
    }
}

/// What to do for the step that is under way.
pub open spec fn install_action(v: InstallerView) -> InstallActionView {
    if v.at >= v.steps.len() {
        InstallActionView::Done(None)
    } else {
        match v.steps[v.at as int] {
            InstallStepView::Create(tool) => InstallActionView::Run(
                create_cmd(tool, v.chain, v.phase),
            ),
            InstallStepView::Run(cmd) => InstallActionView::Run(cmd),
        }
    }
}

/// The next step is under way.
pub open spec fn step_done(v: InstallerView) -> InstallerView {
    InstallerView { at: v.at + 1, phase: CreatePhase::Make, ..v }
}

/// What to do after a command that failed for the reason `why`, or did not fail. The
/// first command that fails ends it all, except while the chain is made: that it is
/// there from before is no failure.
pub open spec fn install_step(v: InstallerView, why: Option<Seq<char>>) -> (
    InstallerView,
    InstallActionView,
) {
    match why {
        None => (step_done(v), install_action(step_done(v))),
        Some(text) => {
            let next = match (v.steps[v.at as int], v.phase) {
                (InstallStepView::Create(_), CreatePhase::Make) => Some(CreatePhase::Look),
                (InstallStepView::Create(_), CreatePhase::Look) => Some(CreatePhase::MakeLoud),
                _ => None,
            };
            match next {
                Some(phase) => (
                    InstallerView { phase, ..v },
                    install_action(InstallerView { phase, ..v }),
                ),
                None => (v, InstallActionView::Done(Some(text))),
            }
        },
    }
}

fn copy_cmd(c: &RuleCmd) -> (r: RuleCmd)
    ensures
        r@ == c@,
{
    RuleCmd { tool: c.tool, args: copied(&c.args), quiet: c.quiet }
}

impl Installer {
    /// Starts to install the rules of a chain: gives what is to be done first.
    pub fn new(chain: String, steps: Vec<InstallStep>) -> (r: (Installer, InstallAction))
        ensures
            r.0@ == (InstallerView {
                chain: chain@,
                steps: step_views(steps@),
                at: 0,
                phase: CreatePhase::Make,
            }),
            r.1@ == install_action(r.0@),
    {
        let i: Installer = Installer { chain, steps, at: 0, phase: CreatePhase::Make };
        let a: InstallAction = i.action();
        (i, a)
    }

    fn action(&self) -> (r: InstallAction)
        ensures
            r@ == install_action(self@),
    {
        if self.at >= self.steps.len() {
            return InstallAction::Done(Ok(()));
        }
        match &self.steps[self.at] {
            InstallStep::Create(tool) => InstallAction::Run(
                iptables_create_chain(*tool, self.chain.as_str(), self.phase),
            ),
            InstallStep::Run(cmd) => InstallAction::Run(copy_cmd(cmd)),
        }
    }

    /// What to do next, after a command that went well, or failed with this message.
    pub fn next(&mut self, outcome: Result<(), String>) -> (r: InstallAction)
        requires
            old(self).at < old(self).steps@.len(),
        ensures
            (final(self)@, r@) == install_step(old(self)@, failure(outcome)),
    {
        let n: usize = self.steps.len();
        let ghost before = self@;
        assert(self.at < n);
        match outcome {
            Ok(_) => {
                self.at = self.at + 1;
                self.phase = CreatePhase::Make;
                assert(self@ =~= step_done(before));
                self.action()
            },
            Err(text) => {
                assert(before.steps[before.at as int] == self.steps@[self.at as int]@);
                let create: bool = match &self.steps[self.at] {
                    InstallStep::Create(_) => true,
                    InstallStep::Run(_) => false,
                };
                if create && self.phase == CreatePhase::Make {
                    self.phase = CreatePhase::Look;
                    assert(self@ =~= (InstallerView { phase: CreatePhase::Look, ..before }));
                    self.action()
                } else if create && self.phase == CreatePhase::Look {
                    self.phase = CreatePhase::MakeLoud;
                    assert(self@ =~= (InstallerView { phase: CreatePhase::MakeLoud, ..before }));
                    self.action()
                } else {
                    InstallAction::Done(Err(text))
                }
            },
        }
    }
}

/// A command that fails ends the installation, with the reason for which it failed,
/// unless the chain is being made.
pub proof fn failed_command_ends_the_install(v: InstallerView, why: Seq<char>)
    requires
        v.at < v.steps.len(),
        v.steps[v.at as int] is Run,
    ensures
        install_step(v, Some(why)) == (v, InstallActionView::Done(Some(why))),
{
}

// --- original destinations --------------------------------------------------

/// The original destination of a connection, as the kernel gives it: the bytes of the
/// address, or its groups, and the bytes of the port, the higher one first. It comes as
/// the text under which the server is told of it.
pub fn original_dst(addr: &IpAddr, port: [u8; 2]) -> (r: (String, u16))
    ensures
        r.0@ == ip_text::ip_text(addr@),
        r.1 == frame::be_number(port@[0], port@[1]),
{
    (write_ip(addr), from_be(port[0], port[1]))
}

// --- laws of the commands ---------------------------------------------------

/// A command is run by the tool of its family, directly as root and through `sudo` otherwise,
/// with a prompt that says whose password is asked for.
pub proof fn command_is_run_by_its_tool(cmd: RuleCmdView, as_root: bool)
    ensures
        ({
            let name = if cmd.tool == Tool::V4 {
                "iptables"@
            } else {
                "ip6tables"@
            };
            command_words(cmd, as_root) == (if as_root {
                seq![]
            } else {
                seq!["sudo"@, "-p"@, "[local sudo] Password: "@]
            }) + seq![name, "-w"@, "5"@] + cmd.args
        }),
{
    let name = tool_name(cmd.tool);
    if as_root {
        assert(command_words(cmd, as_root) =~= Seq::<Seq<char>>::empty() + seq![name, "-w"@, "5"@]
            + cmd.args);
    } else {
        assert(command_words(cmd, as_root) =~= seq!["sudo"@, "-p"@, "[local sudo] Password: "@]
            + seq![name, "-w"@, "5"@] + cmd.args);
    }
}

/// The installation stands before the step `at`, with nothing tried yet.
pub open spec fn before_step(v: InstallerView, at: nat) -> bool {
    v.at == at && v.phase == CreatePhase::Make
}

/// The making of a chain: it is tried without messages; if that fails the chain is looked up,
/// without messages; and if it is not there it is tried again, with messages. Each success leads
/// to the next step, and only the last failure ends the installation, with its reason.
pub proof fn chain_is_made_or_found(
    v: InstallerView,
    tool: Tool,
    first: Seq<char>,
    second: Seq<char>,
    third: Seq<char>,
)
    requires
        v.at < v.steps.len(),
        v.steps[v.at as int] == InstallStepView::Create(tool),
        v.phase == CreatePhase::Make,
    ensures
        ({
            let make = seq!["-t"@, "nat"@, "-N"@, v.chain];
            let look = seq!["-t"@, "nat"@, "-L"@, v.chain, "-n"@];
            let run = |args: Seq<Seq<char>>, quiet: bool|
                InstallActionView::Run(RuleCmdView { tool, args, quiet });
            let a = install_step(v, Some(first));
            let b = install_step(a.0, Some(second));
            let c = install_step(b.0, Some(third));
            &&& install_action(v) == run(make, true)
            &&& a.1 == run(look, true)
            &&& b.1 == run(make, false)
            &&& c.1 == InstallActionView::Done(Some(third))
            &&& before_step(install_step(v, None).0, v.at + 1)
            &&& before_step(install_step(a.0, None).0, v.at + 1)
            &&& before_step(install_step(b.0, None).0, v.at + 1)
        }),
{
}

/// Each other step runs its command as it is, and its success leads to the next step; after the
/// last one the installation has gone well. No step changes the chain or the steps.
pub proof fn steps_are_run_in_order(v: InstallerView, cmd: RuleCmdView, why: Option<Seq<char>>)
    requires
        v.at < v.steps.len(),
    ensures
        v.steps[v.at as int] == InstallStepView::Run(cmd) ==> install_action(v)
            == InstallActionView::Run(cmd),
        v.steps[v.at as int] == InstallStepView::Run(cmd) ==> before_step(
            install_step(v, None).0,
            v.at + 1,
        ),
        v.at + 1 == v.steps.len() ==> install_step(v, None).1 == InstallActionView::Done(None),
        v.at + 1 < v.steps.len() ==> install_step(v, None).1 == install_action(
            install_step(v, None).0,
        ),
        install_step(v, why).0.chain == v.chain,
        install_step(v, why).0.steps == v.steps,
{
}

/// The original destination has the text that reads as the address, and a port of which the
/// first byte counts 256 times.
pub proof fn original_destination_is_named(a: IpView, hi: u8, lo: u8)
    requires
        ip_text::is_address(a),
    ensures
        ip::ip(ip_text::ip_text(a)) == Some(a),
        frame::be_number(hi, lo) == 256 * hi + lo,
{
    ip_text::ip_text_reads_back(a);
    frame::higher_byte_comes_first(0, hi, lo);
}

} // verus!
