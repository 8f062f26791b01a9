//! The life of a client: what it sets up, in which order, and how it takes down
//! what it set up.

use vstd::prelude::*;

use crate::client;
use crate::client::{split_subnets_by_family, ClientArgs, REDIRECT_PORT_DNS, REDIRECT_PORT_TCP};
use crate::decimal;
use crate::decimal::push_decimal;
use crate::text;
use crate::text::copied;

verus! {

// --- the plan ---------------------------------------------------------------

/// What a client listens on and redirects.
#[derive(Debug)]
pub struct ClientPlan {
    /// The chain that holds the rules.
    pub chain: String,
    /// The port of the TCP listeners.
    pub port: u16,
    /// The port of the DNS listener.
    pub dns_port: u16,
    pub subnets_v4: Vec<String>,
    pub subnets_v6: Vec<String>,
    pub dns: bool,
    pub manage: bool,
}

/// What a `ClientPlan` says.
#[verifier::ext_equal]
pub struct PlanView {
    pub chain: Seq<char>,
    pub port: u16,
    pub dns_port: u16,
    pub subnets_v4: Seq<Seq<char>>,
    pub subnets_v6: Seq<Seq<char>>,
    pub dns: bool,
    pub manage: bool,
}

impl View for ClientPlan {
    type V = PlanView;

    open spec fn view(&self) -> PlanView {
        PlanView {
            chain: self.chain@,
            port: self.port,
            dns_port: self.dns_port,
            subnets_v4: text::texts(self.subnets_v4@),
            subnets_v6: text::texts(self.subnets_v6@),
            dns: self.dns,
            manage: self.manage,
        }
    }
}

/// The port that is asked for, or the usual one.
pub open spec fn port_or(asked: u16, usual: u16) -> u16 {
    if asked == 0 {
        usual
    } else {
        asked
    }
}

/// What the arguments of a client ask for, in the process `pid`.
pub open spec fn plan_of(args: ClientArgs, pid: u32) -> PlanView {
    PlanView {
        chain: chain_of(pid),
        port: port_or(args.listen_port, REDIRECT_PORT_TCP),
        dns_port: port_or(args.dns_listen_port, REDIRECT_PORT_DNS),
        subnets_v4: client::of_family(text::texts(args.subnets@), false),
        subnets_v6: client::of_family(text::texts(args.subnets@), true),
        dns: args.dns,
        manage: args.manage_iptables,
    }
}

/// What the arguments of a client ask for, in the process `pid`.
pub fn plan(args: &ClientArgs, pid: u32) -> (r: ClientPlan)
    ensures
        r@ == plan_of(*args, pid),
{
    let (subnets_v4, subnets_v6) = split_subnets_by_family(args.subnets.as_slice());
    ClientPlan {
        chain: chain_name(pid),
        port: if args.listen_port == 0 {
            REDIRECT_PORT_TCP
        } else {
            args.listen_port
        },
        dns_port: if args.dns_listen_port == 0 {
            REDIRECT_PORT_DNS
        } else {
            args.dns_listen_port
        },
        subnets_v4,
        subnets_v6,
        dns: args.dns,
        manage: args.manage_iptables,
    }
}

/// The name of the chain of rules that a process installs.
pub open spec fn chain_of(pid: u32) -> Seq<char> {
    "RUSHTLE_"@ + decimal::digits(pid as nat)
}

/// The name of the chain of rules that a process installs.
pub fn chain_name(pid: u32) -> (r: String)
    ensures
        r@ == chain_of(pid),
{
    let mut s: String = String::new();
    s.append("RUSHTLE_");
    push_decimal(&mut s, pid as u64);
    assert(s@ =~= chain_of(pid));
    s
}

/// Rules to be installed.
#[derive(Debug)]
pub struct RuleOrder {
    pub chain: String,
    pub tcp_port: u16,
    pub dns_port: u16,
    pub subnets_v4: Vec<String>,
    pub subnets_v6: Vec<String>,
    pub dns: bool,
}

/// What a `RuleOrder` says.
#[verifier::ext_equal]
pub struct OrderView {
    pub chain: Seq<char>,
    pub tcp_port: u16,
    pub dns_port: u16,
    pub subnets_v4: Seq<Seq<char>>,
    pub subnets_v6: Seq<Seq<char>>,
    pub dns: bool,
}

impl View for RuleOrder {
    type V = OrderView;

    open spec fn view(&self) -> OrderView {
        OrderView {
            chain: self.chain@,
            tcp_port: self.tcp_port,
            dns_port: self.dns_port,
            subnets_v4: text::texts(self.subnets_v4@),
            subnets_v6: text::texts(self.subnets_v6@),
            dns: self.dns,
        }
    }
}

/// The rules that a plan asks for.
pub open spec fn order_of(plan: PlanView) -> OrderView {
    OrderView {
        chain: plan.chain,
        tcp_port: plan.port,
        dns_port: plan.dns_port,
        subnets_v4: plan.subnets_v4,
        subnets_v6: plan.subnets_v6,
        dns: plan.dns,
    }
}

impl ClientPlan {
    /// The rules that the plan asks for.
    pub fn order(&self) -> (r: RuleOrder)
        ensures
            r@ == order_of(self@),
    {
        RuleOrder {
            chain: self.chain.clone(),
            tcp_port: self.port,
            dns_port: self.dns_port,
            subnets_v4: copied(&self.subnets_v4),
            subnets_v6: copied(&self.subnets_v6),
            dns: self.dns,
        }
    }
}

// --- errors -----------------------------------------------------------------

/// Why a client gave up.
#[derive(Debug)]
pub enum RunError {
    /// The IPv4 listener could not be bound to this port.
    BindTcp { port: u16, cause: String },
    /// The IPv6 listener could not be bound to this port.
    BindTcp6 { port: u16, cause: String },
    /// The DNS listener could not be bound to this port.
    BindDns { port: u16, cause: String },
    /// The link to the server could not be set up.
    Link(String),
    /// The rules could not be installed.
    Install(String),
}

/// What a `RunError` says.
#[verifier::ext_equal]
pub enum RunErrorView {
    BindTcp { port: u16, cause: Seq<char> },
    BindTcp6 { port: u16, cause: Seq<char> },
    BindDns { port: u16, cause: Seq<char> },
    Link(Seq<char>),
    Install(Seq<char>),
}

impl View for RunError {
    type V = RunErrorView;

    open spec fn view(&self) -> RunErrorView {
        match self {
            RunError::BindTcp { port, cause } => RunErrorView::BindTcp {
                port: *port,
                cause: cause@,
            },
            RunError::BindTcp6 { port, cause } => RunErrorView::BindTcp6 {
                port: *port,
                cause: cause@,
            },
            RunError::BindDns { port, cause } => RunErrorView::BindDns {
                port: *port,
                cause: cause@,
            },
            RunError::Link(s) => RunErrorView::Link(s@),
            RunError::Install(s) => RunErrorView::Install(s@),
        }
    }
}

/// The message of an error.
pub open spec fn run_error_text(e: RunErrorView) -> Seq<char> {
    match e {
        RunErrorView::BindTcp { port, cause } => "bind 127.0.0.1:"@ + decimal::digits(port as nat)
            + ": "@ + cause,
        RunErrorView::BindTcp6 { port, cause } => "bind [::1]:"@ + decimal::digits(port as nat)
            + ": "@ + cause,
        RunErrorView::BindDns { port, cause } => "bind UDP 127.0.0.1:"@ + decimal::digits(
            port as nat,
        ) + ": "@ + cause,
        RunErrorView::Link(s) => s,
        RunErrorView::Install(s) => s,
    }
}

impl RunError {
    /// The message of the error.
    pub fn text(&self) -> (r: String)
        ensures
            r@ == run_error_text(self@),
    {
        let mut s: String = String::new();
        match self {
            RunError::BindTcp { port, cause } => {
                s.append("bind 127.0.0.1:");
                push_decimal(&mut s, *port as u64);
                s.append(": ");
                s.append(cause.as_str());
            },
            RunError::BindTcp6 { port, cause } => {
                s.append("bind [::1]:");
                push_decimal(&mut s, *port as u64);
                s.append(": ");
                s.append(cause.as_str());
            },
            RunError::BindDns { port, cause } => {
                s.append("bind UDP 127.0.0.1:");
                push_decimal(&mut s, *port as u64);
                s.append(": ");
                s.append(cause.as_str());
            },
            RunError::Link(t) => {
                s.append(t.as_str());
            },
            RunError::Install(t) => {
                s.append(t.as_str());
            },
        }
        assert(s@ =~= run_error_text(self@));
        s
    }
}

// --- the machine ------------------------------------------------------------

/// How far a client has come.
#[derive(Debug)]
pub enum RunState {
    /// The IPv4 listener is being bound.
    BindTcp,
    /// The IPv6 listener is being bound.
    BindTcp6,
    /// The DNS listener is being bound.
    BindDns,
    /// The link to the server is being set up.
    Link,
    /// The rules are being installed.
    Install,
    /// What there is of the rules is being removed, because they could not be
    /// installed, for this reason.
    Undo(String),
    /// Connections are served.
    Serve,
    /// The rules are being removed.
    CleanUp,
    /// It is over.
    Over,
}

/// What a `RunState` says.
#[verifier::ext_equal]
pub enum RunStateView {
    BindTcp,
    BindTcp6,
    BindDns,
    Link,
    Install,
    Undo(Seq<char>),
    Serve,
    CleanUp,
    Over,
}

impl View for RunState {
    type V = RunStateView;

    open spec fn view(&self) -> RunStateView {
        match self {
            RunState::BindTcp => RunStateView::BindTcp,
            RunState::BindTcp6 => RunStateView::BindTcp6,
            RunState::BindDns => RunStateView::BindDns,
            RunState::Link => RunStateView::Link,
            RunState::Install => RunStateView::Install,
            RunState::Undo(s) => RunStateView::Undo(s@),
            RunState::Serve => RunStateView::Serve,
            RunState::CleanUp => RunStateView::CleanUp,
            RunState::Over => RunStateView::Over,
        }
    }
}

/// What came of an action.
#[derive(Debug)]
pub enum RunEvent {
    /// It is done. Of serving: a signal asked for the end.
    Done,
    /// It failed, with this message.
    Failed(String),
}

/// What a `RunEvent` says.
#[verifier::ext_equal]
pub enum RunEventView {
    Done,
    Failed(Seq<char>),
}

impl View for RunEvent {
    type V = RunEventView;

    open spec fn view(&self) -> RunEventView {
        match self {
            RunEvent::Done => RunEventView::Done,
            RunEvent::Failed(s) => RunEventView::Failed(s@),
        }
    }
}

/// What a client is to do.
#[derive(Debug)]
pub enum RunAction {
    /// Listen for TCP on the loopback address of IPv4, on this port.
    BindTcp { port: u16 },
    /// Listen for TCP on the loopback address of IPv6, on this port.
    BindTcp6 { port: u16 },
    /// Listen for DNS queries on the loopback address of IPv4, on this port.
    BindDns { port: u16 },
    /// Start the server and set up the link to it.
    SetUpLink,
    /// Install these rules.
    Install(RuleOrder),
    /// Remove the rules of this chain, those for IPv6 too if there are any.
    Remove { chain: String, has_v6: bool },
    /// Serve connections until a signal asks for the end.
    Serve,
    /// Stop, with this outcome.
    Stop(Result<(), RunError>),
}

/// What a `RunAction` says.
#[verifier::ext_equal]
pub enum RunActionView {
    BindTcp { port: u16 },
    BindTcp6 { port: u16 },
    BindDns { port: u16 },
    SetUpLink,
    Install(OrderView),
    Remove { chain: Seq<char>, has_v6: bool },
    Serve,
    Stop(Option<RunErrorView>),
}

impl View for RunAction {
    type V = RunActionView;

    open spec fn view(&self) -> RunActionView {
        match self {
            RunAction::BindTcp { port } => RunActionView::BindTcp { port: *port },
            RunAction::BindTcp6 { port } => RunActionView::BindTcp6 { port: *port },
            RunAction::BindDns { port } => RunActionView::BindDns { port: *port },
            RunAction::SetUpLink => RunActionView::SetUpLink,
            RunAction::Install(o) => RunActionView::Install(o@),
            RunAction::Remove { chain, has_v6 } => RunActionView::Remove {
                chain: chain@,
                has_v6: *has_v6,
            },
            RunAction::Serve => RunActionView::Serve,
            RunAction::Stop(Ok(_)) => RunActionView::Stop(None),
            RunAction::Stop(Err(e)) => RunActionView::Stop(Some(e@)),
        }
    }
}

/// A state, and the action that goes with it.
pub type RunStep = (RunStateView, RunActionView);

/// Stop with an error.
pub open spec fn give_up(e: RunErrorView) -> RunStep {
    (RunStateView::Over, RunActionView::Stop(Some(e)))
}

/// What comes first.
pub open spec fn run_start(plan: PlanView) -> RunStep {
    (RunStateView::BindTcp, RunActionView::BindTcp { port: plan.port })
}

/// What comes once the IPv4 listener is bound: one for IPv6 if there are networks
/// of IPv6.
pub open spec fn after_tcp(plan: PlanView) -> RunStep {
    if plan.subnets_v6.len() > 0 {
        (RunStateView::BindTcp6, RunActionView::BindTcp6 { port: plan.port })
    } else {
        after_tcp6(plan)
    }
}

/// What comes once the TCP listeners are bound.
pub open spec fn after_tcp6(plan: PlanView) -> RunStep {
    if plan.dns {
        (RunStateView::BindDns, RunActionView::BindDns { port: plan.dns_port })
    } else {
        (RunStateView::Link, RunActionView::SetUpLink)
    }
}

/// Remove what the plan asks to install.
pub open spec fn removal(plan: PlanView) -> RunActionView {
    RunActionView::Remove { chain: plan.chain, has_v6: plan.subnets_v6.len() > 0 }
}

/// What comes once the link is up.
pub open spec fn after_link(plan: PlanView) -> RunStep {
    if plan.manage {
        (RunStateView::Install, RunActionView::Install(order_of(plan)))
    } else {
        (RunStateView::Serve, RunActionView::Serve)
    }
}

/// What comes once serving has ended.
pub open spec fn after_serving(plan: PlanView) -> RunStep {
    if plan.manage {
        (RunStateView::CleanUp, removal(plan))
    } else {
        (RunStateView::Over, RunActionView::Stop(None))
    }
}

/// The next step of a client.
pub open spec fn run_step(plan: PlanView, state: RunStateView, event: RunEventView) -> RunStep {
    match state {
        RunStateView::BindTcp => match event {
            RunEventView::Done => after_tcp(plan),
            RunEventView::Failed(cause) => give_up(
                RunErrorView::BindTcp { port: plan.port, cause },
            ),
        },
        RunStateView::BindTcp6 => match event {
            RunEventView::Done => after_tcp6(plan),
            RunEventView::Failed(cause) => give_up(
                RunErrorView::BindTcp6 { port: plan.port, cause },
            ),
        },
        RunStateView::BindDns => match event {
            RunEventView::Done => (RunStateView::Link, RunActionView::SetUpLink),
            RunEventView::Failed(cause) => give_up(
                RunErrorView::BindDns { port: plan.dns_port, cause },
            ),
        },
        RunStateView::Link => match event {
            RunEventView::Done => after_link(plan),
            RunEventView::Failed(cause) => give_up(RunErrorView::Link(cause)),
        },
        RunStateView::Install => match event {
            RunEventView::Done => (RunStateView::Serve, RunActionView::Serve),
            RunEventView::Failed(cause) => (RunStateView::Undo(cause), removal(plan)),
        },
        RunStateView::Undo(cause) => give_up(RunErrorView::Install(cause)),
        RunStateView::Serve => after_serving(plan),
        RunStateView::CleanUp | RunStateView::Over => (
            RunStateView::Over,
            RunActionView::Stop(None),
        ),
    }
}

/// A client that is running.
#[derive(Debug)]
pub struct ClientRun {
    pub plan: ClientPlan,
    pub state: RunState,
}

impl ClientRun {
    /// Starts a client: gives it, and its first action.
    pub fn new(plan: ClientPlan) -> (r: (ClientRun, RunAction))
        ensures
            r.0.plan == plan,
            (r.0.state@, r.1@) == run_start(plan@),
    {
        let port: u16 = plan.port;
        (ClientRun { plan, state: RunState::BindTcp }, RunAction::BindTcp { port })
    }

    fn go(&mut self, state: RunState, action: RunAction) -> (r: RunAction)
        ensures
            final(self).plan == old(self).plan,
            final(self).state == state,
            r == action,
    {
        self.state = state;
        action
    }

    fn removal(&self) -> (r: RunAction)
        ensures
            r@ == removal(self.plan@),
    {
        RunAction::Remove {
            chain: self.plan.chain.clone(),
            has_v6: self.plan.subnets_v6.len() > 0,
        }
    }

    fn fail(&mut self, e: RunError) -> (r: RunAction)
        ensures
            final(self).plan == old(self).plan,
            (final(self).state@, r@) == give_up(e@),
    {
        self.go(RunState::Over, RunAction::Stop(Err(e)))
    }

    fn leave_tcp6(&mut self) -> (r: RunAction)
        ensures
            final(self).plan == old(self).plan,
            (final(self).state@, r@) == after_tcp6(old(self).plan@),
    {
        if self.plan.dns {
            let port: u16 = self.plan.dns_port;
            self.go(RunState::BindDns, RunAction::BindDns { port })
        } else {
            self.go(RunState::Link, RunAction::SetUpLink)
        }
    }

    /// The next action, after what came of the last one.
    pub fn next(&mut self, event: RunEvent) -> (r: RunAction)
        ensures
            final(self).plan == old(self).plan,
            (final(self).state@, r@) == run_step(old(self).plan@, old(self).state@, event@),
    {
        let mut state: RunState = RunState::Over;
        std::mem::swap(&mut state, &mut self.state);
        match state {
            RunState::BindTcp => match event {
                RunEvent::Done => {
                    if self.plan.subnets_v6.len() > 0 {
                        let port: u16 = self.plan.port;
                        self.go(RunState::BindTcp6, RunAction::BindTcp6 { port })
                    } else {
                        self.leave_tcp6()
                    }
                },
                RunEvent::Failed(cause) => {
                    let port: u16 = self.plan.port;
                    self.fail(RunError::BindTcp { port, cause })
                },
            },
            RunState::BindTcp6 => match event {
                RunEvent::Done => self.leave_tcp6(),
                RunEvent::Failed(cause) => {
                    let port: u16 = self.plan.port;
                    self.fail(RunError::BindTcp6 { port, cause })
                },
            },
            RunState::BindDns => match event {
                RunEvent::Done => self.go(RunState::Link, RunAction::SetUpLink),
                RunEvent::Failed(cause) => {
                    let port: u16 = self.plan.dns_port;
                    self.fail(RunError::BindDns { port, cause })
                },
            },
            RunState::Link => match event {
                RunEvent::Done => {
                    if self.plan.manage {
                        let order: RuleOrder = self.plan.order();
                        self.go(RunState::Install, RunAction::Install(order))
                    } else {
                        self.go(RunState::Serve, RunAction::Serve)
                    }
                },
                RunEvent::Failed(cause) => self.fail(RunError::Link(cause)),
            },
            RunState::Install => match event {
                RunEvent::Done => self.go(RunState::Serve, RunAction::Serve),
                RunEvent::Failed(cause) => {
                    let action: RunAction = self.removal();
                    self.go(RunState::Undo(cause), action)
                },
            },
            RunState::Undo(cause) => self.fail(RunError::Install(cause)),
            RunState::Serve => {
                if self.plan.manage {
                    let action: RunAction = self.removal();
                    self.go(RunState::CleanUp, action)
                } else {
                    self.go(RunState::Over, RunAction::Stop(Ok(())))
                }
            },
            RunState::CleanUp => self.go(RunState::Over, RunAction::Stop(Ok(()))),
            RunState::Over => self.go(RunState::Over, RunAction::Stop(Ok(()))),
        }
    }
}

// --- laws -------------------------------------------------------------------

/// Where a client is after these events, and its action there.
pub open spec fn run_after(plan: PlanView, events: Seq<RunEventView>) -> RunStep
    decreases events.len(),
{
    if events.len() == 0 {
        run_start(plan)
    } else {
        run_step(plan, run_after(plan, events.drop_last()).0, events.last())
    }
}

/// The most events that a client sees from a state on until it is over.
pub open spec fn steps_left(state: RunStateView) -> nat {
    match state {
        RunStateView::BindTcp => 7,
        RunStateView::BindTcp6 => 6,
        RunStateView::BindDns => 5,
        RunStateView::Link => 4,
        RunStateView::Install => 3,
        RunStateView::Serve => 2,
        RunStateView::Undo(_) | RunStateView::CleanUp => 1,
        RunStateView::Over => 0,
    }
}

proof fn lemma_steps_left(plan: PlanView, events: Seq<RunEventView>)
    ensures
        steps_left(run_after(plan, events).0) == 0 || steps_left(run_after(plan, events).0)
            + events.len() <= 7,
    decreases events.len(),
{
    if events.len() > 0 {
        lemma_steps_left(plan, events.drop_last());
    }
}

/// A client comes to its end: whatever happens, it is over after seven events.
pub proof fn client_ends(plan: PlanView, events: Seq<RunEventView>)
    requires
        events.len() >= 7,
    ensures
        run_after(plan, events).0 == RunStateView::Over,
{
    lemma_steps_left(plan, events);
}

/// The rules are touched only if that was asked for.
pub proof fn rules_are_left_alone_unless_asked(plan: PlanView, events: Seq<RunEventView>)
    requires
        !plan.manage,
    ensures
        !(run_after(plan, events).1 is Install),
        !(run_after(plan, events).1 is Remove),
    decreases events.len(),
{
    if events.len() > 0 {
        rules_are_left_alone_unless_asked(plan, events.drop_last());
        lemma_state_is_reached(plan, events.drop_last());
    }
}

/// Everything went well so far.
pub open spec fn all_done(events: Seq<RunEventView>) -> bool {
    forall|i: int| 0 <= i < events.len() ==> #[trigger] events[i] == RunEventView::Done
}

/// What is true of a client in each of its states.
pub open spec fn reached(plan: PlanView, events: Seq<RunEventView>) -> bool {
    match run_after(plan, events).0 {
        RunStateView::BindTcp => events.len() == 0,
        RunStateView::BindTcp6 => plan.subnets_v6.len() > 0 && all_done(events),
        RunStateView::BindDns => plan.dns && all_done(events),
        RunStateView::Link => all_done(events),
        RunStateView::Install => plan.manage && all_done(events),
        RunStateView::Undo(_) => plan.manage,
        RunStateView::Serve => all_done(events),
        RunStateView::CleanUp => plan.manage,
        RunStateView::Over => true,
    }
}

proof fn lemma_state_is_reached(plan: PlanView, events: Seq<RunEventView>)
    ensures
        reached(plan, events),
    decreases events.len(),
{
    if events.len() > 0 {
        let before = events.drop_last();
        lemma_state_is_reached(plan, before);
        if all_done(before) && events.last() == RunEventView::Done {
            assert forall|i: int| 0 <= i < events.len() implies #[trigger] events[i]
                == RunEventView::Done by {
                if i < before.len() {
                    assert(before[i] == RunEventView::Done);
                }
            }
        }
    }
}

/// No rule redirects traffic before all listeners are bound and the link is up.
pub proof fn rules_come_after_the_link(plan: PlanView, events: Seq<RunEventView>)
    requires
        run_after(plan, events).1 is Install,
    ensures
        run_after(plan, events).1 == RunActionView::Install(order_of(plan)),
        all_done(events),
        run_after(plan, events.drop_last()).1 == RunActionView::SetUpLink,
        events.len() == 2 + (if plan.subnets_v6.len() > 0 {
            1int
        } else {
            0
        }) + (if plan.dns {
            1int
        } else {
            0
        }),
{
    lemma_state_is_reached(plan, events);
    let e1 = events.drop_last();
    lemma_state_is_reached(plan, e1);
    if e1.len() > 0 {
        let e2 = e1.drop_last();
        lemma_state_is_reached(plan, e2);
        if e2.len() > 0 {
            let e3 = e2.drop_last();
            lemma_state_is_reached(plan, e3);
            if e3.len() > 0 {
                lemma_state_is_reached(plan, e3.drop_last());
            }
        }
    }
}

/// Whatever comes after the rules were to be installed, they are removed before the
/// client is over: those of the same chain, and those for IPv6 if there are any.
pub proof fn rules_are_removed(plan: PlanView, events: Seq<RunEventView>, i: int)
    requires
        0 <= i < events.len(),
        run_after(plan, events.take(i)).1 is Install,
        run_after(plan, events).0 == RunStateView::Over,
    ensures
        run_after(plan, events.take(i)).1 == RunActionView::Install(order_of(plan)),
        exists|j: int|
            i < j < events.len() && #[trigger] run_after(plan, events.take(j)).1
                == (RunActionView::Remove {
                chain: order_of(plan).chain,
                has_v6: order_of(plan).subnets_v6.len() > 0,
            }),
{
    let e = events.take(i);
    let e1 = events.take(i + 1);
    assert(e1.drop_last() =~= e);
    lemma_state_is_reached(plan, e);
    if i + 1 == events.len() {
        assert(e1 =~= events);
    } else {
        let e2 = events.take(i + 2);
        assert(e2.drop_last() =~= e1);
        if events[i] is Failed {
            assert(run_after(plan, events.take(i + 1)).1 == removal(plan));
        } else {
            if i + 2 == events.len() {
                assert(e2 =~= events);
            } else {
                assert(run_after(plan, events.take(i + 2)).1 == removal(plan));
            }
        }
    }
}

/// A client whose rules could not be installed removes them, and then fails with the
/// reason for which they could not be installed.
pub proof fn failed_install_is_undone(
    plan: PlanView,
    events: Seq<RunEventView>,
    cause: Seq<char>,
    removed: RunEventView,
)
    requires
        run_after(plan, events).1 is Install,
    ensures
        run_after(plan, events.push(RunEventView::Failed(cause))).1 == removal(plan),
        run_after(plan, events.push(RunEventView::Failed(cause)).push(removed)).1
            == RunActionView::Stop(Some(RunErrorView::Install(cause))),
{
    lemma_state_is_reached(plan, events);
    let e1 = events.push(RunEventView::Failed(cause));
    assert(e1.drop_last() =~= events);
    assert(e1.push(removed).drop_last() =~= e1);
}

// --- what comes next --------------------------------------------------------

/// The action of a client after these events.
pub open spec fn action_after(plan: PlanView, events: Seq<RunEventView>) -> RunActionView {
    run_after(plan, events).1
}

/// The action of a client after these events and one more.
pub open spec fn next_action(
    plan: PlanView,
    events: Seq<RunEventView>,
    event: RunEventView,
) -> RunActionView {
    run_after(plan, events.push(event)).1
}

proof fn lemma_state_shows(plan: PlanView, events: Seq<RunEventView>)
    ensures
        ({
            let (state, action) = run_after(plan, events);
            match state {
                RunStateView::BindTcp => action == RunActionView::BindTcp { port: plan.port },
                RunStateView::BindTcp6 => action == RunActionView::BindTcp6 { port: plan.port },
                RunStateView::BindDns => action == RunActionView::BindDns { port: plan.dns_port },
                RunStateView::Link => action == RunActionView::SetUpLink,
                RunStateView::Install => action == RunActionView::Install(order_of(plan)),
                RunStateView::Undo(_) => action == removal(plan),
                RunStateView::Serve => action == RunActionView::Serve,
                RunStateView::CleanUp => action == removal(plan),
                RunStateView::Over => action is Stop,
            }
        }),
    decreases events.len(),
{
    if events.len() > 0 {
        lemma_state_shows(plan, events.drop_last());
    }
}

proof fn lemma_next(plan: PlanView, events: Seq<RunEventView>, event: RunEventView)
    ensures
        run_after(plan, events.push(event)) == run_step(plan, run_after(plan, events).0, event),
{
    assert(events.push(event).drop_last() =~= events);
}

/// A client first listens for TCP on the port of its plan, and then, as far as each is asked
/// for, for TCP of IPv6 on the same port and for DNS on its own; only then does it set the link
/// up.
pub proof fn listeners_come_first(plan: PlanView, events: Seq<RunEventView>)
    ensures
        ({
            let done = RunEventView::Done;
            let dns_or_link = if plan.dns {
                RunActionView::BindDns { port: plan.dns_port }
            } else {
                RunActionView::SetUpLink
            };
            &&& action_after(plan, seq![]) == RunActionView::BindTcp { port: plan.port }
            &&& action_after(plan, events) is BindTcp ==> next_action(plan, events, done) == if
                plan.subnets_v6.len() > 0 {
                RunActionView::BindTcp6 { port: plan.port }
            } else {
                dns_or_link
            }
            &&& action_after(plan, events) is BindTcp6 ==> next_action(plan, events, done)
                == dns_or_link
            &&& action_after(plan, events) is BindDns ==> next_action(plan, events, done)
                == RunActionView::SetUpLink
        }),
{
    lemma_state_shows(plan, events);
    lemma_next(plan, events, RunEventView::Done);
}

/// A listener that cannot be bound, or a link that cannot be set up, ends the client, with the
/// port and the cause.
pub proof fn failed_listener_ends_the_client(
    plan: PlanView,
    events: Seq<RunEventView>,
    cause: Seq<char>,
)
    ensures
        ({
            let next = next_action(plan, events, RunEventView::Failed(cause));
            match action_after(plan, events) {
                RunActionView::BindTcp { port } => {
                    &&& port == plan.port
                    &&& next == RunActionView::Stop(Some(RunErrorView::BindTcp { port, cause }))
                },
                RunActionView::BindTcp6 { port } => {
                    &&& port == plan.port
                    &&& next == RunActionView::Stop(Some(RunErrorView::BindTcp6 { port, cause }))
                },
                RunActionView::BindDns { port } => {
                    &&& port == plan.dns_port
                    &&& next == RunActionView::Stop(Some(RunErrorView::BindDns { port, cause }))
                },
                RunActionView::SetUpLink => next == RunActionView::Stop(
                    Some(RunErrorView::Link(cause)),
                ),
                _ => true,
            }
        }),
{
    lemma_state_shows(plan, events);
    lemma_next(plan, events, RunEventView::Failed(cause));
}

/// Once the link is up, the rules are installed if that is asked for, with all that the plan
/// says of them, and then connections are served.
pub proof fn rules_are_installed_as_planned(plan: PlanView, events: Seq<RunEventView>)
    ensures
        ({
            let next = next_action(plan, events, RunEventView::Done);
            &&& action_after(plan, events) is SetUpLink && plan.manage ==> {
                &&& next matches RunActionView::Install(order)
                &&& order.chain == plan.chain
                &&& order.tcp_port == plan.port
                &&& order.dns_port == plan.dns_port
                &&& order.subnets_v4 == plan.subnets_v4
                &&& order.subnets_v6 == plan.subnets_v6
                &&& order.dns == plan.dns
            }
            &&& action_after(plan, events) is SetUpLink && !plan.manage ==> next
                == RunActionView::Serve
            &&& action_after(plan, events) is Install ==> next == RunActionView::Serve
        }),
{
    lemma_state_shows(plan, events);
    lemma_next(plan, events, RunEventView::Done);
}

/// However serving ends, the rules are removed if they were to be managed, those for IPv6 just
/// where there are networks of IPv6; then, however that goes, the client ends without an error.
pub proof fn client_ends_clean(
    plan: PlanView,
    events: Seq<RunEventView>,
    end: RunEventView,
    removed: RunEventView,
)
    requires
        action_after(plan, events) is Serve,
    ensures
        plan.manage ==> next_action(plan, events, end) == (RunActionView::Remove {
            chain: plan.chain,
            has_v6: plan.subnets_v6.len() > 0,
        }),
        plan.manage ==> next_action(plan, events.push(end), removed) == RunActionView::Stop(None),
        !plan.manage ==> next_action(plan, events, end) == RunActionView::Stop(None),
{
    lemma_state_shows(plan, events);
    lemma_next(plan, events, end);
    lemma_next(plan, events.push(end), removed);
}

/// Rules that could not be installed are removed, and then, however that goes, the client ends
/// with the cause for which they could not be installed.
pub proof fn client_ends_with_the_cause(
    plan: PlanView,
    events: Seq<RunEventView>,
    cause: Seq<char>,
    removed: RunEventView,
)
    requires
        action_after(plan, events) is Install,
    ensures
        next_action(plan, events, RunEventView::Failed(cause)) == (RunActionView::Remove {
            chain: plan.chain,
            has_v6: plan.subnets_v6.len() > 0,
        }),
        next_action(plan, events.push(RunEventView::Failed(cause)), removed)
            == RunActionView::Stop(Some(RunErrorView::Install(cause))),
{
    lemma_state_shows(plan, events);
    lemma_next(plan, events, RunEventView::Failed(cause));
    lemma_next(plan, events.push(RunEventView::Failed(cause)), removed);
}

/// A plan has the ports that were asked for, 12300 and 12353 where none was; the networks of
/// each family in order; and a chain that is named after the process.
pub proof fn plan_follows_the_arguments(args: ClientArgs, pid: u32)
    ensures
        ({
            let p = plan_of(args, pid);
            &&& p.port == if args.listen_port == 0 {
                12300
            } else {
                args.listen_port
            }
            &&& p.dns_port == if args.dns_listen_port == 0 {
                12353
            } else {
                args.dns_listen_port
            }
            &&& p.dns == args.dns
            &&& p.manage == args.manage_iptables
            &&& p.chain == "RUSHTLE_"@ + decimal::digits(pid as nat)
            &&& p.subnets_v4 == client::of_family(text::texts(args.subnets@), false)
            &&& p.subnets_v6 == client::of_family(text::texts(args.subnets@), true)
        }),
{
}

/// Two processes have chains of different names.
pub proof fn chains_of_processes_differ(a: u32, b: u32)
    requires
        a != b,
    ensures
        chain_of(a) != chain_of(b),
{
    let n = "RUSHTLE_"@.len() as int;
    decimal::lemma_digits(a as nat);
    decimal::lemma_digits(b as nat);
    assert(chain_of(a).skip(n) =~= decimal::digits(a as nat));
    assert(chain_of(b).skip(n) =~= decimal::digits(b as nat));
}

/// The messages of a client that gives up name the address that it could not listen on, and
/// end with the cause.
pub proof fn messages_name_address_and_cause(port: u16, cause: Seq<char>)
    ensures
        ({
            let p = decimal::digits(port as nat);
            &&& run_error_text(RunErrorView::BindTcp { port, cause }) == "bind 127.0.0.1:"@ + p
                + ": "@ + cause
            &&& run_error_text(RunErrorView::BindTcp6 { port, cause }) == "bind [::1]:"@ + p
                + ": "@ + cause
            &&& run_error_text(RunErrorView::BindDns { port, cause }) == "bind UDP 127.0.0.1:"@ + p
                + ": "@ + cause
            &&& run_error_text(RunErrorView::Link(cause)) == cause
            &&& run_error_text(RunErrorView::Install(cause)) == cause
        }),
{
}

} // verus!
