//! How a session stops, from its leases to the state that the views share.
//!
//! Stopping is a walk through phases, as starting is. The leases are stored first, the servers are
//! stopped next, and the adapter is put back last. Whatever fails on the way, the session is stopped at
//! the end.

use vstd::prelude::*;

use crate::dhcp;
use crate::elevated;
use crate::leases;
use crate::leases::{LeaseFile, LeaseRecordV};
use crate::lifecycle;
use crate::lifecycle::RestoreRoute;
use crate::nic;
use crate::nic::{NetshStep, NetshV, NicInfo, NicV};
use crate::session;
use crate::session::{CliState, CliV, Session, SessionEffect, SessionEffectV, SessionV};
use crate::text;

verus! {

// ---------------------------------------------------------------- model

/// What a stop waits for.
#[derive(Clone, Copy, PartialEq, Eq, Structural)]
pub enum StopPhase {
    /// The leases to be stored.
    Storing,
    /// The end of the TFTP server.
    Tftp,
    /// The end of the DHCP server.
    Dhcp,
    /// Whether the program has administrator rights.
    Rights,
    /// The firewall rule to be taken back.
    Firewall,
    /// The adapter to be put back.
    Restoring,
    Stopped,
}

/// The outcome of what the outside did.
pub enum StopEvent {
    Stored(Result<(), String>),
    TftpStopped,
    DhcpStopped,
    Rights(bool),
    /// The firewall rule was taken back, or was not: either way the stop goes on.
    FirewallDeleted,
    Restored(Result<(), String>),
}

/// What an event says.
pub enum StopEventV {
    Stored(Result<(), Seq<char>>),
    TftpStopped,
    DhcpStopped,
    Rights(bool),
    FirewallDeleted,
    Restored(Result<(), Seq<char>>),
}

impl View for StopEvent {
    type V = StopEventV;

    open spec fn view(&self) -> StopEventV {
        match *self {
            StopEvent::Stored(r) => StopEventV::Stored(lifecycle::result_view(r)),
            StopEvent::TftpStopped => StopEventV::TftpStopped,
            StopEvent::DhcpStopped => StopEventV::DhcpStopped,
            StopEvent::Rights(b) => StopEventV::Rights(b),
            StopEvent::FirewallDeleted => StopEventV::FirewallDeleted,
            StopEvent::Restored(r) => StopEventV::Restored(lifecycle::result_view(r)),
        }
    }
}

/// What the outside does next.
pub enum StopNext {
    StoreLeases(LeaseFile),
    StopTftp,
    StopDhcp,
    CheckRights,
    DeleteFirewall,
    /// Run these commands.
    RunSteps(Vec<NetshStep>),
    /// Run a helper process that puts the adapter back, with these arguments.
    RunHelper(Vec<String>),
    /// Nothing: the session is stopped.
    Done,
}

/// What comes next, as it reads.
pub enum StopNextV {
    StoreLeases(Seq<LeaseRecordV>),
    StopTftp,
    StopDhcp,
    CheckRights,
    DeleteFirewall,
    RunSteps(Seq<NetshV>),
    RunHelper(Seq<Seq<char>>),
    Done,
}

impl View for StopNext {
    type V = StopNextV;

    open spec fn view(&self) -> StopNextV {
        match *self {
            StopNext::StoreLeases(f) => StopNextV::StoreLeases(f@),
            StopNext::StopTftp => StopNextV::StopTftp,
            StopNext::StopDhcp => StopNextV::StopDhcp,
            StopNext::CheckRights => StopNextV::CheckRights,
            StopNext::DeleteFirewall => StopNextV::DeleteFirewall,
            StopNext::RunSteps(s) => StopNextV::RunSteps(nic::step_views(s@)),
            StopNext::RunHelper(a) => StopNextV::RunHelper(text::views(a@)),
            StopNext::Done => StopNextV::Done,
        }
    }
}

/// The commands of a plan, or why there is none.
pub type PlanV = Result<Seq<NetshV>, Seq<char>>;

/// What a plan says.
pub open spec fn plan_view(p: Result<Vec<NetshStep>, String>) -> PlanV {
    match p {
        Ok(s) => Ok(nic::step_views(s@)),
        Err(e) => Err(e@),
    }
}

/// How an adapter is put back by this process.
pub open spec fn direct_plan(n: NicV) -> PlanV {
    match nic::restore_steps_of(n) {
        Some(v) => Ok(v),
        None => Err("恢复参数不完整：缺少掩码（--mask）"@),
    }
}

/// A stop under way.
pub struct StopV {
    pub phase: StopPhase,
    /// The TFTP server runs.
    pub tftp: bool,
    /// The DHCP server runs.
    pub dhcp: bool,
    /// The adapter that is to be put back.
    pub snapshot: Option<NicV>,
    /// How this process puts it back.
    pub plan: Option<PlanV>,
}

/// Everything that a stop changes, and what it says and does.
pub struct StopStepV {
    pub stop: StopV,
    pub session: SessionV,
    pub cli: CliV,
    pub effects: Seq<SessionEffectV>,
    pub next: StopNextV,
}

/// The phase waits for this kind of event.
pub open spec fn expected(phase: StopPhase, e: StopEventV) -> bool {
    match e {
        StopEventV::Stored(_) => phase == StopPhase::Storing,
        StopEventV::TftpStopped => phase == StopPhase::Tftp,
        StopEventV::DhcpStopped => phase == StopPhase::Dhcp,
        StopEventV::Rights(_) => phase == StopPhase::Rights,
        StopEventV::FirewallDeleted => phase == StopPhase::Firewall,
        StopEventV::Restored(_) => phase == StopPhase::Restoring,
    }
}

/// The stop knows what its phase needs.
pub open spec fn stop_wf(s: StopV) -> bool {
    &&& s.phase == StopPhase::Rights || s.phase == StopPhase::Firewall || s.phase
        == StopPhase::Restoring ==> s.snapshot is Some
    &&& s.phase == StopPhase::Firewall ==> s.plan is Some
}

/// Where a stop stands and what comes next.
pub struct TurnV {
    pub stop: StopV,
    pub cli: CliV,
    pub next: StopNextV,
}

/// The stop goes on in `phase`.
pub open spec fn go(s: StopV, cli: CliV, phase: StopPhase, next: StopNextV) -> TurnV {
    TurnV { stop: StopV { phase, ..s }, cli, next }
}

/// The session is stopped.
pub open spec fn finish(s: StopV, cli: CliV) -> TurnV {
    go(s, session::stopped(cli), StopPhase::Stopped, StopNextV::Done)
}

/// The servers are stopped: the adapter comes next, where it is to be put back.
pub open spec fn past_dhcp(s: StopV, cli: CliV) -> TurnV {
    if s.snapshot is Some {
        go(s, cli, StopPhase::Rights, StopNextV::CheckRights)
    } else {
        finish(s, cli)
    }
}

/// The TFTP server is stopped: the DHCP server comes next, where it runs.
pub open spec fn past_tftp(s: StopV, cli: CliV) -> TurnV {
    if s.dhcp {
        go(s, cli, StopPhase::Dhcp, StopNextV::StopDhcp)
    } else {
        past_dhcp(s, cli)
    }
}

/// The leases are stored, or could not be: the TFTP server comes next, where it runs.
pub open spec fn past_storing(s: StopV, cli: CliV) -> TurnV {
    if s.tftp {
        go(s, cli, StopPhase::Tftp, StopNextV::StopTftp)
    } else {
        past_tftp(s, cli)
    }
}

/// A turn of the stop, with what is said.
pub open spec fn turned(t: TurnV, session: SessionV, effects: Seq<SessionEffectV>) -> StopStepV {
    StopStepV { stop: t.stop, session, cli: t.cli, effects, next: t.next }
}

/// The adapter was put back, or was not. Where it was not, the session keeps it in mind.
pub open spec fn restored(
    s: StopV,
    session: SessionV,
    cli: CliV,
    result: Result<(), Seq<char>>,
) -> StopStepV {
    turned(
        finish(StopV { snapshot: None, plan: None, ..s }, cli),
        lifecycle::stop_ends(session, s.snapshot->0, result),
        seq![lifecycle::stop_line(result)],
    )
}

/// A stop begins: `leases` are those of the DHCP server, where it runs.
pub open spec fn first_step(
    session: SessionV,
    cli: CliV,
    restore: bool,
    leases: Option<Seq<(Seq<char>, u32, u64)>>,
    tftp: bool,
) -> StopStepV {
    let taken = lifecycle::stop_takes(session, restore);
    let s = StopV {
        phase: StopPhase::Storing,
        tftp,
        dhcp: leases is Some,
        snapshot: taken.1,
        plan: None,
    };
    turned(
        match leases {
            Some(v) => go(
                s,
                cli,
                StopPhase::Storing,
                StopNextV::StoreLeases(leases::stored_all(v)),
            ),
            None => past_storing(s, cli),
        },
        taken.0,
        Seq::empty(),
    )
}

/// What an event leads to.
pub open spec fn advance(s: StopV, session: SessionV, cli: CliV, e: StopEventV) -> StopStepV {
    match e {
        StopEventV::Stored(r) => turned(
            past_storing(s, cli),
            session,
            match r {
                Ok(_) => Seq::empty(),
                Err(e) => seq![lifecycle::save_failure_line(e)],
            },
        ),
        StopEventV::TftpStopped => turned(past_tftp(s, cli), session, Seq::empty()),
        StopEventV::DhcpStopped => turned(past_dhcp(s, cli), session, Seq::empty()),
        StopEventV::Rights(admin) => if admin {
            turned(
                go(
                    StopV { plan: Some(direct_plan(s.snapshot->0)), ..s },
                    cli,
                    StopPhase::Firewall,
                    StopNextV::DeleteFirewall,
                ),
                session,
                Seq::empty(),
            )
        } else {
            turned(
                go(
                    s,
                    cli,
                    StopPhase::Restoring,
                    StopNextV::RunHelper(elevated::restore_args_of(s.snapshot->0)),
                ),
                session,
                seq![
                    lifecycle::info(
                        "正在请求管理员权限（仅用于恢复网卡与删除防火墙规则）..."@,
                    ),
                ],
            )
        },
        StopEventV::FirewallDeleted => match s.plan->0 {
            Ok(steps) => turned(
                go(
                    StopV { plan: None, ..s },
                    cli,
                    StopPhase::Restoring,
                    StopNextV::RunSteps(steps),
                ),
                session,
                Seq::empty(),
            ),
            Err(e) => restored(s, session, cli, Err(e)),
        },
        StopEventV::Restored(r) => restored(s, session, cli, r),
    }
}

// ---------------------------------------------------------------- the machine

/// A stop under way.
pub struct Stopping {
    pub phase: StopPhase,
    pub tftp: bool,
    pub dhcp: bool,
    pub snapshot: Option<NicInfo>,
    pub plan: Option<Result<Vec<NetshStep>, String>>,
}

impl View for Stopping {
    type V = StopV;

    open spec fn view(&self) -> StopV {
        StopV {
            phase: self.phase,
            tftp: self.tftp,
            dhcp: self.dhcp,
            snapshot: session::nic_view(self.snapshot),
            plan: match self.plan {
                Some(p) => Some(plan_view(p)),
                None => None,
            },
        }
    }
}

/// What optional leases say.
pub open spec fn leases_view(v: Option<Vec<(String, u32, u64)>>) -> Option<
    Seq<(Seq<char>, u32, u64)>,
> {
    match v {
        Some(v) => Some(dhcp::record_views(v@)),
        None => None,
    }
}

fn silent() -> (r: Vec<SessionEffect>)
    ensures
        session::effect_views(r@) == Seq::<SessionEffectV>::empty(),
{
    let v: Vec<SessionEffect> = Vec::new();
    assert(session::effect_views(v@) =~= Seq::<SessionEffectV>::empty());
    v
}

fn said(e: SessionEffect) -> (r: Vec<SessionEffect>)
    ensures
        session::effect_views(r@) == seq![e@],
{
    let mut v: Vec<SessionEffect> = Vec::new();
    v.push(e);
    assert(session::effect_views(v@) =~= seq![e@]);
    v
}

impl Stopping {
    fn past_dhcp(&mut self, cli: &mut CliState) -> (r: StopNext)
        requires
            old(cli)@.transfer_epoch < u64::MAX,
        ensures
            (TurnV { stop: final(self)@, cli: final(cli)@, next: r@ }) == past_dhcp(
                old(self)@,
                old(cli)@,
            ),
    {
        if self.snapshot.is_some() {
            self.phase = StopPhase::Rights;
            StopNext::CheckRights
        } else {
            self.phase = StopPhase::Stopped;
            cli.stopped();
            StopNext::Done
        }
    }

    fn past_tftp(&mut self, cli: &mut CliState) -> (r: StopNext)
        requires
            old(cli)@.transfer_epoch < u64::MAX,
        ensures
            (TurnV { stop: final(self)@, cli: final(cli)@, next: r@ }) == past_tftp(
                old(self)@,
                old(cli)@,
            ),
    {
        if self.dhcp {
            self.phase = StopPhase::Dhcp;
            StopNext::StopDhcp
        } else {
            self.past_dhcp(cli)
        }
    }

    fn past_storing(&mut self, cli: &mut CliState) -> (r: StopNext)
        requires
            old(cli)@.transfer_epoch < u64::MAX,
        ensures
            (TurnV { stop: final(self)@, cli: final(cli)@, next: r@ }) == past_storing(
                old(self)@,
                old(cli)@,
            ),
    {
        if self.tftp {
            self.phase = StopPhase::Tftp;
            StopNext::StopTftp
        } else {
            self.past_tftp(cli)
        }
    }

    /// Begins to stop a session. `leases` are those of the DHCP server, where it runs; `tftp` tells
    /// whether the TFTP server runs; where `restore`, the adapter is put back.
    pub fn begin(
        session: &mut Session,
        cli: &mut CliState,
        restore: bool,
        leases: Option<Vec<(String, u32, u64)>>,
        tftp: bool,
    ) -> (r: (Self, StopNext))
        requires
            old(cli)@.transfer_epoch < u64::MAX,
        ensures
            stop_wf(r.0@),
            ({
                let w = first_step(old(session)@, old(cli)@, restore, leases_view(leases), tftp);
                &&& r.0@ == w.stop
                &&& final(session)@ == w.session
                &&& final(cli)@ == w.cli
                &&& r.1@ == w.next
            }),
    {
        let snapshot: Option<NicInfo> = lifecycle::begin_stop(session, restore);
        let mut s = Stopping {
            phase: StopPhase::Storing,
            tftp,
            dhcp: leases.is_some(),
            snapshot,
            plan: None,
        };
        match leases {
            Some(v) => {
                let file: LeaseFile = leases::to_file(&v);
                (s, StopNext::StoreLeases(file))
            },
            None => {
                let next: StopNext = s.past_storing(cli);
                (s, next)
            },
        }
    }

    fn put_back(
        &mut self,
        session: &mut Session,
        cli: &mut CliState,
        result: Result<(), String>,
    ) -> (r: (Vec<SessionEffect>, StopNext))
        requires
            old(self)@.snapshot is Some,
            old(cli)@.transfer_epoch < u64::MAX,
        ensures
            ({
                let w = restored(
                    old(self)@,
                    old(session)@,
                    old(cli)@,
                    lifecycle::result_view(result),
                );
                &&& final(self)@ == w.stop
                &&& final(session)@ == w.session
                &&& final(cli)@ == w.cli
                &&& session::effect_views(r.0@) == w.effects
                &&& r.1@ == w.next
            }),
    {
        let mut effects: Vec<SessionEffect> = silent();
        match self.snapshot.take() {
            Some(n) => {
                effects = said(lifecycle::end_stop(session, n, result));
            },
            None => {},
        }
        self.plan = None;
        self.phase = StopPhase::Stopped;
        cli.stopped();
        (effects, StopNext::Done)
    }

    /// Goes on with what the outside did.
    pub fn step(
        &mut self,
        session: &mut Session,
        cli: &mut CliState,
        event: StopEvent,
    ) -> (r: (Vec<SessionEffect>, StopNext))
        requires
            stop_wf(old(self)@),
            expected(old(self)@.phase, event@),
            old(cli)@.transfer_epoch < u64::MAX,
        ensures
            stop_wf(final(self)@),
            ({
                let w = advance(old(self)@, old(session)@, old(cli)@, event@);
                &&& final(self)@ == w.stop
                &&& final(session)@ == w.session
                &&& final(cli)@ == w.cli
                &&& session::effect_views(r.0@) == w.effects
                &&& r.1@ == w.next
            }),
    {
        match event {
            StopEvent::Stored(r) => {
                let effects: Vec<SessionEffect> = match r {
                    Ok(_) => silent(),
                    Err(e) => said(lifecycle::lease_save_failure(e.as_str())),
                };
                (effects, self.past_storing(cli))
            },
            StopEvent::TftpStopped => (silent(), self.past_tftp(cli)),
            StopEvent::DhcpStopped => (silent(), self.past_dhcp(cli)),
            StopEvent::Rights(admin) => {
                let (effects, route): (Vec<SessionEffect>, RestoreRoute) = match &self.snapshot {
                    Some(n) => lifecycle::restore_route(n, admin),
                    None => (silent(), RestoreRoute::Helper(Vec::new())),
                };
                match route {
                    RestoreRoute::Direct(plan) => {
                        self.plan = Some(plan);
                        self.phase = StopPhase::Firewall;
                        (effects, StopNext::DeleteFirewall)
                    },
                    RestoreRoute::Helper(args) => {
                        self.phase = StopPhase::Restoring;
                        (effects, StopNext::RunHelper(args))
                    },
                }
            },
            StopEvent::FirewallDeleted => match self.plan.take() {
                Some(Ok(steps)) => {
                    self.phase = StopPhase::Restoring;
                    (silent(), StopNext::RunSteps(steps))
                },
                Some(Err(e)) => self.put_back(session, cli, Err(e)),
                None => (silent(), StopNext::Done),
            },
            StopEvent::Restored(r) => self.put_back(session, cli, r),
        }
    }
}

// ---------------------------------------------------------------- laws

/// How many events a stop can still wait for.
pub open spec fn waits(phase: StopPhase) -> nat {
    match phase {
        StopPhase::Storing => 6,
        StopPhase::Tftp => 5,
        StopPhase::Dhcp => 4,
        StopPhase::Rights => 3,
        StopPhase::Firewall => 2,
        StopPhase::Restoring => 1,
        StopPhase::Stopped => 0,
    }
}

/// The last step of a stop after some events.
pub open spec fn play(first: StopStepV, events: Seq<StopEventV>) -> StopStepV
    decreases events.len(),
{
    if events.len() == 0 {
        first
    } else {
        let s = play(first, events.drop_last());
        advance(s.stop, s.session, s.cli, events.last())
    }
}

/// Every event came in a phase that waited for it.
pub open spec fn orderly(first: StopStepV, events: Seq<StopEventV>) -> bool {
    forall|i: int|
        0 <= i < events.len() ==> expected(
            play(first, events.take(i)).stop.phase,
            #[trigger] events[i],
        )
}

/// A stop is well under way, or has ended; `cli` is the state that the views shared when it began.
spec fn stands(s: StopStepV, cli: CliV) -> bool {
    &&& stop_wf(s.stop)
    &&& s.next is Done <==> s.stop.phase == StopPhase::Stopped
    &&& s.cli == (if s.next is Done {
        session::stopped(cli)
    } else {
        cli
    })
}

proof fn lemma_first_stands(
    session: SessionV,
    cli: CliV,
    restore: bool,
    leases: Option<Seq<(Seq<char>, u32, u64)>>,
    tftp: bool,
)
    ensures
        stands(first_step(session, cli, restore, leases, tftp), cli),
        waits(first_step(session, cli, restore, leases, tftp).stop.phase) <= 6,
{
}

proof fn lemma_step_stands(s: StopStepV, cli: CliV, e: StopEventV)
    requires
        stands(s, cli),
        expected(s.stop.phase, e),
    ensures
        stands(advance(s.stop, s.session, s.cli, e), cli),
        waits(advance(s.stop, s.session, s.cli, e).stop.phase) < waits(s.stop.phase),
{
}

proof fn lemma_play_stands(first: StopStepV, cli: CliV, events: Seq<StopEventV>)
    requires
        stands(first, cli),
        waits(first.stop.phase) <= 6,
        orderly(first, events),
    ensures
        stands(play(first, events), cli),
        events.len() + waits(play(first, events).stop.phase) <= 6,
    decreases events.len(),
{
    if events.len() > 0 {
        let k = events.len() - 1;
        let init = events.take(k);
        assert(events.drop_last() =~= init);
        assert forall|i: int| 0 <= i < init.len() implies expected(
            play(first, init.take(i)).stop.phase,
            #[trigger] init[i],
        ) by {
            assert(init.take(i) =~= events.take(i));
            assert(init[i] == events[i]);
        }
        lemma_play_stands(first, cli, init);
        assert(expected(play(first, events.take(k)).stop.phase, events[k]));
        lemma_step_stands(play(first, init), cli, events[k]);
    }
}

/// A stop always ends, after six events at most and whatever their outcomes: the state that the views
/// share is then that of a stopped session, which does not run, and until then it is as before.
pub proof fn lemma_stop_ends(
    session: SessionV,
    cli: CliV,
    restore: bool,
    leases: Option<Seq<(Seq<char>, u32, u64)>>,
    tftp: bool,
    events: Seq<StopEventV>,
)
    requires
        orderly(first_step(session, cli, restore, leases, tftp), events),
    ensures
        ({
            let s = play(first_step(session, cli, restore, leases, tftp), events);
            &&& stop_wf(s.stop)
            &&& events.len() + waits(s.stop.phase) <= 6
            &&& s.next is Done <==> s.stop.phase == StopPhase::Stopped
            &&& s.cli == (if s.next is Done {
                session::stopped(cli)
            } else {
                cli
            })
            &&& s.next is Done ==> !s.cli.running
        }),
{
    lemma_first_stands(session, cli, restore, leases, tftp);
    lemma_play_stands(first_step(session, cli, restore, leases, tftp), cli, events);
}

/// A stop only goes forward: the leases are stored before the servers are stopped, and the adapter is
/// touched only once they are.
pub proof fn lemma_only_forward(s: StopV, session: SessionV, cli: CliV, e: StopEventV)
    requires
        stop_wf(s),
        expected(s.phase, e),
    ensures
        waits(advance(s, session, cli, e).stop.phase) < waits(s.phase),
{
}

/// A stop that is to put the adapter back does not forget it: the session keeps it in mind until it has
/// been put back.
pub proof fn lemma_restore_or_keep(
    s: StopV,
    session: SessionV,
    cli: CliV,
    e: StopEventV,
)
    requires
        stop_wf(s),
        expected(s.phase, e),
        s.snapshot is Some,
    ensures
        ({
            let w = advance(s, session, cli, e);
            if w.next is Done {
                w.session.nic_snapshot == s.snapshot || (e matches StopEventV::Restored(r) && r is Ok)
            } else {
                w.stop.snapshot == s.snapshot
            }
        }),
{
}

} // verus!
