//! The helper process from its arguments to its exit code.
//!
//! The process sets an adapter up or puts it back, with administrator rights. It is a walk through
//! phases: each waits for the outcome of one thing that the outside does. Where setting up fails, the
//! adapter is put back once, and the failure is reported whatever comes of that.

use vstd::prelude::*;
use vstd::string::*;

use crate::elevated;
use crate::elevated::{HelperPlan, HelperPlanV};
use crate::nic;
use crate::nic::{NetshStep, NetshV, NicInfo, NicV};
use crate::session;
use crate::text;

verus! {

// ---------------------------------------------------------------- model

/// What the process waits for.
#[derive(Clone, Copy, PartialEq, Eq, Structural)]
pub enum HelperPhase {
    /// The adapters of the machine.
    Listing,
    /// The address of the adapter.
    Address,
    /// The firewall rule to be added.
    Firewall,
    /// The adapter to be put back after a failure.
    RollingBack,
    /// The adapter to be put back.
    Restoring,
    /// The firewall rule to be taken back.
    Closing,
    Ended,
}

/// The outcome of what the outside did.
pub enum HelperEvent {
    Listed(Result<Vec<NicInfo>, String>),
    Address(Result<(), String>),
    Firewall(Result<(), String>),
    RolledBack(Result<(), String>),
    Restored(Result<(), String>),
    Closed(Result<(), String>),
}

/// What an event says.
pub enum HelperEventV {
    Listed(Result<Seq<NicV>, Seq<char>>),
    Address(Result<(), Seq<char>>),
    Firewall(Result<(), Seq<char>>),
    RolledBack(Result<(), Seq<char>>),
    Restored(Result<(), Seq<char>>),
    Closed(Result<(), Seq<char>>),
}

impl View for HelperEvent {
    type V = HelperEventV;

    open spec fn view(&self) -> HelperEventV {
        match *self {
            HelperEvent::Listed(r) => HelperEventV::Listed(
                match r {
                    Ok(v) => Ok(nic::nic_views(v@)),
                    Err(e) => Err(e@),
                },
            ),
            HelperEvent::Address(r) => HelperEventV::Address(nic::outcome_view(r)),
            HelperEvent::Firewall(r) => HelperEventV::Firewall(nic::outcome_view(r)),
            HelperEvent::RolledBack(r) => HelperEventV::RolledBack(nic::outcome_view(r)),
            HelperEvent::Restored(r) => HelperEventV::Restored(nic::outcome_view(r)),
            HelperEvent::Closed(r) => HelperEventV::Closed(nic::outcome_view(r)),
        }
    }
}

/// What the outside does next.
pub enum HelperNext {
    ListAdapters,
    SetAddress(NetshStep),
    OpenFirewall,
    /// Run these commands.
    RunSteps(Vec<NetshStep>),
    CloseFirewall,
    /// Write this text into the result file and end with this exit code.
    Report(i32, String),
    /// End with this exit code; there is no result file.
    Exit(i32),
}

/// What comes next, as it reads.
pub enum HelperNextV {
    ListAdapters,
    SetAddress(NetshV),
    OpenFirewall,
    RunSteps(Seq<NetshV>),
    CloseFirewall,
    Report(i32, Seq<char>),
    Exit(i32),
}

impl View for HelperNext {
    type V = HelperNextV;

    open spec fn view(&self) -> HelperNextV {
        match *self {
            HelperNext::ListAdapters => HelperNextV::ListAdapters,
            HelperNext::SetAddress(s) => HelperNextV::SetAddress(s@),
            HelperNext::OpenFirewall => HelperNextV::OpenFirewall,
            HelperNext::RunSteps(v) => HelperNextV::RunSteps(nic::step_views(v@)),
            HelperNext::CloseFirewall => HelperNextV::CloseFirewall,
            HelperNext::Report(code, s) => HelperNextV::Report(code, s@),
            HelperNext::Exit(code) => HelperNextV::Exit(code),
        }
    }
}

/// A helper process under way.
pub struct HelperV {
    pub phase: HelperPhase,
    /// The name of the adapter that is set up.
    pub name: Seq<char>,
    /// The adapter as it was before it was set up.
    pub snapshot: Option<NicV>,
    /// The failure that is reported once the adapter has been put back.
    pub failure: Seq<char>,
}

/// The phase waits for this kind of event.
pub open spec fn expected(phase: HelperPhase, e: HelperEventV) -> bool {
    match e {
        HelperEventV::Listed(_) => phase == HelperPhase::Listing,
        HelperEventV::Address(_) => phase == HelperPhase::Address,
        HelperEventV::Firewall(_) => phase == HelperPhase::Firewall,
        HelperEventV::RolledBack(_) => phase == HelperPhase::RollingBack,
        HelperEventV::Restored(_) => phase == HelperPhase::Restoring,
        HelperEventV::Closed(_) => phase == HelperPhase::Closing,
    }
}

/// The process knows what its phase needs.
pub open spec fn helper_wf(h: HelperV) -> bool {
    h.phase == HelperPhase::Address || h.phase == HelperPhase::Firewall ==> h.snapshot is Some
}

/// The process goes on.
pub open spec fn go(h: HelperV, phase: HelperPhase, next: HelperNextV) -> (HelperV, HelperNextV) {
    (HelperV { phase, ..h }, next)
}

/// The process ends: a failure is reported with its reason and exit code 1.
pub open spec fn end(h: HelperV, result: Result<(), Seq<char>>) -> (HelperV, HelperNextV) {
    go(
        h,
        HelperPhase::Ended,
        match result {
            Ok(_) => HelperNextV::Report(0, "OK"@),
            Err(e) => HelperNextV::Report(1, e),
        },
    )
}

/// The commands that put an adapter back; none where its settings are incomplete.
pub open spec fn way_back(n: NicV) -> Seq<NetshV> {
    match nic::restore_steps_of(n) {
        Some(v) => v,
        None => Seq::empty(),
    }
}

/// What is reported of a failure to set the adapter up.
pub open spec fn set_up_failure(error: Seq<char>) -> Seq<char> {
    "设置网卡/防火墙失败（已尝试恢复原配置）："@ + error
}

/// Setting up has failed: the adapter is put back, and the failure is kept for the report.
pub open spec fn fall_back(h: HelperV, error: Seq<char>) -> (HelperV, HelperNextV) {
    go(
        HelperV { failure: set_up_failure(error), ..h },
        HelperPhase::RollingBack,
        HelperNextV::RunSteps(way_back(h.snapshot->0)),
    )
}

/// How a process with the operation `op` and these arguments begins.
pub open spec fn first_step(op: Seq<char>, args: Seq<Seq<char>>) -> (HelperV, HelperNextV) {
    let h = HelperV {
        phase: HelperPhase::Ended,
        name: Seq::empty(),
        snapshot: None,
        failure: Seq::empty(),
    };
    match elevated::plan_of(op, args) {
        HelperPlanV::NoResultFile => (h, HelperNextV::Exit(2)),
        HelperPlanV::Fail(e) => end(h, Err(e)),
        HelperPlanV::SetUp(name) => go(
            HelperV { name, ..h },
            HelperPhase::Listing,
            HelperNextV::ListAdapters,
        ),
        HelperPlanV::Restore(steps) => go(
            h,
            HelperPhase::Restoring,
            HelperNextV::RunSteps(steps),
        ),
    }
}

/// What an event leads to.
pub open spec fn advance(h: HelperV, e: HelperEventV) -> (HelperV, HelperNextV) {
    match e {
        HelperEventV::Listed(r) => match r {
            Err(e) => end(h, Err(e)),
            Ok(nics) => match elevated::nic_named(nics, h.name) {
                None => end(h, Err("网卡不存在："@ + h.name)),
                Some(i) => go(
                    HelperV { snapshot: Some(nics[i]), ..h },
                    HelperPhase::Address,
                    HelperNextV::SetAddress(nic::plain_step(nic::set_static_command(h.name))),
                ),
            },
        },
        HelperEventV::Address(r) => match r {
            Ok(_) => go(h, HelperPhase::Firewall, HelperNextV::OpenFirewall),
            Err(e) => fall_back(h, e),
        },
        HelperEventV::Firewall(r) => match r {
            Ok(_) => end(h, Ok(())),
            Err(e) => fall_back(h, e),
        },
        HelperEventV::RolledBack(_) => end(h, Err(h.failure)),
        HelperEventV::Restored(r) => match r {
            Ok(_) => go(h, HelperPhase::Closing, HelperNextV::CloseFirewall),
            Err(e) => end(h, Err(e)),
        },
        HelperEventV::Closed(r) => end(h, r),
    }
}

// ---------------------------------------------------------------- the machine

/// A helper process under way.
pub struct Helper {
    pub phase: HelperPhase,
    pub name: String,
    pub snapshot: Option<NicInfo>,
    pub failure: String,
}

impl View for Helper {
    type V = HelperV;

    open spec fn view(&self) -> HelperV {
        HelperV {
            phase: self.phase,
            name: self.name@,
            snapshot: session::nic_view(self.snapshot),
            failure: self.failure@,
        }
    }
}

impl Helper {
    /// Begins with an operation and the arguments of the process.
    pub fn begin(op: &str, args: &Vec<String>) -> (r: (Self, HelperNext))
        ensures
            helper_wf(r.0@),
            (r.0@, r.1@) == first_step(op@, text::views(args@)),
    {
        let mut h = Helper {
            phase: HelperPhase::Ended,
            name: String::new(),
            snapshot: None,
            failure: String::new(),
        };
        assert(h@.name =~= Seq::<char>::empty() && h@.failure =~= Seq::<char>::empty());
        match elevated::plan_helper(op, args) {
            HelperPlan::NoResultFile => (h, HelperNext::Exit(2)),
            HelperPlan::Fail(e) => {
                let next: HelperNext = h.finish(Err(e));
                (h, next)
            },
            HelperPlan::SetUp(name) => {
                h.name = name;
                h.phase = HelperPhase::Listing;
                (h, HelperNext::ListAdapters)
            },
            HelperPlan::Restore(steps) => {
                h.phase = HelperPhase::Restoring;
                (h, HelperNext::RunSteps(steps))
            },
        }
    }

    fn finish(&mut self, result: Result<(), String>) -> (r: HelperNext)
        ensures
            (final(self)@, r@) == end(old(self)@, nic::outcome_view(result)),
    {
        self.phase = HelperPhase::Ended;
        let (code, line): (i32, String) = elevated::helper_report(&result);
        HelperNext::Report(code, line)
    }

    fn fall_back(&mut self, error: &str) -> (r: HelperNext)
        requires
            old(self)@.snapshot is Some,
        ensures
            (final(self)@, r@) == fall_back(old(self)@, error@),
    {
        let (steps, line): (Vec<NetshStep>, String) = match &self.snapshot {
            Some(n) => elevated::roll_back(n, error),
            None => (Vec::new(), String::new()),
        };
        self.failure = line;
        self.phase = HelperPhase::RollingBack;
        HelperNext::RunSteps(steps)
    }

    /// Goes on with what the outside did.
    pub fn step(&mut self, event: HelperEvent) -> (r: HelperNext)
        requires
            helper_wf(old(self)@),
            expected(old(self)@.phase, event@),
        ensures
            helper_wf(final(self)@),
            (final(self)@, r@) == advance(old(self)@, event@),
    {
        match event {
            HelperEvent::Listed(r) => match r {
                Err(e) => self.finish(Err(e)),
                Ok(nics) => match elevated::snapshot_for(&nics, self.name.as_str()) {
                    Err(e) => self.finish(Err(e)),
                    Ok(n) => {
                        self.snapshot = Some(n);
                        self.phase = HelperPhase::Address;
                        HelperNext::SetAddress(nic::set_static(self.name.as_str()))
                    },
                },
            },
            HelperEvent::Address(r) => match r {
                Ok(_) => {
                    self.phase = HelperPhase::Firewall;
                    HelperNext::OpenFirewall
                },
                Err(e) => self.fall_back(e.as_str()),
            },
            HelperEvent::Firewall(r) => match r {
                Ok(_) => self.finish(Ok(())),
                Err(e) => self.fall_back(e.as_str()),
            },
            HelperEvent::RolledBack(_) => {
                let failure: String = self.failure.clone();
                self.finish(Err(failure))
            },
            HelperEvent::Restored(r) => match r {
                Ok(_) => {
                    self.phase = HelperPhase::Closing;
                    HelperNext::CloseFirewall
                },
                Err(e) => self.finish(Err(e)),
            },
            HelperEvent::Closed(r) => self.finish(r),
        }
    }
}

// ---------------------------------------------------------------- laws

/// The state and the next thing after some events.
pub open spec fn play(first: (HelperV, HelperNextV), events: Seq<HelperEventV>) -> (
    HelperV,
    HelperNextV,
)
    decreases events.len(),
{
    if events.len() == 0 {
        first
    } else {
        advance(play(first, events.drop_last()).0, events.last())
    }
}

/// Every event came in a phase that waited for it.
pub open spec fn orderly(first: (HelperV, HelperNextV), events: Seq<HelperEventV>) -> bool {
    forall|i: int|
        0 <= i < events.len() ==> expected(
            play(first, events.take(i)).0.phase,
            #[trigger] events[i],
        )
}

/// The event says that the address or the firewall rule could not be set, for this reason.
pub open spec fn set_up_failed(e: HelperEventV) -> Option<Seq<char>> {
    match e {
        HelperEventV::Address(Err(e)) => Some(e),
        HelperEventV::Firewall(Err(e)) => Some(e),
        _ => None,
    }
}

/// A failed set-up is rolled back once: the commands that put the adapter back are run right after the
/// failure, and whatever comes of them the process then ends with exit code 1 and the reason of the
/// failure.
pub proof fn lemma_failed_set_up(h: HelperV, e: HelperEventV, back: Result<(), Seq<char>>)
    requires
        expected(h.phase, e),
        set_up_failed(e) is Some,
    ensures
        ({
            let failed = advance(h, e);
            let ended = advance(failed.0, HelperEventV::RolledBack(back));
            &&& failed.1 == HelperNextV::RunSteps(way_back(h.snapshot->0))
            &&& failed.0.phase == HelperPhase::RollingBack
            &&& ended.1 == HelperNextV::Report(1, set_up_failure(set_up_failed(e)->0))
            &&& ended.0.phase == HelperPhase::Ended
        }),
{
}

/// The whole run of a set-up that fails: the adapter of the given name is listed with its settings, its
/// address or the firewall rule cannot be set, its settings are put back, and the process ends with
/// exit code 1 and the reason.
pub proof fn lemma_set_up_run(
    args: Seq<Seq<char>>,
    nics: Seq<NicV>,
    k: int,
    address_ok: bool,
    error: Seq<char>,
    back: Result<(), Seq<char>>,
)
    requires
        elevated::value_of(args, "--result"@) is Some,
        elevated::value_of(args, "--nic"@) is Some,
        elevated::nic_named(nics, elevated::value_of(args, "--nic"@)->0) == Some(k),
    ensures
        ({
            let name = elevated::value_of(args, "--nic"@)->0;
            let begun = first_step("set"@, args);
            let listed = advance(begun.0, HelperEventV::Listed(Ok(nics)));
            let failed = if address_ok {
                advance(
                    advance(listed.0, HelperEventV::Address(Ok(()))).0,
                    HelperEventV::Firewall(Err(error)),
                )
            } else {
                advance(listed.0, HelperEventV::Address(Err(error)))
            };
            let ended = advance(failed.0, HelperEventV::RolledBack(back));
            &&& begun.1 == HelperNextV::ListAdapters
            &&& listed.1 == HelperNextV::SetAddress(
                nic::plain_step(nic::set_static_command(name)),
            )
            &&& failed.1 == HelperNextV::RunSteps(way_back(nics[k]))
            &&& ended.1 == HelperNextV::Report(1, set_up_failure(error))
            &&& ended.0.phase == HelperPhase::Ended
        }),
{
}

/// How many events the process can still wait for.
pub open spec fn waits(phase: HelperPhase) -> nat {
    match phase {
        HelperPhase::Listing => 4,
        HelperPhase::Address => 3,
        HelperPhase::Firewall => 2,
        HelperPhase::Restoring => 2,
        HelperPhase::RollingBack => 1,
        HelperPhase::Closing => 1,
        HelperPhase::Ended => 0,
    }
}

/// The process always ends, after four events at most, and it ends exactly where it reports or exits.
pub proof fn lemma_helper_ends(op: Seq<char>, args: Seq<Seq<char>>, events: Seq<HelperEventV>)
    requires
        orderly(first_step(op, args), events),
    ensures
        ({
            let s = play(first_step(op, args), events);
            &&& events.len() + waits(s.0.phase) <= 4
            &&& s.0.phase == HelperPhase::Ended <==> s.1 is Report || s.1 is Exit
        }),
    decreases events.len(),
{
    let first = first_step(op, args);
    if events.len() > 0 {
        let k = events.len() - 1;
        let init = events.take(k);
        assert(events.drop_last() =~= init);
        assert forall|i: int| 0 <= i < init.len() implies expected(
            play(first, init.take(i)).0.phase,
            #[trigger] init[i],
        ) by {
            assert(init.take(i) =~= events.take(i));
            assert(init[i] == events[i]);
        }
        lemma_helper_ends(op, args, init);
        assert(expected(play(first, events.take(k)).0.phase, events[k]));
    }
}

} // verus!
