//! What starting and stopping a session lead to, event by event.

use vstd::prelude::*;
use vstd::string::*;

use crate::elevated;
use crate::helper;
use crate::helper::{HelperEventV, HelperNextV, HelperPhase, HelperV};
use crate::leases;
use crate::leases::LeaseRecordV;
use crate::lifecycle;
use crate::lifecycle::{StartEventV, StartNextV, StartPhase};
use crate::log::LogLevel;
use crate::net;
use crate::nic;
use crate::nic::NicV;
use crate::session;
use crate::session::{CliV, SessionEffectV, SessionV};
use crate::stopping;
use crate::stopping::{StopEventV, StopNextV, StopPhase, StopV};
use crate::text;

verus! {

// ---------------------------------------------------------------- starting

/// The event tells of something that went wrong.
pub open spec fn went_wrong(e: StartEventV) -> bool {
    match e {
        StartEventV::Directory(found) => !found,
        StartEventV::Firmware(is_file) => !is_file,
        StartEventV::Copied(r) => r is Err,
        StartEventV::Dhcp(r) => r is Err,
        StartEventV::Tftp(r) => r is Err,
        StartEventV::Address(r) => r is Err,
        StartEventV::Firewall(r) => r is Err,
        StartEventV::Helper(r) => r is Err,
        _ => false,
    }
}

/// The reason that comes with an event that tells of a failure.
pub open spec fn reason(e: StartEventV) -> Option<Seq<char>> {
    match e {
        StartEventV::Copied(Err(t)) => Some(t),
        StartEventV::Dhcp(Err(t)) => Some(t),
        StartEventV::Tftp(Err(t)) => Some(t),
        StartEventV::Address(Err(t)) => Some(t),
        StartEventV::Firewall(Err(t)) => Some(t),
        StartEventV::Helper(Err(t)) => Some(t),
        _ => None,
    }
}

proof fn lemma_holds(a: Seq<char>, b: Seq<char>, c: Seq<char>)
    ensures
        text::contains_text(a + b + c, b),
{
    let s = a + b + c;
    let i = a.len() as int;
    assert(s.subrange(i, i + b.len()) =~= b);
    assert(text::stands_at(s, b, i));
}

/// A start fails exactly where something went wrong, and the message gives the reason where there is one.
pub proof fn lemma_start_fails(n: NicV, firmware: Seq<char>, e: StartEventV)
    ensures
        ({
            let a = lifecycle::advance(n, firmware, e);
            &&& went_wrong(e) <==> a.phase == StartPhase::Failed
            &&& went_wrong(e) <==> a.next is Fail
            &&& reason(e) matches Some(t) ==> (a.next matches StartNextV::Fail(m, _)
                && text::contains_text(m, t))
            &&& e == StartEventV::Firmware(false) ==> (a.next matches StartNextV::Fail(m, _)
                && text::contains_text(m, firmware))
        }),
{
    let none = Seq::<char>::empty();
    let a = lifecycle::advance(n, firmware, e);
    if went_wrong(e) && (reason(e) is Some || e == StartEventV::Firmware(false)) {
        let t = if reason(e) is Some {
            reason(e)->0
        } else {
            firmware
        };
        let m = a.next->Fail_0;
        let head = match e {
            StartEventV::Firmware(_) => "刷机包文件不存在："@,
            StartEventV::Copied(_) => "无法将刷机包复制到程序目录："@,
            StartEventV::Dhcp(_) => "DHCP 启动失败："@,
            StartEventV::Tftp(_) => "TFTP 启动失败："@,
            StartEventV::Address(_) => "修改网卡失败："@,
            StartEventV::Firewall(_) => "配置防火墙失败："@,
            _ => "设置网卡失败："@,
        };
        let tail = m.skip((head + t).len() as int);
        assert(m =~= head + t + tail);
        lemma_holds(head, t, tail);
    }
}

/// What follows each step of a start that went well: the firmware is looked for, located and copied where
/// it lies elsewhere, the stored leases are loaded, the DHCP server and then the TFTP server are started,
/// and then the adapter and the firewall are set up, with rights of the program or by the helper.
pub proof fn lemma_start_goes_on(n: NicV, firmware: Seq<char>, e: StartEventV)
    requires
        !went_wrong(e),
    ensures
        ({
            let a = lifecycle::advance(n, firmware, e);
            match e {
                StartEventV::Directory(_) => a.phase == StartPhase::Firmware && a.next
                    == StartNextV::CheckFirmware,
                StartEventV::Firmware(_) => a.phase == StartPhase::Location && a.next
                    == StartNextV::Locate,
                StartEventV::Location(outside) => if outside {
                    a.phase == StartPhase::Copying && a.next == StartNextV::Copy
                } else {
                    a.phase == StartPhase::Leases && a.next == StartNextV::LoadLeases
                },
                StartEventV::Copied(_) => a.phase == StartPhase::Leases && a.next
                    == StartNextV::LoadLeases,
                StartEventV::Leases(file) => a.phase == StartPhase::Dhcp && a.next
                    == StartNextV::StartDhcp(leases::readable(file)),
                StartEventV::Dhcp(_) => a.phase == StartPhase::Tftp && a.next
                    == StartNextV::StartTftp,
                StartEventV::Tftp(_) => a.phase == StartPhase::Rights && a.next
                    == StartNextV::CheckRights,
                StartEventV::Rights(admin) => if admin {
                    a.phase == StartPhase::Address && a.next is SetAddress
                } else {
                    a.phase == StartPhase::Helper && a.next is RunHelper
                },
                StartEventV::Address(_) => a.phase == StartPhase::Firewall && a.next
                    == StartNextV::OpenFirewall,
                StartEventV::Firewall(_) => a.phase == StartPhase::Running && a.next
                    == StartNextV::Run,
                StartEventV::Helper(_) => a.phase == StartPhase::Running && a.next
                    == StartNextV::Run,
            }
        }),
{
}

/// The adapter is set to 192.168.31.1 with the mask 255.255.255.0, by a command that names it; the helper
/// is told its name.
pub proof fn lemma_start_sets_address(n: NicV, firmware: Seq<char>)
    requires
        !n.name.contains('"'),
        n.name.len() > 0,
    ensures
        lifecycle::advance(n, firmware, StartEventV::Rights(true)).next
            matches StartNextV::SetAddress(step) && !step.may_be_set && nic::tokens(step.args)
            == seq![
            "interface"@,
            "ip"@,
            "set"@,
            "address"@,
            "name="@ + n.name,
            "static"@,
            "192.168.31.1"@,
            "255.255.255.0"@,
        ],
        lifecycle::advance(n, firmware, StartEventV::Rights(false)).next
            matches StartNextV::RunHelper(args) && args.len() == 1 && nic::tokens(args[0]) == seq![
            "--nic"@,
            n.name,
        ],
{
    nic::lemma_set_static_arguments(n.name);
    reveal_strlit("--nic");
    crate::elevated_laws::lemma_quoted_value("--nic"@, n.name);
}

/// An adapter without a link is warned about once, before anything is changed; one with a link is not.
pub proof fn lemma_start_warns(n: NicV, firmware: Seq<char>)
    ensures
        ({
            let e = lifecycle::advance(n, firmware, StartEventV::Firmware(true)).effects;
            if n.up && n.link_speed > 0 {
                e == Seq::<SessionEffectV>::empty()
            } else {
                e.len() == 1 && (e[0] matches SessionEffectV::Log(level, _) && level
                    == LogLevel::Warn)
            }
        }),
{
}

/// A start changes the shared state twice: with the leases it takes the next number, and when it runs it
/// notes the time and that a session runs.
pub proof fn lemma_start_marks(next: StartNextV, s: SessionV, c: CliV, now: u64)
    requires
        c.transfer_epoch < u64::MAX,
    ensures
        ({
            let (t, d) = lifecycle::applied(next, s, c, now);
            &&& t.started_at == (if next is Run {
                now
            } else {
                s.started_at
            })
            &&& t == SessionV { started_at: t.started_at, ..s }
            &&& d.running == (c.running || next is Run)
            &&& d.transfer_epoch == c.transfer_epoch + (if next is LoadLeases {
                1int
            } else {
                0
            })
            &&& d == CliV { running: d.running, transfer_epoch: d.transfer_epoch, ..c }
        }),
{
}

// ---------------------------------------------------------------- stored leases

/// The leases that can be read from a store are those of its records whose address is one, in order: the
/// leases of two stores one behind the other are those of the first and then those of the second.
pub proof fn lemma_readable(a: Seq<LeaseRecordV>, b: Seq<LeaseRecordV>, one: LeaseRecordV, ip: u32)
    ensures
        leases::readable(a + b) == leases::readable(a) + leases::readable(b),
        one.ip == net::ip_text(ip) ==> leases::readable(seq![one]) == seq![
            (one.mac, ip, one.expires_unix),
        ],
        (forall|v: u32| one.ip != #[trigger] net::ip_text(v)) ==> leases::readable(seq![one])
            == Seq::<(Seq<char>, u32, u64)>::empty(),
    decreases b.len(),
{
    let single = seq![one];
    assert(single.drop_last() =~= Seq::<LeaseRecordV>::empty());
    let none = Seq::<(Seq<char>, u32, u64)>::empty();
    assert(leases::readable(single.drop_last()) == none);
    net::lemma_ip_round_trip(ip);
    assert(none.push((one.mac, ip, one.expires_unix)) =~= seq![(one.mac, ip, one.expires_unix)]);
    if b.len() == 0 {
        assert(a + b =~= a);
        assert(leases::readable(a) + leases::readable(b) =~= leases::readable(a));
    } else {
        let init = b.drop_last();
        lemma_readable(a, init, one, ip);
        assert((a + b).drop_last() =~= a + init);
        assert((a + b).last() == b.last());
        assert(leases::readable(a + b) =~= leases::readable(a) + leases::readable(b));
    }
}

/// Every lease is stored, in order, with its hardware address, the text of its address and its end.
pub proof fn lemma_stored(v: Seq<(Seq<char>, u32, u64)>, k: int)
    requires
        0 <= k < v.len(),
    ensures
        leases::stored_all(v).len() == v.len(),
        leases::stored_all(v)[k].mac == v[k].0,
        leases::stored_all(v)[k].ip == net::ip_text(v[k].1),
        leases::stored_all(v)[k].expires_unix == v[k].2,
{
}

// ---------------------------------------------------------------- stopping

/// What remains to be stopped after the leases, the TFTP server or the DHCP server has been dealt with:
/// the next of them that there is, then the adapter where it is to be put back, then nothing.
pub open spec fn remains(s: StopV, after: StopPhase) -> StopNextV {
    if after == StopPhase::Storing && s.tftp {
        StopNextV::StopTftp
    } else if (after == StopPhase::Storing || after == StopPhase::Tftp) && s.dhcp {
        StopNextV::StopDhcp
    } else if s.snapshot is Some {
        StopNextV::CheckRights
    } else {
        StopNextV::Done
    }
}

/// A stop begins with the leases of a DHCP server that runs, all of them. Where the adapter is to be put
/// back, the session gives its settings away, so that no other stop puts it back meanwhile; where not, it
/// keeps them.
pub proof fn lemma_stop_begins(
    session: SessionV,
    cli: CliV,
    restore: bool,
    leases: Option<Seq<(Seq<char>, u32, u64)>>,
    tftp: bool,
)
    ensures
        ({
            let w = stopping::first_step(session, cli, restore, leases, tftp);
            &&& w.stop.snapshot == (if restore {
                session.nic_snapshot
            } else {
                None
            })
            &&& w.session == SessionV {
                nic_snapshot: if restore {
                    None
                } else {
                    session.nic_snapshot
                },
                ..session
            }
            &&& w.stop.tftp == tftp && w.stop.dhcp == (leases is Some)
            &&& w.effects == Seq::<SessionEffectV>::empty()
            &&& match leases {
                Some(v) => w.next == StopNextV::StoreLeases(leases::stored_all(v)) && w.stop.phase
                    == StopPhase::Storing && w.cli == cli,
                None => w.next == remains(w.stop, StopPhase::Storing) && w.cli == if w.next is Done {
                    session::stopped(cli)
                } else {
                    cli
                },
            }
        }),
{
}

/// The servers are stopped one after the other, whatever came of storing the leases, and then the adapter
/// is turned to, where it is to be put back.
pub proof fn lemma_stop_servers(s: StopV, session: SessionV, cli: CliV, e: StopEventV)
    requires
        e is Stored || e is TftpStopped || e is DhcpStopped,
    ensures
        ({
            let w = stopping::advance(s, session, cli, e);
            let after = if e is Stored {
                StopPhase::Storing
            } else if e is TftpStopped {
                StopPhase::Tftp
            } else {
                StopPhase::Dhcp
            };
            &&& w.next == remains(s, after)
            &&& w.session == session
            &&& w.stop.snapshot == s.snapshot
            &&& w.cli == if w.next is Done {
                session::stopped(cli)
            } else {
                cli
            }
            &&& w.effects.len() == (if e matches StopEventV::Stored(r) && r is Err {
                1nat
            } else {
                0
            })
        }),
{
}

/// With administrator rights the firewall rule is taken back and then the commands are run that put the
/// adapter back; without them a helper process is told the settings of the adapter.
pub proof fn lemma_stop_restores(s: StopV, session: SessionV, cli: CliV)
    requires
        s.snapshot is Some,
        nic::restore_steps_of(s.snapshot->0) is Some,
    ensures
        ({
            let admin = stopping::advance(s, session, cli, StopEventV::Rights(true));
            let ready = stopping::advance(
                admin.stop,
                admin.session,
                admin.cli,
                StopEventV::FirewallDeleted,
            );
            let asked = stopping::advance(s, session, cli, StopEventV::Rights(false));
            &&& admin.next == StopNextV::DeleteFirewall
            &&& ready.next == StopNextV::RunSteps(nic::restore_steps_of(s.snapshot->0)->0)
            &&& ready.session == session && ready.cli == cli && ready.stop.snapshot == s.snapshot
            &&& asked.next == StopNextV::RunHelper(elevated::restore_args_of(s.snapshot->0))
            &&& asked.session == session && asked.cli == cli && asked.stop.snapshot == s.snapshot
        }),
{
}

/// When the adapter has been put back the stop is over and the session has nothing left to put back; when
/// that has failed the stop is over too, and the session has the settings again for another try.
pub proof fn lemma_stop_is_over(
    s: StopV,
    session: SessionV,
    cli: CliV,
    result: Result<(), Seq<char>>,
)
    requires
        s.snapshot is Some,
    ensures
        ({
            let w = stopping::advance(s, session, cli, StopEventV::Restored(result));
            &&& w.next == StopNextV::Done && w.stop.phase == StopPhase::Stopped
            &&& w.cli == session::stopped(cli)
            &&& w.session == SessionV {
                nic_snapshot: if result is Ok {
                    session.nic_snapshot
                } else {
                    s.snapshot
                },
                ..session
            }
            &&& w.effects.len() == 1
            &&& w.effects[0] matches SessionEffectV::Log(level, _) && level == (
            if result is Ok {
                LogLevel::Info
            } else {
                LogLevel::Error
            })
        }),
{
}

// ---------------------------------------------------------------- the helper process

/// A helper process that sets an adapter up and one that puts one back end with exit code 0 and `OK` where
/// every step went well; the step that fails outside of setting up ends it with exit code 1 and its reason.
pub proof fn lemma_helper_outcomes(h: HelperV, nics: Seq<NicV>, k: int, error: Seq<char>)
    requires
        0 <= k < nics.len(),
        nics[k].name == h.name,
        forall|j: int| 0 <= j < k ==> (#[trigger] nics[j]).name != h.name,
    ensures
        ({
            let listed = helper::advance(h, HelperEventV::Listed(Ok(nics)));
            &&& listed.0.snapshot == Some(nics[k]) && listed.0.phase == HelperPhase::Address
            &&& listed.1 matches HelperNextV::SetAddress(step) && step == nic::plain_step(
                nic::set_static_command(h.name),
            )
        }),
        helper::advance(h, HelperEventV::Address(Ok(()))) == (
            HelperV { phase: HelperPhase::Firewall, ..h },
            HelperNextV::OpenFirewall,
        ),
        helper::advance(h, HelperEventV::Firewall(Ok(()))).1 == HelperNextV::Report(0, "OK"@),
        helper::advance(h, HelperEventV::Restored(Ok(()))) == (
            HelperV { phase: HelperPhase::Closing, ..h },
            HelperNextV::CloseFirewall,
        ),
        helper::advance(h, HelperEventV::Closed(Ok(()))).1 == HelperNextV::Report(0, "OK"@),
        helper::advance(h, HelperEventV::Listed(Err(error))).1 == HelperNextV::Report(1, error),
        helper::advance(h, HelperEventV::Restored(Err(error))).1 == HelperNextV::Report(1, error),
        helper::advance(h, HelperEventV::Closed(Err(error))).1 == HelperNextV::Report(1, error),
{
    lemma_first_of_name(nics, h.name, k);
}

/// Of several adapters with one name the first is meant, and where none has the name there is none.
pub proof fn lemma_first_of_name(nics: Seq<NicV>, name: Seq<char>, k: int)
    requires
        0 <= k <= nics.len(),
        forall|j: int| 0 <= j < k ==> (#[trigger] nics[j]).name != name,
    ensures
        k < nics.len() && nics[k].name == name ==> elevated::nic_named(nics, name) == Some(k),
        k == nics.len() ==> elevated::nic_named(nics, name) is None,
    decreases nics.len(),
{
    if nics.len() > 0 {
        let init = nics.drop_last();
        let m = if k < nics.len() {
            k
        } else {
            k - 1
        };
        assert forall|j: int| 0 <= j < m implies (#[trigger] init[j]).name != name by {
            assert(init[j] == nics[j]);
        }
        lemma_first_of_name(init, name, m);
        assert(m < init.len() ==> init[m] == nics[m]);
        if k == nics.len() {
            assert(nics[k - 1].name != name);
        }
    }
}

/// A helper process without a result file exits with code 2, and one without an adapter or with another
/// operation than the two reports that; the others go on with what the operation is for.
pub proof fn lemma_helper_begins(op: Seq<char>, args: Seq<Seq<char>>)
    ensures
        ({
            let f = helper::first_step(op, args);
            let file = elevated::value_of(args, "--result"@);
            let name = elevated::value_of(args, "--nic"@);
            &&& file is None <==> f.1 == HelperNextV::Exit(2)
            &&& file is Some && (name is None || (op != "set"@ && op != "restore"@)) ==> (
            f.1 matches HelperNextV::Report(code, _) && code == 1)
            &&& file is Some && name is Some && op == "set"@ ==> f.1 == HelperNextV::ListAdapters
                && f.0.name == name->0
            &&& file is Some && name is Some && op == "restore"@ && op != "set"@ ==> match
                nic::restore_steps(
                name->0,
                elevated::position_of(args, "--dhcp"@) is Some,
                elevated::value_of(args, "--ip"@),
                elevated::value_of(args, "--mask"@),
                elevated::value_of(args, "--gateway"@),
                elevated::dns_in(args),
            ) {
                Some(steps) => f.1 == HelperNextV::RunSteps(steps),
                None => f.1 matches HelperNextV::Report(code, _) && code == 1,
            }
        }),
{
}

/// An adapter is put back by the program itself exactly where it has the rights. It then runs the commands
/// that the settings need, and fails exactly where these are not complete.
pub proof fn lemma_route(n: NicV, admin: bool, r: lifecycle::RestoreRoute)
    requires
        lifecycle::routed(n, admin, r),
    ensures
        admin <==> r is Direct,
        r matches lifecycle::RestoreRoute::Direct(d) ==> (d is Ok <==> n.is_dhcp || n.ipv4 is None
            || n.ipv4_mask is Some),
        r matches lifecycle::RestoreRoute::Direct(Ok(s)) ==> Some(nic::step_views(s@))
            == nic::restore_steps_of(n),
        r matches lifecycle::RestoreRoute::Helper(a) ==> text::views(a@)
            == elevated::restore_args_of(n),
{
}

} // verus!
