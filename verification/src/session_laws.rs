//! What holds of a running session: the watch on the connection, and what the views are told.

use vstd::prelude::*;

use crate::log::LogLevel;
use crate::nic::NicV;
use crate::session;
use crate::session::{CliV, SessionEffectV, SessionV};
use crate::text;
use crate::tftp::TransferV;

verus! {

// ---------------------------------------------------------------- the watch on the connection

/// The router has been silent for so many seconds: since it was heard last or, where it was never heard,
/// since the session started.
pub open spec fn silence(s: SessionV, now: u64, last_activity: u64) -> int {
    let since = if last_activity == 0 {
        s.started_at
    } else {
        last_activity
    };
    if now >= since {
        now - since
    } else {
        0
    }
}

/// A session that runs stops itself once the router has been silent for 300 seconds, whether or not it
/// was heard before and whatever was transferred. It tells so with one line: that the work is done where
/// a file was transferred to its end, and an error where not.
pub proof fn lemma_silence_stops(s: SessionV, c: CliV, now: u64, last_activity: u64)
    requires
        c.running,
        !s.auto_stopped,
        silence(s, now, last_activity) >= 300,
    ensures
        ({
            let t = session::tick(s, c, true, now, last_activity);
            &&& t.stop
            &&& t.session == SessionV { auto_stopped: true, ..s }
            &&& t.cli == c
            &&& t.effects.len() == 1
            &&& t.effects[0] matches SessionEffectV::Log(level, _) && level == (
            if c.transfer_done {
                LogLevel::Info
            } else {
                LogLevel::Error
            })
        }),
{
}

/// Nothing else stops a session by itself: not a shorter silence, not a second time, not without a DHCP
/// server and not when no session runs.
pub proof fn lemma_nothing_else_stops(
    s: SessionV,
    c: CliV,
    has_dhcp: bool,
    now: u64,
    last_activity: u64,
)
    requires
        !c.running || !has_dhcp || s.auto_stopped || silence(s, now, last_activity) < 300,
    ensures
        !session::tick(s, c, has_dhcp, now, last_activity).stop,
        !c.running || !has_dhcp || (s.auto_stopped && silence(s, now, last_activity) >= 300) ==> ({
            let t = session::tick(s, c, has_dhcp, now, last_activity);
            t.session == s && t.cli == c && t.effects == Seq::<SessionEffectV>::empty()
        }),
{
}

/// A silence of 45 seconds and more is warned about: in the view at every look, with its length, and in
/// the log once when it begins and once more for every further 30 seconds.
pub proof fn lemma_silence_warns(s: SessionV, c: CliV, now: u64, last_activity: u64)
    requires
        c.running,
        45 <= silence(s, now, last_activity) < 300,
    ensures
        ({
            let t = session::tick(s, c, true, now, last_activity);
            let n = silence(s, now, last_activity);
            let rounds = (n - 45) / 30;
            &&& t.cli.conn_warning matches Some(w) && text::contains_text(w, text::dec(n as nat))
            &&& t.cli == CliV { conn_warning: t.cli.conn_warning, ..c }
            &&& t.session.idle_warned
            &&& t.session == SessionV {
                idle_warned: t.session.idle_warned,
                idle_repeat: t.session.idle_repeat,
                ..s
            }
            &&& if !s.idle_warned || rounds > s.idle_repeat {
                &&& t.session.idle_repeat == rounds
                &&& t.effects.len() == 1
                &&& t.effects[0] matches SessionEffectV::Log(level, line) && level == LogLevel::Warn
                    && text::contains_text(line, text::dec(n as nat))
            } else {
                &&& t.session.idle_repeat == s.idle_repeat
                &&& t.effects == Seq::<SessionEffectV>::empty()
            }
        }),
{
    let n = text::dec(silence(s, now, last_activity) as nat);
    let i = session::idle_seconds(now, s.started_at, last_activity);
    lemma_holds(
        "已等待 "@,
        n,
        " 秒未检测到路由器请求（300 秒无活动将自动停止）。"@,
    );
    lemma_holds("仍无设备活动（已等待 "@, n, " 秒）……"@);
    let w = session::first_warning(i);
    let rest = w.skip(n.len() as int);
    lemma_holds(Seq::empty(), n, rest);
    assert(w =~= Seq::<char>::empty() + n + rest);
}

proof fn lemma_holds(a: Seq<char>, b: Seq<char>, c: Seq<char>)
    ensures
        text::contains_text(a + b + c, b),
{
    let s = a + b + c;
    let i = a.len() as int;
    assert(s.subrange(i, i + b.len()) =~= b);
    assert(text::stands_at(s, b, i));
}

/// A router that was heard less than 45 seconds ago clears every warning, so that the next silence is
/// warned about anew.
pub proof fn lemma_heard_clears(s: SessionV, c: CliV, now: u64, last_activity: u64)
    requires
        c.running,
        silence(s, now, last_activity) < 45,
    ensures
        ({
            let t = session::tick(s, c, true, now, last_activity);
            &&& t.cli == CliV { conn_warning: None, ..c }
            &&& t.session == SessionV { idle_warned: false, idle_repeat: 0, ..s }
            &&& t.effects == Seq::<SessionEffectV>::empty()
            &&& !t.stop
        }),
{
}

/// The seconds of silence that the views show.
pub proof fn lemma_idle(s: SessionV, now: u64, last_activity: u64)
    ensures
        session::idle_seconds(now, s.started_at, last_activity) == silence(s, now, last_activity),
{
}

// ---------------------------------------------------------------- reports of transfers

/// A report of the running session is shown as it is. A transfer that ended counts as done where it ended
/// without an error and sent a file; a new transfer after an ended one, of another file or of another
/// client takes that back, and one that goes on leaves it.
pub proof fn lemma_report(c: CliV, info: TransferV)
    ensures
        ({
            let r = session::reported(c, c.transfer_epoch, info);
            &&& r == CliV { transfer: Some(info), transfer_done: r.transfer_done, ..c }
            &&& info.done ==> r.transfer_done == (info.error is None && !info.is_upload)
            &&& !info.done ==> match c.transfer {
                Some(prev) => if prev.done || prev.file_name != info.file_name || prev.remote
                    != info.remote {
                    !r.transfer_done
                } else {
                    r.transfer_done == c.transfer_done
                },
                None => r.transfer_done == c.transfer_done,
            }
        }),
{
}

/// A report of any other session, earlier or later, changes nothing.
pub proof fn lemma_other_report(c: CliV, epoch: u64, info: TransferV)
    requires
        epoch != c.transfer_epoch,
    ensures
        session::reported(c, epoch, info) == c,
{
}

/// A stop forgets what was shown of the session and takes the next number; the log stays. A start takes
/// the next number and changes nothing else.
pub proof fn lemma_stop_and_restart(c: CliV)
    requires
        c.transfer_epoch < u64::MAX,
    ensures
        ({
            let s = session::stopped(c);
            &&& !s.running && s.last_device is None && s.conn_warning is None
            &&& s.transfer is None && !s.transfer_done && !s.summary_done_shown
            &&& s.log == c.log
            &&& s.transfer_epoch == c.transfer_epoch + 1
        }),
        session::restarted(c).transfer_epoch == c.transfer_epoch + 1,
        session::restarted(c) == (CliV {
            transfer_epoch: session::restarted(c).transfer_epoch,
            ..c
        }),
{
}

/// Nothing is known before the first session.
pub proof fn lemma_initial()
    ensures
        ({
            let c = session::initial_state();
            &&& c.log.len() == 0 && !c.running && c.last_device is None && c.conn_warning is None
            &&& c.transfer is None && !c.transfer_done && c.transfer_epoch == 0
            &&& !c.summary_done_shown
        }),
{
}

/// A new session keeps the settings of its adapter, to put them back, and has warned of nothing yet.
pub proof fn lemma_new_session(n: NicV)
    ensures
        ({
            let s = session::new_session(n);
            &&& s.nic == n && s.nic_snapshot == Some(n) && s.started_at == 0
            &&& !s.idle_warned && s.idle_repeat == 0 && !s.auto_stopped
            &&& !s.done_notified && !s.modal
        }),
{
}

// ---------------------------------------------------------------- the log

/// A line goes behind all others. The latest 200 are kept: with that many the oldest goes, and with fewer
/// none.
pub proof fn lemma_line_is_kept(log: Seq<Seq<char>>, line: Seq<char>)
    ensures
        log.len() < 200 ==> session::log_pushed(log, line) == log.push(line),
        log.len() >= 200 ==> session::log_pushed(log, line) == log.skip(1).push(line),
{
    if log.len() >= 200 {
        assert(log.push(line).drop_first() =~= log.skip(1).push(line));
    }
}

/// The last lines of a log are those behind all others, in order; a shorter log is shown whole.
pub proof fn lemma_last_lines(front: Seq<Seq<char>>, back: Seq<Seq<char>>, n: nat)
    ensures
        session::last_of(front + back, back.len()) == back,
        front.len() <= n ==> session::last_of(front, n) == front,
{
    if front.len() == 0 {
        assert(front + back =~= back);
    } else {
        assert((front + back).skip(front.len() as int) =~= back);
    }
    if front.len() == n {
        assert(front.skip(0) =~= front);
    }
}

// ---------------------------------------------------------------- the end of a transfer

/// The end of a transfer is told in the log where a file was transferred to its end, and once only.
pub proof fn lemma_done_is_told_once(s: SessionV, done: bool, again: bool)
    ensures
        ({
            let (t, lines) = session::Session::notified(s, done);
            &&& lines.len() > 0 <==> done && !s.done_notified
            &&& t.done_notified == (s.done_notified || done)
            &&& t == SessionV { done_notified: t.done_notified, ..s }
            &&& done ==> session::Session::notified(t, again) == (t, Seq::<SessionEffectV>::empty())
        }),
{
}

} // verus!
