//! A flashing session: the state that the views share, how a session starts and stops, and the watch
//! over its connection.

use std::collections::VecDeque;

use vstd::prelude::*;
use vstd::string::*;

use crate::config::{
    IDLE_AUTO_STOP_SECS, IDLE_REPEAT_SECS, IDLE_WARN_SECS, LOG_KEEP_LINES,
};
use crate::log::LogLevel;
use crate::net;
use crate::nic::{NicInfo, NicV};
use crate::text;
use crate::tftp;
use crate::tftp::{TransferInfo, TransferV};

verus! {

// ---------------------------------------------------------------- shared state

/// What the views show of a session.
pub struct CliState {
    log_lines: VecDeque<String>,
    running: bool,
    /// The device that got an address last: hardware address and address.
    last_device: Option<(String, String)>,
    conn_warning: Option<String>,
    transfer: Option<TransferInfo>,
    /// A file was transferred to its end.
    transfer_done: bool,
    /// Number of the session. What late threads of earlier sessions report is dropped.
    transfer_epoch: u64,
    summary_done_shown: bool,
}

/// What the shared state says.
pub struct CliV {
    pub log: Seq<Seq<char>>,
    pub running: bool,
    pub last_device: Option<(Seq<char>, Seq<char>)>,
    pub conn_warning: Option<Seq<char>>,
    pub transfer: Option<TransferV>,
    pub transfer_done: bool,
    pub transfer_epoch: u64,
    pub summary_done_shown: bool,
}

/// What an optional pair of texts says.
pub open spec fn device_view(d: Option<(String, String)>) -> Option<(Seq<char>, Seq<char>)> {
    match d {
        Some(d) => Some((d.0@, d.1@)),
        None => None,
    }
}

/// What an optional transfer says.
pub open spec fn transfer_view(t: Option<TransferInfo>) -> Option<TransferV> {
    match t {
        Some(t) => Some(t@),
        None => None,
    }
}

impl View for CliState {
    type V = CliV;

    closed spec fn view(&self) -> CliV {
        CliV {
            log: text::views(self.log_lines@),
            running: self.running,
            last_device: device_view(self.last_device),
            conn_warning: tftp::text_view(self.conn_warning),
            transfer: transfer_view(self.transfer),
            transfer_done: self.transfer_done,
            transfer_epoch: self.transfer_epoch,
            summary_done_shown: self.summary_done_shown,
        }
    }
}

/// A log line is added; of more than 200 lines the oldest goes.
pub open spec fn log_pushed(log: Seq<Seq<char>>, line: Seq<char>) -> Seq<Seq<char>> {
    let all = log.push(line);
    if all.len() > LOG_KEEP_LINES {
        all.drop_first()
    } else {
        all
    }
}

/// What a report of a transfer changes: reports of other sessions are dropped, the end of a download
/// without error counts as done, and a new transfer takes that back.
pub open spec fn reported(c: CliV, epoch: u64, info: TransferV) -> CliV {
    if c.transfer_epoch != epoch {
        c
    } else if info.done {
        CliV {
            transfer_done: info.error is None && !info.is_upload,
            transfer: Some(info),
            ..c
        }
    } else {
        let fresh = match c.transfer {
            Some(prev) => prev.done || prev.file_name != info.file_name || prev.remote
                != info.remote,
            None => false,
        };
        CliV {
            transfer_done: c.transfer_done && !fresh,
            transfer: Some(info),
            ..c
        }
    }
}

/// The shared state after a session has stopped.
pub open spec fn stopped(c: CliV) -> CliV {
    CliV {
        running: false,
        last_device: None,
        conn_warning: None,
        transfer: None,
        transfer_done: false,
        summary_done_shown: false,
        transfer_epoch: (c.transfer_epoch + 1) as u64,
        ..c
    }
}

/// The shared state before the first session.
pub open spec fn initial_state() -> CliV {
    CliV {
        log: Seq::empty(),
        running: false,
        last_device: None,
        conn_warning: None,
        transfer: None,
        transfer_done: false,
        transfer_epoch: 0,
        summary_done_shown: false,
    }
}

impl Default for CliState {
    /// No session yet.
    fn default() -> (r: Self)
        ensures
            r@ == initial_state(),
    {
        let r = CliState {
            log_lines: VecDeque::new(),
            running: false,
            last_device: None,
            conn_warning: None,
            transfer: None,
            transfer_done: false,
            transfer_epoch: 0,
            summary_done_shown: false,
        };
        assert(r@.log =~= Seq::<Seq<char>>::empty());
        r
    }
}

impl CliState {
    /// Adds a log line.
    pub fn push_log(&mut self, line: String)
        ensures
            final(self)@ == (CliV { log: log_pushed(old(self)@.log, line@), ..old(self)@ }),
    {
        let ghost before = self@.log;
        let ghost lv = line@;
        self.log_lines.push_back(line);
        let ghost all = before.push(lv);
        assert(text::views(self.log_lines@) =~= all);
        if self.log_lines.len() > LOG_KEEP_LINES {
            let _ = self.log_lines.pop_front();
            assert(text::views(self.log_lines@) =~= all.drop_first());
        }
        assert(self@.log == log_pushed(before, lv));
    }

    /// The last `n` log lines, oldest first.
    pub fn last_lines(&self, n: usize) -> (r: Vec<String>)
        ensures
            text::views(r@) == last_of(self@.log, n as nat),
    {
        let len: usize = self.log_lines.len();
        let from: usize = if len > n {
            len - n
        } else {
            0
        };
        let ghost log = self@.log;
        let mut out: Vec<String> = Vec::new();
        let mut i: usize = from;
        assert(text::views(out@) =~= log.subrange(from as int, from as int));
        while i < len
            invariant
                len == self.log_lines@.len(),
                log == text::views(self.log_lines@),
                from <= i <= len,
                text::views(out@) == log.subrange(from as int, i as int),
            decreases len - i,
        {
            let ghost before = text::views(out@);
            let line: String = self.log_lines[i].clone();
            let ghost lv = line@;
            out.push(line);
            i = i + 1;
            proof {
                assert(text::views(out@) =~= before.push(lv));
                assert(log.subrange(from as int, i as int) =~= before.push(lv));
            }
        }
        assert(log.subrange(from as int, len as int) =~= last_of(log, n as nat));
        out
    }

    /// A device got an address.
    pub fn device_seen(&mut self, mac: &str, ip: u32)
        ensures
            final(self)@ == (CliV {
                last_device: Some((mac@, net::ip_text(ip))),
                ..old(self)@
            }),
    {
        self.last_device = Some((mac.to_owned(), net::ip_string(ip)));
    }

    /// The number of the session.
    pub fn epoch(&self) -> (r: u64)
        ensures
            r == self@.transfer_epoch,
    {
        self.transfer_epoch
    }

    /// The number of the session that starts now.
    pub fn next_epoch(&mut self) -> (r: u64)
        requires
            old(self)@.transfer_epoch < u64::MAX,
        ensures
            r == old(self)@.transfer_epoch + 1,
            final(self)@ == restarted(old(self)@),
    {
        self.transfer_epoch = self.transfer_epoch + 1;
        self.transfer_epoch
    }

    /// A transfer of session `epoch` reports how it stands.
    pub fn transfer_updated(&mut self, epoch: u64, info: TransferInfo)
        ensures
            final(self)@ == reported(old(self)@, epoch, info@),
    {
        if self.transfer_epoch != epoch {
            return ;
        }
        if info.done {
            self.transfer_done = info.error.is_none() && !info.is_upload;
        } else {
            let fresh: bool = match &self.transfer {
                Some(prev) => prev.done || !text::same(
                    prev.file_name.as_str(),
                    info.file_name.as_str(),
                ) || !text::same(prev.remote.as_str(), info.remote.as_str()),
                None => false,
            };
            if fresh {
                self.transfer_done = false;
            }
        }
        self.transfer = Some(info);
    }

    /// Whether a session runs.
    pub fn is_running(&self) -> (r: bool)
        ensures
            r == self@.running,
    {
        self.running
    }

    /// Whether a file was transferred to its end.
    pub fn is_done(&self) -> (r: bool)
        ensures
            r == self@.transfer_done,
    {
        self.transfer_done
    }

    /// The device that got an address last.
    pub fn device(&self) -> (r: &Option<(String, String)>)
        ensures
            device_view(*r) == self@.last_device,
    {
        &self.last_device
    }

    /// The warning about the connection.
    pub fn warning(&self) -> (r: &Option<String>)
        ensures
            tftp::text_view(*r) == self@.conn_warning,
    {
        &self.conn_warning
    }

    /// The transfer that reported last.
    pub fn current_transfer(&self) -> (r: &Option<TransferInfo>)
        ensures
            transfer_view(*r) == self@.transfer,
    {
        &self.transfer
    }

    /// Notes that the user was told that the transfer is done, and tells whether this is the first time.
    pub fn show_done_once(&mut self) -> (r: bool)
        ensures
            r == !old(self)@.summary_done_shown,
            final(self)@ == (CliV { summary_done_shown: true, ..old(self)@ }),
    {
        let first: bool = !self.summary_done_shown;
        self.summary_done_shown = true;
        first
    }

    /// The session runs.
    pub fn started(&mut self)
        ensures
            final(self)@ == (CliV { running: true, ..old(self)@ }),
    {
        self.running = true;
    }

    /// The session has stopped.
    pub fn stopped(&mut self)
        requires
            old(self)@.transfer_epoch < u64::MAX,
        ensures
            final(self)@ == stopped(old(self)@),
    {
        self.running = false;
        self.last_device = None;
        self.conn_warning = None;
        self.transfer = None;
        self.transfer_done = false;
        self.summary_done_shown = false;
        self.transfer_epoch = self.transfer_epoch + 1;
    }
}

/// The last `n` lines of a log.
pub open spec fn last_of(log: Seq<Seq<char>>, n: nat) -> Seq<Seq<char>> {
    if log.len() > n {
        log.skip(log.len() - n)
    } else {
        log
    }
}

/// The log never holds more than 200 lines, and always the latest.
pub proof fn lemma_log_is_bounded(log: Seq<Seq<char>>, line: Seq<char>)
    requires
        log.len() <= LOG_KEEP_LINES,
    ensures
        log_pushed(log, line).len() <= LOG_KEEP_LINES,
        log_pushed(log, line).last() == line,
        log_pushed(log, line) == last_of(log.push(line), LOG_KEEP_LINES as nat),
{
    let all = log.push(line);
    if all.len() > LOG_KEEP_LINES {
        assert(all.drop_first() =~= all.skip(1));
    }
}

/// The shared state when the next session starts.
pub open spec fn restarted(c: CliV) -> CliV {
    CliV { transfer_epoch: (c.transfer_epoch + 1) as u64, ..c }
}

/// A stop clears what was known of the session and raises the number of the session by one. What a
/// transfer of the session reports after that changes nothing, not even the end of a download without
/// error, and neither does it once the next session has started.
pub proof fn lemma_stop_ends_reports(c: CliV, info: TransferV)
    requires
        c.transfer_epoch + 2 <= u64::MAX,
    ensures
        ({
            let s = stopped(c);
            &&& s.transfer_epoch == c.transfer_epoch + 1
            &&& !s.running && s.transfer is None && !s.transfer_done && s.last_device is None
                && s.conn_warning is None && !s.summary_done_shown
            &&& reported(s, c.transfer_epoch, info) == s
            &&& restarted(s).transfer_epoch == c.transfer_epoch + 2
            &&& reported(restarted(s), c.transfer_epoch, info) == restarted(s)
        }),
{
}

/// A report of an earlier session is dropped: stopping and starting only raise the number of the
/// session, and a report with a lower number changes nothing.
pub proof fn lemma_late_reports_are_dropped(later: CliV, epoch: u64, info: TransferV)
    requires
        epoch < later.transfer_epoch,
    ensures
        reported(later, epoch, info) == later,
{
}

// ---------------------------------------------------------------- effects

/// A line for the log, or an empty one.
pub enum SessionEffect {
    Log(LogLevel, String),
    Blank,
}

/// What an effect says.
pub enum SessionEffectV {
    Log(LogLevel, Seq<char>),
    Blank,
}

impl View for SessionEffect {
    type V = SessionEffectV;

    open spec fn view(&self) -> SessionEffectV {
        match *self {
            SessionEffect::Log(l, s) => SessionEffectV::Log(l, s@),
            SessionEffect::Blank => SessionEffectV::Blank,
        }
    }
}

pub open spec fn effect_views(v: Seq<SessionEffect>) -> Seq<SessionEffectV> {
    v.map_values(|e: SessionEffect| e@)
}

fn emit(effects: &mut Vec<SessionEffect>, e: SessionEffect)
    ensures
        effect_views(final(effects)@) == effect_views(old(effects)@).push(e@),
{
    effects.push(e);
    assert(effect_views(effects@) =~= effect_views(old(effects)@).push(e@));
}

fn no_effects() -> (r: Vec<SessionEffect>)
    ensures
        effect_views(r@) == Seq::<SessionEffectV>::empty(),
{
    let v: Vec<SessionEffect> = Vec::new();
    assert(effect_views(v@) =~= Seq::<SessionEffectV>::empty());
    v
}

fn logged(level: LogLevel, line: String) -> (r: Vec<SessionEffect>)
    ensures
        effect_views(r@) == seq![SessionEffectV::Log(level, line@)],
{
    let mut v: Vec<SessionEffect> = no_effects();
    emit(&mut v, SessionEffect::Log(level, line));
    assert(effect_views(v@) =~= seq![SessionEffectV::Log(level, line@)]);
    v
}

// ---------------------------------------------------------------- the session

/// A running session.
pub struct Session {
    pub nic: NicInfo,
    /// The adapter as it was before; it is put back when the session stops.
    pub nic_snapshot: Option<NicInfo>,
    /// Unix second at which the session started.
    pub started_at: u64,
    pub idle_warned: bool,
    pub idle_repeat: u64,
    pub auto_stopped: bool,
    pub done_notified: bool,
    /// A menu is shown: the view is not drawn.
    pub modal: bool,
}

/// What a session says.
pub struct SessionV {
    pub nic: NicV,
    pub nic_snapshot: Option<NicV>,
    pub started_at: u64,
    pub idle_warned: bool,
    pub idle_repeat: u64,
    pub auto_stopped: bool,
    pub done_notified: bool,
    pub modal: bool,
}

/// What an optional adapter says.
pub open spec fn nic_view(n: Option<NicInfo>) -> Option<NicV> {
    match n {
        Some(n) => Some(n@),
        None => None,
    }
}

impl View for Session {
    type V = SessionV;

    open spec fn view(&self) -> SessionV {
        SessionV {
            nic: self.nic@,
            nic_snapshot: nic_view(self.nic_snapshot),
            started_at: self.started_at,
            idle_warned: self.idle_warned,
            idle_repeat: self.idle_repeat,
            auto_stopped: self.auto_stopped,
            done_notified: self.done_notified,
            modal: self.modal,
        }
    }
}

/// A session with this adapter that has not started yet.
pub open spec fn new_session(n: NicV) -> SessionV {
    SessionV {
        nic: n,
        nic_snapshot: Some(n),
        started_at: 0,
        idle_warned: false,
        idle_repeat: 0,
        auto_stopped: false,
        done_notified: false,
        modal: false,
    }
}

/// Seconds since the router was heard last; since the start where it was not heard yet.
pub open spec fn idle_seconds(now: u64, started_at: u64, last_activity: u64) -> u64 {
    let since = if last_activity == 0 {
        started_at
    } else {
        last_activity
    };
    if now > since {
        (now - since) as u64
    } else {
        0
    }
}

/// Seconds since the router was heard last.
pub fn idle(now: u64, started_at: u64, last_activity: u64) -> (r: u64)
    ensures
        r == idle_seconds(now, started_at, last_activity),
{
    let since: u64 = if last_activity == 0 {
        started_at
    } else {
        last_activity
    };
    if now > since {
        now - since
    } else {
        0
    }
}

/// Outcome of a look at the connection.
pub struct TickV {
    pub session: SessionV,
    pub cli: CliV,
    pub effects: Seq<SessionEffectV>,
    /// The session is to be stopped and the adapter put back.
    pub stop: bool,
}

/// The first warning that nothing is heard of the router.
pub open spec fn first_warning(idle: u64) -> Seq<char> {
    text::dec(idle as nat)
        + " 秒未检测到路由器 DHCP 请求：请确认网线已插入路由器 LAN 口，并让路由器进入刷机模式（按住 Reset 重新上电）。300 秒无活动将自动停止。\n若始终无设备：请检查安全软件是否拦截了本程序的 ARP/DHCP/TFTP 操作（可在安全软件中放行后重试）。"@
}

/// A further warning.
pub open spec fn repeated_warning(idle: u64) -> Seq<char> {
    "仍无设备活动（已等待 "@ + text::dec(idle as nat) + " 秒）……"@
}

/// What the view says meanwhile.
pub open spec fn shown_warning(idle: u64) -> Seq<char> {
    "已等待 "@ + text::dec(idle as nat)
        + " 秒未检测到路由器请求（300 秒无活动将自动停止）。"@
}

/// A look at the connection of a running session: a warning from 45 seconds of silence on, repeated
/// every 30 seconds, and the end of the session after 300.
pub open spec fn tick(s: SessionV, c: CliV, has_dhcp: bool, now: u64, last_activity: u64) -> TickV {
    let same = TickV { session: s, cli: c, effects: Seq::empty(), stop: false };
    if !c.running || !has_dhcp {
        same
    } else {
        let idle = idle_seconds(now, s.started_at, last_activity);
        if idle >= IDLE_AUTO_STOP_SECS {
            if s.auto_stopped {
                same
            } else {
                TickV {
                    session: SessionV { auto_stopped: true, ..s },
                    cli: c,
                    effects: seq![
                        if c.transfer_done {
                            SessionEffectV::Log(
                                LogLevel::Info,
                                "刷机已完成，监控超时（300 秒无 DHCP 活动），已恢复网卡配置。可断电重启路由器完成收尾。"@,
                            )
                        } else {
                            SessionEffectV::Log(
                                LogLevel::Error,
                                "300 秒未检测到路由器 DHCP 请求，已自动停止并恢复网卡配置。请检查网线连接与刷机模式后重试。"@,
                            )
                        },
                    ],
                    stop: true,
                }
            }
        } else if idle >= IDLE_WARN_SECS {
            let cycle = ((idle - IDLE_WARN_SECS) / IDLE_REPEAT_SECS as int) as u64;
            let shown = CliV { conn_warning: Some(shown_warning(idle)), ..c };
            if !s.idle_warned {
                TickV {
                    session: SessionV { idle_warned: true, idle_repeat: cycle, ..s },
                    cli: shown,
                    effects: seq![SessionEffectV::Log(LogLevel::Warn, first_warning(idle))],
                    stop: false,
                }
            } else if cycle > s.idle_repeat {
                TickV {
                    session: SessionV { idle_repeat: cycle, ..s },
                    cli: shown,
                    effects: seq![SessionEffectV::Log(LogLevel::Warn, repeated_warning(idle))],
                    stop: false,
                }
            } else {
                TickV { session: s, cli: shown, effects: Seq::empty(), stop: false }
            }
        } else {
            TickV {
                session: SessionV { idle_warned: false, idle_repeat: 0, ..s },
                cli: CliV { conn_warning: None, ..c },
                effects: Seq::empty(),
                stop: false,
            }
        }
    }
}

/// What is printed after a session has stopped by itself.
pub const AUTO_STOP_LINE: &'static str =
    "[自动停止] 5 分钟无设备活动，已停止刷机并恢复网卡配置。";

fn seconds_line(head: &str, seconds: u64, tail: &str) -> (r: String)
    ensures
        r@ == head@ + text::dec(seconds as nat) + tail@,
{
    let mut s: String = head.to_owned();
    text::push_dec(&mut s, seconds);
    s.append(tail);
    s
}

/// What the user reads when a file has arrived.
pub open spec fn done_lines() -> Seq<SessionEffectV> {
    seq![
        SessionEffectV::Blank,
        SessionEffectV::Log(LogLevel::Info, "[完成] 刷机完成！固件已成功传输到路由器。"@),
        SessionEffectV::Log(
            LogLevel::Info,
            "下一步：请断电重启路由器（拔掉电源再插上），蓝灯闪烁后常亮表示刷机成功。"@,
        ),
        SessionEffectV::Log(
            LogLevel::Info,
            "然后按 Enter 选择：停止服务并回到主菜单（推荐）/ 继续监控 / 退出程序。"@,
        ),
    ]
}

impl Session {
    /// A session with this adapter that has not started yet.
    pub fn new(nic: NicInfo) -> (r: Self)
        ensures
            r@ == new_session(nic@),
    {
        let snapshot: NicInfo = nic.copy();
        Session {
            nic,
            nic_snapshot: Some(snapshot),
            started_at: 0,
            idle_warned: false,
            idle_repeat: 0,
            auto_stopped: false,
            done_notified: false,
            modal: false,
        }
    }

    /// A session that stands for none: no adapter, nothing to put back.
    pub fn placeholder() -> (r: Self)
        ensures
            r@.nic_snapshot is None,
            r@.started_at == 0 && !r@.idle_warned && r@.idle_repeat == 0 && !r@.auto_stopped
                && !r@.done_notified && !r@.modal,
            r@.nic.name.len() == 0 && r@.nic.description.len() == 0 && r@.nic.mac.len() == 0,
            !r@.nic.up && !r@.nic.is_dhcp && r@.nic.link_speed == 0,
            r@.nic.ipv4 is None && r@.nic.ipv4_mask is None && r@.nic.gateway is None,
            r@.nic.dns.len() == 0,
    {
        Session {
            nic: NicInfo {
                name: String::new(),
                description: String::new(),
                mac: String::new(),
                up: false,
                is_dhcp: false,
                link_speed: 0,
                ipv4: None,
                ipv4_mask: None,
                gateway: None,
                dns: Vec::new(),
            },
            nic_snapshot: None,
            started_at: 0,
            idle_warned: false,
            idle_repeat: 0,
            auto_stopped: false,
            done_notified: false,
            modal: false,
        }
    }

    /// The session starts.
    pub fn begin(&mut self, now: u64)
        ensures
            final(self)@ == (SessionV { started_at: now, ..old(self)@ }),
    {
        self.started_at = now;
    }

    /// Looks at the connection. The second result tells that the session is to be stopped and the
    /// adapter put back.
    pub fn tick_connection(
        &mut self,
        cli: &mut CliState,
        has_dhcp: bool,
        now: u64,
        last_activity: u64,
    ) -> (r: (Vec<SessionEffect>, bool))
        ensures
            final(self)@ == tick(old(self)@, old(cli)@, has_dhcp, now, last_activity).session,
            final(cli)@ == tick(old(self)@, old(cli)@, has_dhcp, now, last_activity).cli,
            effect_views(r.0@) == tick(
                old(self)@,
                old(cli)@,
                has_dhcp,
                now,
                last_activity,
            ).effects,
            r.1 == tick(old(self)@, old(cli)@, has_dhcp, now, last_activity).stop,
    {
        if !cli.running || !has_dhcp {
            return (no_effects(), false);
        }
        let idle: u64 = idle(now, self.started_at, last_activity);
        if idle >= IDLE_AUTO_STOP_SECS {
            if self.auto_stopped {
                return (no_effects(), false);
            }
            self.auto_stopped = true;
            let effects: Vec<SessionEffect> = if cli.transfer_done {
                logged(
                    LogLevel::Info,
                    "刷机已完成，监控超时（300 秒无 DHCP 活动），已恢复网卡配置。可断电重启路由器完成收尾。".to_owned(),
                )
            } else {
                logged(
                    LogLevel::Error,
                    "300 秒未检测到路由器 DHCP 请求，已自动停止并恢复网卡配置。请检查网线连接与刷机模式后重试。".to_owned(),
                )
            };
            return (effects, true);
        }
        if idle >= IDLE_WARN_SECS {
            let cycle: u64 = (idle - IDLE_WARN_SECS) / IDLE_REPEAT_SECS;
            let mut effects: Vec<SessionEffect> = no_effects();
            if !self.idle_warned {
                self.idle_warned = true;
                self.idle_repeat = cycle;
                let line: String = seconds_line(
                    "",
                    idle,
                    " 秒未检测到路由器 DHCP 请求：请确认网线已插入路由器 LAN 口，并让路由器进入刷机模式（按住 Reset 重新上电）。300 秒无活动将自动停止。\n若始终无设备：请检查安全软件是否拦截了本程序的 ARP/DHCP/TFTP 操作（可在安全软件中放行后重试）。",
                );
                proof {
                    reveal_strlit("");
                    assert(line@ =~= first_warning(idle));
                }
                effects = logged(LogLevel::Warn, line);
            } else if cycle > self.idle_repeat {
                self.idle_repeat = cycle;
                let line: String = seconds_line(
                    "仍无设备活动（已等待 ",
                    idle,
                    " 秒）……",
                );
                effects = logged(LogLevel::Warn, line);
            }
            cli.conn_warning = Some(
                seconds_line(
                    "已等待 ",
                    idle,
                    " 秒未检测到路由器请求（300 秒无活动将自动停止）。",
                ),
            );
            return (effects, false);
        }
        self.idle_warned = false;
        self.idle_repeat = 0;
        cli.conn_warning = None;
        (no_effects(), false)
    }

    /// The session after the end of a transfer was told, and what is told.
    pub open spec fn notified(s: SessionV, transfer_done: bool) -> (SessionV, Seq<SessionEffectV>) {
        if transfer_done && !s.done_notified {
            (SessionV { done_notified: true, ..s }, done_lines())
        } else {
            (s, Seq::empty())
        }
    }

    /// Tells the user once that a file has arrived.
    pub fn notify_done(&mut self, transfer_done: bool) -> (r: Vec<SessionEffect>)
        ensures
            if !old(self)@.done_notified && transfer_done {
                final(self)@ == (SessionV { done_notified: true, ..old(self)@ }) && effect_views(
                    r@,
                ) == done_lines()
            } else {
                final(self)@ == old(self)@ && effect_views(r@) == Seq::<SessionEffectV>::empty()
            },
            (final(self)@, effect_views(r@)) == Self::notified(old(self)@, transfer_done),
    {
        let mut effects: Vec<SessionEffect> = no_effects();
        if self.done_notified || !transfer_done {
            return effects;
        }
        self.done_notified = true;
        emit(&mut effects, SessionEffect::Blank);
        emit(
            &mut effects,
            SessionEffect::Log(
                LogLevel::Info,
                "[完成] 刷机完成！固件已成功传输到路由器。".to_owned(),
            ),
        );
        emit(
            &mut effects,
            SessionEffect::Log(
                LogLevel::Info,
                "下一步：请断电重启路由器（拔掉电源再插上），蓝灯闪烁后常亮表示刷机成功。".to_owned(),
            ),
        );
        emit(
            &mut effects,
            SessionEffect::Log(
                LogLevel::Info,
                "然后按 Enter 选择：停止服务并回到主菜单（推荐）/ 继续监控 / 退出程序。".to_owned(),
            ),
        );
        assert(effect_views(effects@) =~= done_lines());
        effects
    }
}

// ---------------------------------------------------------------- laws of the watch

/// A session stops itself only after 300 seconds of silence, and only once: no later look stops it
/// again.
pub proof fn lemma_stops_itself_once(
    s: SessionV,
    c: CliV,
    has_dhcp: bool,
    now: u64,
    last_activity: u64,
    later_cli: CliV,
    later: u64,
    later_activity: u64,
)
    requires
        tick(s, c, has_dhcp, now, last_activity).stop,
    ensures
        c.running,
        idle_seconds(now, s.started_at, last_activity) >= IDLE_AUTO_STOP_SECS,
        ({
            let after = tick(s, c, has_dhcp, now, last_activity).session;
            !tick(after, later_cli, has_dhcp, later, later_activity).stop
        }),
{
}

/// The view warns exactly from 45 seconds of silence on, and a session that hears from the router in
/// time is neither warned about nor stopped.
pub proof fn lemma_warning_shown(
    s: SessionV,
    c: CliV,
    now: u64,
    last_activity: u64,
)
    requires
        c.running,
        idle_seconds(now, s.started_at, last_activity) < IDLE_AUTO_STOP_SECS,
    ensures
        ({
            let t = tick(s, c, true, now, last_activity);
            &&& !t.stop
            &&& t.cli.conn_warning is Some <==> idle_seconds(now, s.started_at, last_activity)
                >= IDLE_WARN_SECS
            &&& idle_seconds(now, s.started_at, last_activity) < IDLE_WARN_SECS ==> t.effects
                == Seq::<SessionEffectV>::empty() && !t.session.idle_warned
        }),
{
}

/// A silence is warned about once in every 30 seconds that it lasts beyond the first 45: a second look
/// within the same 30 seconds says nothing.
pub proof fn lemma_warning_not_repeated(
    s: SessionV,
    c: CliV,
    now: u64,
    last_activity: u64,
    later_cli: CliV,
    later: u64,
    later_activity: u64,
)
    requires
        c.running,
        ({
            let a = idle_seconds(now, s.started_at, last_activity);
            let b = idle_seconds(later, s.started_at, later_activity);
            &&& IDLE_WARN_SECS <= a < IDLE_AUTO_STOP_SECS
            &&& IDLE_WARN_SECS <= b < IDLE_AUTO_STOP_SECS
            &&& (b - IDLE_WARN_SECS) / IDLE_REPEAT_SECS as int <= (a - IDLE_WARN_SECS)
                / IDLE_REPEAT_SECS as int
        }),
    ensures
        ({
            let after = tick(s, c, true, now, last_activity).session;
            tick(after, later_cli, true, later, later_activity).effects == Seq::<
                SessionEffectV,
            >::empty()
        }),
{
}

} // verus!
