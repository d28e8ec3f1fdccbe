//! How a session starts, and how its adapter is put back.
//!
//! Starting is a walk through phases. Each phase waits for the outcome of one thing that the outside
//! does, and answers with lines for the log and the next thing to do. The servers come first and the
//! adapter last, so that a port that is taken is found before anything is changed.

use vstd::prelude::*;
use vstd::string::*;

use crate::config::{POOL_SIZE, POOL_START, POOL_START_VALUE, STATIC_IP, STATIC_MASK};
use crate::console;
use crate::dhcp;
use crate::elevated;
use crate::leases;
use crate::leases::{LeaseFile, LeaseRecordV};
use crate::log::LogLevel;
use crate::net;
use crate::nic;
use crate::nic::{NetshStep, NetshV, NicInfo, NicV};
use crate::session;
use crate::session::{CliState, CliV, Session, SessionEffect, SessionEffectV, SessionV};
use crate::text;

verus! {

// ---------------------------------------------------------------- starting

/// What a start waits for.
#[derive(Clone, Copy, PartialEq, Eq, Structural)]
pub enum StartPhase {
    /// The directory of the program.
    Directory,
    /// Whether the firmware file is there.
    Firmware,
    /// Whether it lies outside the directory of the program.
    Location,
    /// The copy of the firmware file.
    Copying,
    /// The stored leases.
    Leases,
    /// The DHCP server.
    Dhcp,
    /// The TFTP server.
    Tftp,
    /// Whether the program has administrator rights.
    Rights,
    /// The address of the adapter.
    Address,
    /// The firewall rule.
    Firewall,
    /// The helper process that does both.
    Helper,
    Running,
    Failed,
}

/// The outcome of what the outside did.
pub enum StartEvent {
    Directory(bool),
    Firmware(bool),
    Location(bool),
    /// Where the copy is, or why there is none.
    Copied(Result<String, String>),
    Leases(LeaseFile),
    Dhcp(Result<(), String>),
    Tftp(Result<(), String>),
    Rights(bool),
    Address(Result<(), String>),
    Firewall(Result<(), String>),
    Helper(Result<(), String>),
}

/// What an event says.
pub enum StartEventV {
    Directory(bool),
    Firmware(bool),
    Location(bool),
    Copied(Result<Seq<char>, Seq<char>>),
    Leases(Seq<LeaseRecordV>),
    Dhcp(Result<(), Seq<char>>),
    Tftp(Result<(), Seq<char>>),
    Rights(bool),
    Address(Result<(), Seq<char>>),
    Firewall(Result<(), Seq<char>>),
    Helper(Result<(), Seq<char>>),
}

/// What a result says.
pub open spec fn result_view(r: Result<(), String>) -> Result<(), Seq<char>> {
    match r {
        Ok(_) => Ok(()),
        Err(e) => Err(e@),
    }
}

impl View for StartEvent {
    type V = StartEventV;

    open spec fn view(&self) -> StartEventV {
        match *self {
            StartEvent::Directory(b) => StartEventV::Directory(b),
            StartEvent::Firmware(b) => StartEventV::Firmware(b),
            StartEvent::Location(b) => StartEventV::Location(b),
            StartEvent::Copied(r) => StartEventV::Copied(
                match r {
                    Ok(s) => Ok(s@),
                    Err(e) => Err(e@),
                },
            ),
            StartEvent::Leases(f) => StartEventV::Leases(f@),
            StartEvent::Dhcp(r) => StartEventV::Dhcp(result_view(r)),
            StartEvent::Tftp(r) => StartEventV::Tftp(result_view(r)),
            StartEvent::Rights(b) => StartEventV::Rights(b),
            StartEvent::Address(r) => StartEventV::Address(result_view(r)),
            StartEvent::Firewall(r) => StartEventV::Firewall(result_view(r)),
            StartEvent::Helper(r) => StartEventV::Helper(result_view(r)),
        }
    }
}

/// What is undone when a start fails.
#[derive(Clone, Copy, PartialEq, Eq, Structural)]
pub enum Undo {
    Nothing,
    /// The incomplete copy of the firmware file is removed.
    RemoveCopy,
    /// The session is stopped; where `restore`, the adapter is put back too.
    Stop { restore: bool },
}

/// What the outside does next.
pub enum StartNext {
    CheckFirmware,
    Locate,
    Copy,
    LoadLeases,
    /// With these leases of earlier sessions.
    StartDhcp(Vec<(String, u32, u64)>),
    StartTftp,
    CheckRights,
    SetAddress(NetshStep),
    OpenFirewall,
    /// With these arguments.
    RunHelper(Vec<String>),
    Run,
    Fail { message: String, undo: Undo },
}

/// What comes next, as it reads.
pub enum StartNextV {
    CheckFirmware,
    Locate,
    Copy,
    LoadLeases,
    StartDhcp(Seq<(Seq<char>, u32, u64)>),
    StartTftp,
    CheckRights,
    SetAddress(NetshV),
    OpenFirewall,
    RunHelper(Seq<Seq<char>>),
    Run,
    Fail(Seq<char>, Undo),
}

impl View for StartNext {
    type V = StartNextV;

    open spec fn view(&self) -> StartNextV {
        match *self {
            StartNext::CheckFirmware => StartNextV::CheckFirmware,
            StartNext::Locate => StartNextV::Locate,
            StartNext::Copy => StartNextV::Copy,
            StartNext::LoadLeases => StartNextV::LoadLeases,
            StartNext::StartDhcp(v) => StartNextV::StartDhcp(dhcp::record_views(v@)),
            StartNext::StartTftp => StartNextV::StartTftp,
            StartNext::CheckRights => StartNextV::CheckRights,
            StartNext::SetAddress(s) => StartNextV::SetAddress(s@),
            StartNext::OpenFirewall => StartNextV::OpenFirewall,
            StartNext::RunHelper(v) => StartNextV::RunHelper(text::views(v@)),
            StartNext::Run => StartNextV::Run,
            StartNext::Fail { message, undo } => StartNextV::Fail(message@, undo),
        }
    }
}

/// Outcome of an event.
pub struct StartStepV {
    pub phase: StartPhase,
    pub effects: Seq<SessionEffectV>,
    pub next: StartNextV,
}

/// The phase waits for this kind of event.
pub open spec fn expected(phase: StartPhase, e: StartEventV) -> bool {
    match e {
        StartEventV::Directory(_) => phase == StartPhase::Directory,
        StartEventV::Firmware(_) => phase == StartPhase::Firmware,
        StartEventV::Location(_) => phase == StartPhase::Location,
        StartEventV::Copied(_) => phase == StartPhase::Copying,
        StartEventV::Leases(_) => phase == StartPhase::Leases,
        StartEventV::Dhcp(_) => phase == StartPhase::Dhcp,
        StartEventV::Tftp(_) => phase == StartPhase::Tftp,
        StartEventV::Rights(_) => phase == StartPhase::Rights,
        StartEventV::Address(_) => phase == StartPhase::Address,
        StartEventV::Firewall(_) => phase == StartPhase::Firewall,
        StartEventV::Helper(_) => phase == StartPhase::Helper,
    }
}

/// The start goes on.
pub open spec fn go(phase: StartPhase, effects: Seq<SessionEffectV>, next: StartNextV) -> StartStepV {
    StartStepV { phase, effects, next }
}

/// The start fails.
pub open spec fn fail(message: Seq<char>, undo: Undo) -> StartStepV {
    StartStepV {
        phase: StartPhase::Failed,
        effects: Seq::empty(),
        next: StartNextV::Fail(message, undo),
    }
}

pub open spec fn info(s: Seq<char>) -> SessionEffectV {
    SessionEffectV::Log(LogLevel::Info, s)
}

/// What the user reads when the session runs.
pub open spec fn running_lines() -> Seq<SessionEffectV> {
    seq![
        SessionEffectV::Blank,
        info(
            "刷机服务已启动（DHCP 地址池 "@ + POOL_START@ + " - "@ + net::ip_text(
                net::pool_address(POOL_START_VALUE, POOL_SIZE - 1),
            ) + "，TFTP 根目录为程序目录）。"@,
        ),
        info("连接检查已开启：45 秒无路由器请求将告警，300 秒无活动自动停止。"@),
        info(
            "请确认：路由器已通电，网线已连接电脑和路由器 LAN 口（刷机时请不要插外网网线）。"@,
        ),
        info(
            "刷机方法：拔掉路由器电源 → 按住 Reset 键不松手 → 重新上电 → 等待指示灯进入刷机流程后松开 Reset（Mesh 机型等紫灯常亮再松开）。"@,
        ),
        info(
            "请稍等几分钟，路由器蓝灯闪烁表示刷机成功，然后请断电重启路由器！"@,
        ),
    ]
}

/// What an event leads to in a start with this adapter and this firmware file.
pub open spec fn advance(n: NicV, firmware: Seq<char>, e: StartEventV) -> StartStepV {
    match e {
        StartEventV::Directory(found) => if found {
            go(StartPhase::Firmware, Seq::empty(), StartNextV::CheckFirmware)
        } else {
            fail("无法确定程序目录"@, Undo::Nothing)
        },
        StartEventV::Firmware(is_file) => if is_file {
            go(
                StartPhase::Location,
                if !n.up || n.link_speed == 0 {
                    seq![
                        SessionEffectV::Log(
                            LogLevel::Warn,
                            "[!] 网卡链路无信号（可能未插网线或路由器未上电）。刷机中 45 秒无请求会告警，300 秒自动停止。"@,
                        ),
                    ]
                } else {
                    Seq::empty()
                },
                StartNextV::Locate,
            )
        } else {
            fail("刷机包文件不存在："@ + firmware, Undo::Nothing)
        },
        StartEventV::Location(outside) => if outside {
            go(StartPhase::Copying, Seq::empty(), StartNextV::Copy)
        } else {
            go(StartPhase::Leases, Seq::empty(), StartNextV::LoadLeases)
        },
        StartEventV::Copied(r) => match r {
            Ok(dest) => go(
                StartPhase::Leases,
                seq![info("已将刷机包复制到程序目录："@ + dest)],
                StartNextV::LoadLeases,
            ),
            Err(e) => fail("无法将刷机包复制到程序目录："@ + e, Undo::RemoveCopy),
        },
        StartEventV::Leases(file) => {
            let records = leases::readable(file);
            go(
                StartPhase::Dhcp,
                if records.len() > 0 {
                    seq![info("已载入 "@ + text::dec(records.len()) + " 条历史租约"@)]
                } else {
                    Seq::empty()
                },
                StartNextV::StartDhcp(records),
            )
        },
        StartEventV::Dhcp(r) => match r {
            Ok(_) => go(StartPhase::Tftp, Seq::empty(), StartNextV::StartTftp),
            Err(e) => fail(
                "DHCP 启动失败："@ + e
                    + "。\n  排查：端口 67 可能被其他 DHCP 软件或安全软件占用/拦截；请关闭其他 DHCP 服务，或在安全软件中放行本程序后重试。"@,
                Undo::Stop { restore: false },
            ),
        },
        StartEventV::Tftp(r) => match r {
            Ok(_) => go(
                StartPhase::Rights,
                seq![
                    info(
                        "正在配置网卡「"@ + n.name + "」为 "@ + STATIC_IP@ + "/"@ + STATIC_MASK@
                            + " ..."@,
                    ),
                    SessionEffectV::Log(
                        LogLevel::Debug,
                        "netsh: "@ + nic::set_static_command(n.name),
                    ),
                ],
                StartNextV::CheckRights,
            ),
            Err(e) => fail(
                "TFTP 启动失败："@ + e
                    + "。\n  排查：端口 69 可能被其他 TFTP 软件或安全软件占用/拦截；请关闭其他 TFTP 服务，或在安全软件中放行本程序后重试。"@,
                Undo::Stop { restore: false },
            ),
        },
        StartEventV::Rights(admin) => if admin {
            go(
                StartPhase::Address,
                Seq::empty(),
                StartNextV::SetAddress(nic::plain_step(nic::set_static_command(n.name))),
            )
        } else {
            go(
                StartPhase::Helper,
                seq![
                    info(
                        "正在请求管理员权限（仅用于设置网卡与防火墙，不离开当前窗口）..."@,
                    ),
                ],
                StartNextV::RunHelper(seq![elevated::quoted_value("--nic"@, n.name)]),
            )
        },
        StartEventV::Address(r) => match r {
            Ok(_) => go(StartPhase::Firewall, Seq::empty(), StartNextV::OpenFirewall),
            Err(e) => fail(
                "修改网卡失败："@ + e
                    + "\n  排查：可能被安全软件拦截 netsh/网络配置；请在本机安全软件中放行后重试。"@,
                Undo::Stop { restore: true },
            ),
        },
        StartEventV::Firewall(r) => match r {
            Ok(_) => go(StartPhase::Running, running_lines(), StartNextV::Run),
            Err(e) => fail(
                "配置防火墙失败："@ + e
                    + "\n  排查：可能被安全软件拦截防火墙规则修改；请手动放行 UDP 67/69 入站，或在安全软件中放行后重试。"@,
                Undo::Stop { restore: true },
            ),
        },
        StartEventV::Helper(r) => match r {
            Ok(_) => go(
                StartPhase::Running,
                seq![info("网卡与防火墙已配置（提权操作完成）。"@)] + running_lines(),
                StartNextV::Run,
            ),
            Err(e) => fail(
                "设置网卡失败："@ + e
                    + "\n  排查：UAC 被取消/被安全软件拦截，或 netsh 被拦截。\n  已尝试恢复原网卡配置；若网络异常请重启程序重试，或在安全软件中放行后重试。"@,
                Undo::Stop { restore: false },
            ),
        },
    }
}

/// A start under way.
pub struct Starting {
    pub nic: NicInfo,
    /// Path of the firmware file.
    pub firmware: String,
    pub phase: StartPhase,
}

fn say(effects: &mut Vec<SessionEffect>, level: LogLevel, line: String)
    ensures
        session::effect_views(final(effects)@) == session::effect_views(old(effects)@).push(
            SessionEffectV::Log(level, line@),
        ),
{
    effects.push(SessionEffect::Log(level, line));
    assert(session::effect_views(effects@) =~= session::effect_views(old(effects)@).push(
        SessionEffectV::Log(level, line@),
    ));
}

fn silent() -> (r: Vec<SessionEffect>)
    ensures
        session::effect_views(r@) == Seq::<SessionEffectV>::empty(),
{
    let v: Vec<SessionEffect> = Vec::new();
    assert(session::effect_views(v@) =~= Seq::<SessionEffectV>::empty());
    v
}

fn said(level: LogLevel, line: String) -> (r: Vec<SessionEffect>)
    ensures
        session::effect_views(r@) == seq![SessionEffectV::Log(level, line@)],
{
    let mut v: Vec<SessionEffect> = silent();
    say(&mut v, level, line);
    assert(session::effect_views(v@) =~= seq![SessionEffectV::Log(level, line@)]);
    v
}

fn around(head: &str, middle: &str, tail: &str) -> (r: String)
    ensures
        r@ == head@ + middle@ + tail@,
{
    let mut s: String = head.to_owned();
    s.append(middle);
    s.append(tail);
    s
}

fn behind(head: &str, tail: &str) -> (r: String)
    ensures
        r@ == head@ + tail@,
{
    let mut s: String = head.to_owned();
    s.append(tail);
    s
}

fn say_running(effects: &mut Vec<SessionEffect>)
    ensures
        session::effect_views(final(effects)@) == session::effect_views(old(effects)@)
            + running_lines(),
{
    let ghost before = session::effect_views(effects@);
    effects.push(SessionEffect::Blank);
    assert(session::effect_views(effects@) =~= before.push(SessionEffectV::Blank));
    let end: String = console::pool_end();
    let mut first: String = "刷机服务已启动（DHCP 地址池 ".to_owned();
    first.append(POOL_START);
    first.append(" - ");
    first.append(end.as_str());
    first.append("，TFTP 根目录为程序目录）。");
    say(effects, LogLevel::Info, first);
    say(
        effects,
        LogLevel::Info,
        "连接检查已开启：45 秒无路由器请求将告警，300 秒无活动自动停止。".to_owned(),
    );
    say(
        effects,
        LogLevel::Info,
        "请确认：路由器已通电，网线已连接电脑和路由器 LAN 口（刷机时请不要插外网网线）。".to_owned(),
    );
    say(
        effects,
        LogLevel::Info,
        "刷机方法：拔掉路由器电源 → 按住 Reset 键不松手 → 重新上电 → 等待指示灯进入刷机流程后松开 Reset（Mesh 机型等紫灯常亮再松开）。".to_owned(),
    );
    say(
        effects,
        LogLevel::Info,
        "请稍等几分钟，路由器蓝灯闪烁表示刷机成功，然后请断电重启路由器！".to_owned(),
    );
    assert(session::effect_views(effects@) =~= before + running_lines());
}

impl Starting {
    /// A start that has not begun; it waits for the directory of the program.
    pub fn new(nic: NicInfo, firmware: String) -> (r: Self)
        ensures
            r.nic@ == nic@,
            r.firmware@ == firmware@,
            r.phase == StartPhase::Directory,
    {
        Starting { nic, firmware, phase: StartPhase::Directory }
    }

    fn go(&mut self, phase: StartPhase, effects: Vec<SessionEffect>, next: StartNext) -> (r: (
        Vec<SessionEffect>,
        StartNext,
    ))
        ensures
            final(self).phase == phase,
            final(self).nic == old(self).nic,
            final(self).firmware == old(self).firmware,
            r == (effects, next),
    {
        self.phase = phase;
        (effects, next)
    }

    fn fail(&mut self, message: String, undo: Undo) -> (r: (Vec<SessionEffect>, StartNext))
        ensures
            final(self).phase == StartPhase::Failed,
            final(self).nic == old(self).nic,
            final(self).firmware == old(self).firmware,
            session::effect_views(r.0@) == Seq::<SessionEffectV>::empty(),
            r.1@ == StartNextV::Fail(message@, undo),
    {
        self.phase = StartPhase::Failed;
        (silent(), StartNext::Fail { message, undo })
    }

    /// Goes on with what the outside did.
    pub fn start_session(&mut self, event: StartEvent) -> (r: (Vec<SessionEffect>, StartNext))
        requires
            expected(old(self).phase, event@),
        ensures
            final(self).nic == old(self).nic,
            final(self).firmware == old(self).firmware,
            final(self).phase == advance(old(self).nic@, old(self).firmware@, event@).phase,
            session::effect_views(r.0@) == advance(
                old(self).nic@,
                old(self).firmware@,
                event@,
            ).effects,
            r.1@ == advance(old(self).nic@, old(self).firmware@, event@).next,
    {
        match event {
            StartEvent::Directory(found) => {
                if !found {
                    return self.fail("无法确定程序目录".to_owned(), Undo::Nothing);
                }
                self.go(StartPhase::Firmware, silent(), StartNext::CheckFirmware)
            },
            StartEvent::Firmware(is_file) => {
                if !is_file {
                    let message: String = behind(
                        "刷机包文件不存在：",
                        self.firmware.as_str(),
                    );
                    return self.fail(message, Undo::Nothing);
                }
                let effects: Vec<SessionEffect> = if !self.nic.up || self.nic.link_speed == 0 {
                    said(
                        LogLevel::Warn,
                        "[!] 网卡链路无信号（可能未插网线或路由器未上电）。刷机中 45 秒无请求会告警，300 秒自动停止。".to_owned(),
                    )
                } else {
                    silent()
                };
                self.go(StartPhase::Location, effects, StartNext::Locate)
            },
            StartEvent::Location(outside) => {
                if outside {
                    self.go(StartPhase::Copying, silent(), StartNext::Copy)
                } else {
                    self.go(StartPhase::Leases, silent(), StartNext::LoadLeases)
                }
            },
            StartEvent::Copied(r) => match r {
                Ok(dest) => {
                    let line: String = behind(
                        "已将刷机包复制到程序目录：",
                        dest.as_str(),
                    );
                    self.go(StartPhase::Leases, said(LogLevel::Info, line), StartNext::LoadLeases)
                },
                Err(e) => {
                    let message: String = behind(
                        "无法将刷机包复制到程序目录：",
                        e.as_str(),
                    );
                    self.fail(message, Undo::RemoveCopy)
                },
            },
            StartEvent::Leases(file) => {
                let records: Vec<(String, u32, u64)> = leases::from_file(&file);
                assert(dhcp::record_views(records@).len() == records@.len());
                let effects: Vec<SessionEffect> = if records.len() > 0 {
                    let count: String = text::u64_text(records.len() as u64);
                    said(
                        LogLevel::Info,
                        around("已载入 ", count.as_str(), " 条历史租约"),
                    )
                } else {
                    silent()
                };
                self.go(StartPhase::Dhcp, effects, StartNext::StartDhcp(records))
            },
            StartEvent::Dhcp(r) => match r {
                Ok(_) => self.go(StartPhase::Tftp, silent(), StartNext::StartTftp),
                Err(e) => {
                    let message: String = around(
                        "DHCP 启动失败：",
                        e.as_str(),
                        "。\n  排查：端口 67 可能被其他 DHCP 软件或安全软件占用/拦截；请关闭其他 DHCP 服务，或在安全软件中放行本程序后重试。",
                    );
                    self.fail(message, Undo::Stop { restore: false })
                },
            },
            StartEvent::Tftp(r) => match r {
                Ok(_) => {
                    let mut first: String = around(
                        "正在配置网卡「",
                        self.nic.name.as_str(),
                        "」为 ",
                    );
                    first.append(STATIC_IP);
                    first.append("/");
                    first.append(STATIC_MASK);
                    first.append(" ...");
                    let step: NetshStep = nic::set_static(self.nic.name.as_str());
                    let second: String = behind("netsh: ", step.args.as_str());
                    let ghost fv = first@;
                    let ghost sv = second@;
                    let mut effects: Vec<SessionEffect> = said(LogLevel::Info, first);
                    say(&mut effects, LogLevel::Debug, second);
                    assert(session::effect_views(effects@) =~= seq![
                        info(fv),
                        SessionEffectV::Log(LogLevel::Debug, sv),
                    ]);
                    self.go(StartPhase::Rights, effects, StartNext::CheckRights)
                },
                Err(e) => {
                    let message: String = around(
                        "TFTP 启动失败：",
                        e.as_str(),
                        "。\n  排查：端口 69 可能被其他 TFTP 软件或安全软件占用/拦截；请关闭其他 TFTP 服务，或在安全软件中放行本程序后重试。",
                    );
                    self.fail(message, Undo::Stop { restore: false })
                },
            },
            StartEvent::Rights(admin) => {
                if admin {
                    let step: NetshStep = nic::set_static(self.nic.name.as_str());
                    self.go(StartPhase::Address, silent(), StartNext::SetAddress(step))
                } else {
                    let effects: Vec<SessionEffect> = said(
                        LogLevel::Info,
                        "正在请求管理员权限（仅用于设置网卡与防火墙，不离开当前窗口）...".to_owned(),
                    );
                    let args: Vec<String> = elevated::set_args(self.nic.name.as_str());
                    self.go(StartPhase::Helper, effects, StartNext::RunHelper(args))
                }
            },
            StartEvent::Address(r) => match r {
                Ok(_) => self.go(StartPhase::Firewall, silent(), StartNext::OpenFirewall),
                Err(e) => {
                    let message: String = around(
                        "修改网卡失败：",
                        e.as_str(),
                        "\n  排查：可能被安全软件拦截 netsh/网络配置；请在本机安全软件中放行后重试。",
                    );
                    self.fail(message, Undo::Stop { restore: true })
                },
            },
            StartEvent::Firewall(r) => match r {
                Ok(_) => {
                    let mut effects: Vec<SessionEffect> = silent();
                    say_running(&mut effects);
                    assert(session::effect_views(effects@) =~= running_lines());
                    self.go(StartPhase::Running, effects, StartNext::Run)
                },
                Err(e) => {
                    let message: String = around(
                        "配置防火墙失败：",
                        e.as_str(),
                        "\n  排查：可能被安全软件拦截防火墙规则修改；请手动放行 UDP 67/69 入站，或在安全软件中放行后重试。",
                    );
                    self.fail(message, Undo::Stop { restore: true })
                },
            },
            StartEvent::Helper(r) => match r {
                Ok(_) => {
                    let mut effects: Vec<SessionEffect> = said(
                        LogLevel::Info,
                        "网卡与防火墙已配置（提权操作完成）。".to_owned(),
                    );
                    say_running(&mut effects);
                    self.go(StartPhase::Running, effects, StartNext::Run)
                },
                Err(e) => {
                    let message: String = around(
                        "设置网卡失败：",
                        e.as_str(),
                        "\n  排查：UAC 被取消/被安全软件拦截，或 netsh 被拦截。\n  已尝试恢复原网卡配置；若网络异常请重启程序重试，或在安全软件中放行后重试。",
                    );
                    self.fail(message, Undo::Stop { restore: false })
                },
            },
        }
    }
}

// ---------------------------------------------------------------- what a start changes

/// The session and the shared state once a start goes on with `next`: the number of the session is
/// raised when its leases are loaded, and the session runs, since `now`, when all is set up.
pub open spec fn applied(next: StartNextV, s: SessionV, c: CliV, now: u64) -> (SessionV, CliV) {
    match next {
        StartNextV::LoadLeases => (s, session::restarted(c)),
        StartNextV::Run => (SessionV { started_at: now, ..s }, CliV { running: true, ..c }),
        _ => (s, c),
    }
}

/// Notes in the session and in the shared state that a start goes on with `next`. Gives the number of
/// the session, which its transfers report under.
pub fn apply_start(next: &StartNext, s: &mut Session, c: &mut CliState, now: u64) -> (r: u64)
    requires
        next@ is LoadLeases ==> old(c)@.transfer_epoch < u64::MAX,
    ensures
        (final(s)@, final(c)@) == applied(next@, old(s)@, old(c)@, now),
        r == final(c)@.transfer_epoch,
{
    match next {
        StartNext::LoadLeases => {
            let _ = c.next_epoch();
        },
        StartNext::Run => {
            s.begin(now);
            c.started();
        },
        _ => {},
    }
    c.epoch()
}

// ---------------------------------------------------------------- laws of starting

/// The phase after some events.
pub open spec fn phase_after(n: NicV, firmware: Seq<char>, events: Seq<StartEventV>) -> StartPhase {
    if events.len() == 0 {
        StartPhase::Directory
    } else {
        advance(n, firmware, events.last()).phase
    }
}

/// Every event came in a phase that waited for it.
pub open spec fn orderly(n: NicV, firmware: Seq<char>, events: Seq<StartEventV>) -> bool {
    forall|i: int|
        0 <= i < events.len() ==> expected(
            phase_after(n, firmware, events.take(i)),
            #[trigger] events[i],
        )
}

/// The event tells that the DHCP server has been started.
pub open spec fn dhcp_started(e: StartEventV) -> bool {
    e matches StartEventV::Dhcp(r) && r is Ok
}

/// The event tells that the TFTP server has been started.
pub open spec fn tftp_started(e: StartEventV) -> bool {
    e matches StartEventV::Tftp(r) && r is Ok
}

/// Both servers have been started.
pub open spec fn servers_started(events: Seq<StartEventV>) -> bool {
    &&& exists|i: int| 0 <= i < events.len() && dhcp_started(#[trigger] events[i])
    &&& exists|i: int| 0 <= i < events.len() && tftp_started(#[trigger] events[i])
}

/// The adapter may have been touched.
pub open spec fn at_adapter(p: StartPhase) -> bool {
    p == StartPhase::Rights || p == StartPhase::Address || p == StartPhase::Firewall || p
        == StartPhase::Helper || p == StartPhase::Running
}

proof fn lemma_reaches_adapter(n: NicV, firmware: Seq<char>, phase: StartPhase, e: StartEventV)
    requires
        expected(phase, e),
        at_adapter(advance(n, firmware, e).phase),
    ensures
        tftp_started(e) || at_adapter(phase),
{
}

proof fn lemma_reaches_tftp(n: NicV, firmware: Seq<char>, e: StartEventV)
    requires
        advance(n, firmware, e).phase == StartPhase::Tftp,
    ensures
        dhcp_started(e),
{
}

/// The adapter is not touched, and no administrator rights are asked for, before both servers have
/// been started.
pub proof fn lemma_servers_before_adapter(
    n: NicV,
    firmware: Seq<char>,
    events: Seq<StartEventV>,
)
    requires
        orderly(n, firmware, events),
        at_adapter(phase_after(n, firmware, events)),
    ensures
        servers_started(events),
    decreases events.len(),
{
    let k = events.len() - 1;
    let init = events.take(k);
    let last = events[k];
    let before = phase_after(n, firmware, init);
    lemma_orderly_prefix(n, firmware, events, k);
    assert(expected(before, last));
    lemma_reaches_adapter(n, firmware, before, last);
    if tftp_started(last) {
        // the phase before waited for the TFTP server, so the event before was the DHCP server
        assert(before == StartPhase::Tftp);
        assert(init.len() > 0);
        assert(init.last() == events[k - 1]);
        lemma_reaches_tftp(n, firmware, events[k - 1]);
        assert(dhcp_started(events[k - 1]) && tftp_started(events[k]));
    } else {
        lemma_servers_before_adapter(n, firmware, init);
        let i = choose|i: int|
            0 <= i < init.len() && dhcp_started(#[trigger] init[i]);
        let j = choose|j: int|
            0 <= j < init.len() && tftp_started(#[trigger] init[j]);
        assert(dhcp_started(events[i]));
        assert(tftp_started(events[j]));
    }
}

proof fn lemma_orderly_prefix(
    n: NicV,
    firmware: Seq<char>,
    events: Seq<StartEventV>,
    k: int,
)
    requires
        orderly(n, firmware, events),
        0 <= k <= events.len(),
    ensures
        orderly(n, firmware, events.take(k)),
{
    let p = events.take(k);
    assert forall|i: int| 0 <= i < p.len() implies expected(
        phase_after(n, firmware, p.take(i)),
        #[trigger] p[i],
    ) by {
        assert(p.take(i) =~= events.take(i));
        assert(p[i] == events[i]);
    }
}

/// The session and the shared state after some events, each with the time at which it came.
pub open spec fn states_after(
    n: NicV,
    firmware: Seq<char>,
    events: Seq<StartEventV>,
    s: SessionV,
    c: CliV,
    times: spec_fn(int) -> u64,
) -> (SessionV, CliV)
    decreases events.len(),
{
    if events.len() == 0 {
        (s, c)
    } else {
        let before = states_after(n, firmware, events.drop_last(), s, c, times);
        applied(
            advance(n, firmware, events.last()).next,
            before.0,
            before.1,
            times(events.len() - 1),
        )
    }
}

/// The leases have been loaded, or are being loaded.
pub open spec fn numbered(p: StartPhase) -> bool {
    p == StartPhase::Leases || p == StartPhase::Dhcp || p == StartPhase::Tftp || p
        == StartPhase::Rights || p == StartPhase::Address || p == StartPhase::Firewall || p
        == StartPhase::Helper || p == StartPhase::Running
}

proof fn lemma_numbered(n: NicV, firmware: Seq<char>, phase: StartPhase, e: StartEventV)
    requires
        expected(phase, e),
    ensures
        ({
            let w = advance(n, firmware, e);
            &&& w.next is LoadLeases <==> numbered(w.phase) && !numbered(phase)
            &&& w.next is Run <==> w.phase == StartPhase::Running
            &&& phase != StartPhase::Running
            &&& numbered(phase) && w.phase != StartPhase::Failed ==> numbered(w.phase)
        }),
{
}

/// Every start raises the number of the session by one before it starts a server, and the session runs
/// exactly where the start has come to its end, since the time of its last event. Until then nothing
/// else of the session or of the shared state changes.
pub proof fn lemma_start_raises_number(
    n: NicV,
    firmware: Seq<char>,
    events: Seq<StartEventV>,
    s: SessionV,
    c: CliV,
    times: spec_fn(int) -> u64,
)
    requires
        orderly(n, firmware, events),
        phase_after(n, firmware, events) != StartPhase::Failed,
    ensures
        ({
            let p = phase_after(n, firmware, events);
            let after = states_after(n, firmware, events, s, c, times);
            if p == StartPhase::Running {
                after == (
                    SessionV { started_at: times(events.len() - 1), ..s },
                    CliV { running: true, ..session::restarted(c) },
                )
            } else if numbered(p) {
                after == (s, session::restarted(c))
            } else {
                after == (s, c)
            }
        }),
    decreases events.len(),
{
    if events.len() > 0 {
        let k = events.len() - 1;
        let init = events.take(k);
        assert(events.drop_last() =~= init);
        lemma_orderly_prefix(n, firmware, events, k);
        let before = phase_after(n, firmware, init);
        assert(expected(before, events[k]));
        lemma_numbered(n, firmware, before, events[k]);
        lemma_start_raises_number(n, firmware, init, s, c, times);
    }
}

/// A start that fails undoes what it has done: where this process has touched the adapter, the session
/// is stopped and the adapter put back; where only the servers were started, or a helper process that
/// puts the adapter back itself has failed, the session is stopped; an incomplete copy is removed.
pub proof fn lemma_failure_is_undone(n: NicV, firmware: Seq<char>, phase: StartPhase, e: StartEventV)
    requires
        expected(phase, e),
        advance(n, firmware, e).phase == StartPhase::Failed,
    ensures
        advance(n, firmware, e).next matches StartNextV::Fail(_, undo) && undo == (if phase
            == StartPhase::Address || phase == StartPhase::Firewall {
            Undo::Stop { restore: true }
        } else if phase == StartPhase::Dhcp || phase == StartPhase::Tftp || phase
            == StartPhase::Helper {
            Undo::Stop { restore: false }
        } else if phase == StartPhase::Copying {
            Undo::RemoveCopy
        } else {
            Undo::Nothing
        }),
{
}

// ---------------------------------------------------------------- stopping

/// How an adapter is put back.
pub enum RestoreRoute {
    /// The firewall rule is taken back, then these commands are run; or there are none, for this
    /// reason.
    Direct(Result<Vec<NetshStep>, String>),
    /// A helper process does it, with these arguments.
    Helper(Vec<String>),
}

/// The way on which an adapter is put back: by this process where it has the rights, with the commands
/// that its settings need, and else by a helper process that is told the settings.
pub open spec fn routed(n: NicV, admin: bool, r: RestoreRoute) -> bool {
    match r {
        RestoreRoute::Direct(d) => admin && match nic::restore_steps_of(n) {
            Some(v) => d matches Ok(s) && nic::step_views(s@) == v,
            None => d is Err,
        },
        RestoreRoute::Helper(a) => !admin && text::views(a@) == elevated::restore_args_of(n),
    }
}

/// How an adapter is put back: by this process where it has administrator rights, else by a helper
/// process, which the log announces.
pub fn restore_route(snapshot: &NicInfo, admin: bool) -> (r: (Vec<SessionEffect>, RestoreRoute))
    ensures
        if admin {
            &&& session::effect_views(r.0@) == Seq::<SessionEffectV>::empty()
            &&& r.1 matches RestoreRoute::Direct(d) && match nic::restore_steps_of(snapshot@) {
                Some(v) => d matches Ok(s) && nic::step_views(s@) == v,
                None => d matches Err(e) && e@ == "恢复参数不完整：缺少掩码（--mask）"@,
            }
        } else {
            &&& session::effect_views(r.0@) == seq![
                info("正在请求管理员权限（仅用于恢复网卡与删除防火墙规则）..."@),
            ]
            &&& r.1 matches RestoreRoute::Helper(a) && text::views(a@)
                == elevated::restore_args_of(snapshot@)
        },
        routed(snapshot@, admin, r.1),
{
    if admin {
        (silent(), RestoreRoute::Direct(nic::restore(snapshot)))
    } else {
        let effects: Vec<SessionEffect> = said(
            LogLevel::Info,
            "正在请求管理员权限（仅用于恢复网卡与删除防火墙规则）...".to_owned(),
        );
        (effects, RestoreRoute::Helper(elevated::restore_args(snapshot)))
    }
}

/// What the session is and what is put back when it stops.
pub open spec fn stop_takes(s: SessionV, restore: bool) -> (SessionV, Option<NicV>) {
    if restore {
        (SessionV { nic_snapshot: None, ..s }, s.nic_snapshot)
    } else {
        (s, None)
    }
}

/// The session after the adapter was put back, or was not.
pub open spec fn stop_ends(s: SessionV, snapshot: NicV, result: Result<(), Seq<char>>) -> SessionV {
    match result {
        Ok(_) => s,
        Err(_) => SessionV { nic_snapshot: Some(snapshot), ..s },
    }
}

/// Stops the session: gives the adapter as it was before, where it is to be put back.
pub fn begin_stop(s: &mut Session, restore: bool) -> (r: Option<NicInfo>)
    ensures
        final(s)@ == stop_takes(old(s)@, restore).0,
        session::nic_view(r) == stop_takes(old(s)@, restore).1,
{
    if restore {
        s.nic_snapshot.take()
    } else {
        None
    }
}

/// The line about an adapter that was put back, or was not.
pub open spec fn stop_line(result: Result<(), Seq<char>>) -> SessionEffectV {
    match result {
        Ok(_) => info("网卡配置已恢复。"@),
        Err(e) => SessionEffectV::Log(LogLevel::Error, "恢复网卡配置失败："@ + e),
    }
}

/// The line about leases that could not be stored.
pub open spec fn save_failure_line(error: Seq<char>) -> SessionEffectV {
    SessionEffectV::Log(LogLevel::Warn, "保存租约失败："@ + error)
}

/// Ends the stop after the adapter was put back, or was not. Where it was not, it is kept in mind, so
/// that the next stop tries again.
pub fn end_stop(s: &mut Session, snapshot: NicInfo, result: Result<(), String>) -> (r: SessionEffect)
    ensures
        final(s)@ == stop_ends(old(s)@, snapshot@, result_view(result)),
        r@ == stop_line(result_view(result)),
{
    match result {
        Ok(_) => SessionEffect::Log(LogLevel::Info, "网卡配置已恢复。".to_owned()),
        Err(e) => {
            s.nic_snapshot = Some(snapshot);
            SessionEffect::Log(
                LogLevel::Error,
                behind("恢复网卡配置失败：", e.as_str()),
            )
        },
    }
}

/// The line about leases that could not be stored.
pub fn lease_save_failure(error: &str) -> (r: SessionEffect)
    ensures
        r@ == save_failure_line(error@),
{
    SessionEffect::Log(LogLevel::Warn, behind("保存租约失败：", error))
}

/// An adapter that could not be put back is put back by the next stop; one that was put back is not
/// touched again.
pub proof fn lemma_stop_again(s: SessionV, snapshot: NicV, result: Result<(), Seq<char>>)
    requires
        s.nic_snapshot == Some(snapshot),
    ensures
        stop_takes(s, true).1 == Some(snapshot),
        ({
            let once = stop_ends(stop_takes(s, true).0, snapshot, result);
            stop_takes(once, true).1 == match result {
                Ok(_) => None::<NicV>,
                Err(_) => Some(snapshot),
            }
        }),
{
}

// ---------------------------------------------------------------- what the servers report

/// The line about a probe.
pub fn probe_line(ip: u32, used: bool) -> (r: SessionEffect)
    ensures
        r@ == SessionEffectV::Log(
            LogLevel::Debug,
            "防冲突探测 "@ + net::ip_text(ip) + ": "@ + if used {
                "占用（跳过）"@
            } else {
                "空闲（可分配）"@
            },
        ),
{
    let addr: String = net::ip_string(ip);
    let mut s: String = around("防冲突探测 ", addr.as_str(), ": ");
    if used {
        s.append("占用（跳过）");
    } else {
        s.append("空闲（可分配）");
    }
    SessionEffect::Log(LogLevel::Debug, s)
}

/// The warning about an ARP cache that could not be cleared.
pub fn arp_clear_failure(error: &str) -> (r: SessionEffect)
    ensures
        r@ == SessionEffectV::Log(
            LogLevel::Warn,
            "清理 ARP 缓存失败（"@ + error@
                + "）：路由器可能因陈旧缓存无法连接；若被安全软件拦截，请在本机安全软件中放行本程序后重试。"@,
        ),
{
    SessionEffect::Log(
        LogLevel::Warn,
        around(
            "清理 ARP 缓存失败（",
            error,
            "）：路由器可能因陈旧缓存无法连接；若被安全软件拦截，请在本机安全软件中放行本程序后重试。",
        ),
    )
}

} // verus!
