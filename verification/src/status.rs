//! The view of a running session.

use vstd::prelude::*;
use vstd::string::*;

use crate::config::{IDLE_WARN_SECS, LOG_SHOW_LINES};
use crate::console;
use crate::session;
use crate::session::{CliState, CliV, AUTO_STOP_LINE};
use crate::text;
use crate::tftp::{TransferInfo, TransferV};

verus! {

// ---------------------------------------------------------------- the drawn view

/// The numbers of a running transfer as text: bar, percentage and rate.
pub struct TransferLook {
    pub bar: String,
    pub percent: String,
    pub rate: String,
}

/// What the numbers of a running transfer say.
pub struct LookV {
    pub bar: Seq<char>,
    pub percent: Seq<char>,
    pub rate: Seq<char>,
}

impl View for TransferLook {
    type V = LookV;

    open spec fn view(&self) -> LookV {
        LookV { bar: self.bar@, percent: self.percent@, rate: self.rate@ }
    }
}

/// A text in a colour.
pub open spec fn coloured(code: Seq<char>, s: Seq<char>) -> Seq<char> {
    console::ansi_code(code) + s + console::ansi_code("0"@)
}

/// The title.
pub open spec fn title_text(done: bool) -> Seq<char> {
    if done {
        coloured("32"@, "========== [完成] 刷机完成 =========="@) + "\n"@
    } else {
        "========== 刷机进行中 ==========\n"@
    }
}

/// The device that got an address last.
pub open spec fn device_text(d: Option<(Seq<char>, Seq<char>)>) -> Seq<char> {
    match d {
        Some(d) => "DHCP : 设备 路由器 ("@ + d.0 + " → "@ + d.1 + ")\n"@,
        None => "DHCP : 设备 无（等待路由器请求）\n"@,
    }
}

/// How the transfer stands.
pub open spec fn transfer_text(t: Option<TransferV>, look: LookV) -> Seq<char> {
    match t {
        None => "TFTP : 等待路由器请求 ...\n"@,
        Some(t) => if !t.done {
            "TFTP : "@ + look.bar + " "@ + look.percent + "%  "@ + look.rate + " KB/s  块 "@
                + text::dec(t.blocks as nat) + "  重传 "@ + text::dec(t.retransmits as nat) + "  "@
                + t.file_name + "\n"@
        } else {
            match t.error {
                Some(e) => "TFTP : 失败："@ + e + "\n"@,
                None => "TFTP : 完成："@ + text::dec(t.bytes_sent as nat) + " 字节，"@ + text::dec(
                    t.blocks as nat,
                ) + " 块，"@ + text::dec((t.nanos / 1_000_000_000) as nat) + " 秒，重传 "@
                    + text::dec(t.retransmits as nat) + " 次\n"@ + coloured(
                    "32"@,
                    "[完成] 固件已传输完成！请断电重启路由器（拔电源再插上）。"@,
                ) + "\n"@,
            }
        },
    }
}

/// How long ago the router was heard: red from the first warning on, yellow from a third of that time
/// on, green before.
pub open spec fn connection_text(idle: u64) -> Seq<char> {
    let seconds = text::dec(idle as nat);
    "连接 : "@ + if idle >= IDLE_WARN_SECS {
        coloured(
            "31"@,
            "[告警] 已等待 "@ + seconds + " 秒无请求，300 秒将自动停止"@,
        )
    } else if idle >= IDLE_WARN_SECS / 3 {
        coloured("33"@, "[注意] 最近活动 "@ + seconds + " 秒前"@)
    } else {
        coloured("32"@, "[正常] 最近活动 "@ + seconds + " 秒前"@)
    } + "\n"@
}

/// A warning, if there is one.
pub open spec fn warning_text(w: Option<Seq<char>>) -> Seq<char> {
    match w {
        Some(w) => coloured("33"@, w) + "\n"@,
        None => Seq::empty(),
    }
}

/// Lines one below the other, each behind `indent`.
pub open spec fn lines_text(lines: Seq<Seq<char>>, indent: Seq<char>) -> Seq<char>
    decreases lines.len(),
{
    if lines.len() == 0 {
        Seq::empty()
    } else {
        lines_text(lines.drop_last(), indent) + indent + lines.last() + "\n"@
    }
}

/// The whole view.
pub open spec fn view_text(c: CliV, nic: Seq<char>, look: LookV, idle: u64) -> Seq<char> {
    "\x1b[2J\x1b[H"@ + title_text(c.transfer_done) + "网卡 : "@ + nic + "\n"@ + device_text(
        c.last_device,
    ) + transfer_text(c.transfer, look) + connection_text(idle) + warning_text(c.conn_warning)
        + "----------------------------------------\n"@ + lines_text(
        session::last_of(c.log, LOG_SHOW_LINES as nat),
        ""@,
    ) + "----------------------------------------\n"@ + if c.transfer_done {
        "[按 Enter 打开完成菜单（停止并回到主菜单）· Ctrl+C 安全退出（恢复网卡）]\n"@
    } else {
        "[按 Enter 打开操作菜单 · Ctrl+C 安全退出（恢复网卡）]\n"@
    }
}

fn push_coloured(out: &mut String, code: &str, s: &str)
    ensures
        final(out)@ == old(out)@ + coloured(code@, s@),
{
    let on: String = console::ansi(code);
    let off: String = console::ansi("0");
    out.append(on.as_str());
    out.append(s);
    out.append(off.as_str());
    assert(out@ =~= old(out)@ + coloured(code@, s@));
}

fn push_title(out: &mut String, done: bool)
    ensures
        final(out)@ == old(out)@ + title_text(done),
{
    if done {
        push_coloured(out, "32", "========== [完成] 刷机完成 ==========");
        out.append("\n");
    } else {
        out.append("========== 刷机进行中 ==========\n");
    }
    assert(out@ =~= old(out)@ + title_text(done));
}

fn push_device(out: &mut String, d: &Option<(String, String)>)
    ensures
        final(out)@ == old(out)@ + device_text(session::device_view(*d)),
{
    match d {
        Some(d) => {
            out.append("DHCP : 设备 路由器 (");
            out.append(d.0.as_str());
            out.append(" → ");
            out.append(d.1.as_str());
            out.append(")\n");
        },
        None => {
            out.append("DHCP : 设备 无（等待路由器请求）\n");
        },
    }
    assert(out@ =~= old(out)@ + device_text(session::device_view(*d)));
}

fn push_transfer(out: &mut String, t: &Option<TransferInfo>, look: &TransferLook)
    ensures
        final(out)@ == old(out)@ + transfer_text(session::transfer_view(*t), look@),
{
    match t {
        None => {
            out.append("TFTP : 等待路由器请求 ...\n");
        },
        Some(t) => {
            if !t.done {
                out.append("TFTP : ");
                out.append(look.bar.as_str());
                out.append(" ");
                out.append(look.percent.as_str());
                out.append("%  ");
                out.append(look.rate.as_str());
                out.append(" KB/s  块 ");
                text::push_dec(out, t.blocks);
                out.append("  重传 ");
                text::push_dec(out, t.retransmits);
                out.append("  ");
                out.append(t.file_name.as_str());
                out.append("\n");
            } else {
                match &t.error {
                    Some(e) => {
                        out.append("TFTP : 失败：");
                        out.append(e.as_str());
                        out.append("\n");
                    },
                    None => {
                        out.append("TFTP : 完成：");
                        text::push_dec(out, t.bytes_sent);
                        out.append(" 字节，");
                        text::push_dec(out, t.blocks);
                        out.append(" 块，");
                        text::push_dec(out, t.nanos / 1_000_000_000);
                        out.append(" 秒，重传 ");
                        text::push_dec(out, t.retransmits);
                        out.append(" 次\n");
                        push_coloured(
                            out,
                            "32",
                            "[完成] 固件已传输完成！请断电重启路由器（拔电源再插上）。",
                        );
                        out.append("\n");
                    },
                }
            }
        },
    }
    assert(out@ =~= old(out)@ + transfer_text(session::transfer_view(*t), look@));
}

fn push_connection(out: &mut String, idle: u64)
    ensures
        final(out)@ == old(out)@ + connection_text(idle),
{
    let ghost before = out@;
    out.append("连接 : ");
    if idle >= IDLE_WARN_SECS {
        let mut s: String = "[告警] 已等待 ".to_owned();
        text::push_dec(&mut s, idle);
        s.append(" 秒无请求，300 秒将自动停止");
        push_coloured(out, "31", s.as_str());
    } else if idle >= IDLE_WARN_SECS / 3 {
        let mut s: String = "[注意] 最近活动 ".to_owned();
        text::push_dec(&mut s, idle);
        s.append(" 秒前");
        push_coloured(out, "33", s.as_str());
    } else {
        let mut s: String = "[正常] 最近活动 ".to_owned();
        text::push_dec(&mut s, idle);
        s.append(" 秒前");
        push_coloured(out, "32", s.as_str());
    }
    out.append("\n");
    assert(out@ =~= before + connection_text(idle));
}

fn push_warning(out: &mut String, w: &Option<String>)
    ensures
        final(out)@ == old(out)@ + warning_text(crate::tftp::text_view(*w)),
{
    match w {
        Some(w) => {
            push_coloured(out, "33", w.as_str());
            out.append("\n");
        },
        None => {},
    }
    assert(out@ =~= old(out)@ + warning_text(crate::tftp::text_view(*w)));
}

/// Appends lines one below the other, each behind `indent`.
pub fn push_lines(out: &mut String, lines: &Vec<String>, indent: &str)
    ensures
        final(out)@ == old(out)@ + lines_text(text::views(lines@), indent@),
{
    let ghost before = out@;
    let ghost lv = text::views(lines@);
    let mut i: usize = 0;
    assert(before + lines_text(lv.take(0), indent@) =~= before);
    while i < lines.len()
        invariant
            i <= lines@.len(),
            lv == text::views(lines@),
            out@ == before + lines_text(lv.take(i as int), indent@),
        decreases lines@.len() - i,
    {
        out.append(indent);
        out.append(lines[i].as_str());
        out.append("\n");
        proof {
            assert(lv.take(i + 1).drop_last() =~= lv.take(i as int));
            assert(lv.take(i + 1).last() == lines@[i as int]@);
            assert(out@ =~= before + lines_text(lv.take(i + 1), indent@));
        }
        i = i + 1;
    }
    assert(lv.take(i as int) =~= lv);
}

/// Draws the view: the adapter, the device, the transfer, the connection and the last log lines.
/// `nic` is the adapter on one line, `idle` the seconds since the router was heard.
pub fn render_view(cli: &CliState, nic: &str, look: &TransferLook, idle: u64) -> (r: String)
    ensures
        r@ == view_text(cli@, nic@, look@, idle),
{
    let mut out: String = "\x1b[2J\x1b[H".to_owned();
    push_title(&mut out, cli.is_done());
    out.append("网卡 : ");
    out.append(nic);
    out.append("\n");
    push_device(&mut out, cli.device());
    push_transfer(&mut out, cli.current_transfer(), look);
    push_connection(&mut out, idle);
    push_warning(&mut out, cli.warning());
    out.append("----------------------------------------\n");
    let lines: Vec<String> = cli.last_lines(LOG_SHOW_LINES);
    push_lines(&mut out, &lines, "");
    out.append("----------------------------------------\n");
    if cli.is_done() {
        out.append(
            "[按 Enter 打开完成菜单（停止并回到主菜单）· Ctrl+C 安全退出（恢复网卡）]\n",
        );
    } else {
        out.append("[按 Enter 打开操作菜单 · Ctrl+C 安全退出（恢复网卡）]\n");
    }
    out
}

// ---------------------------------------------------------------- the summary

/// The state on one line; `percent` is that of a running transfer.
pub open spec fn summary_text(c: CliV, percent: Seq<char>) -> Seq<char> {
    let device = match c.last_device {
        Some(d) => "设备 "@ + d.0 + " → "@ + d.1,
        None => "无设备"@,
    };
    let transfer = match c.transfer {
        Some(t) => if t.done {
            match t.error {
                Some(e) => "TFTP 失败："@ + e,
                None => "TFTP 等待中"@,
            }
        } else {
            "TFTP "@ + percent + "% 块"@ + text::dec(t.blocks as nat) + " 重传"@ + text::dec(
                t.retransmits as nat,
            )
        },
        None => "TFTP 等待中"@,
    };
    "[状态] "@ + device + " · "@ + transfer
}

/// The line that tells once that the transfer is done.
pub open spec fn summary_done_line() -> Seq<char> {
    "[状态] [完成] 刷机完成！请断电重启路由器。"@
}

fn transfer_summary(t: &Option<TransferInfo>, percent: &str) -> (r: String)
    ensures
        r@ == match session::transfer_view(*t) {
            Some(t) => if t.done {
                match t.error {
                    Some(e) => "TFTP 失败："@ + e,
                    None => "TFTP 等待中"@,
                }
            } else {
                "TFTP "@ + percent@ + "% 块"@ + text::dec(t.blocks as nat) + " 重传"@ + text::dec(
                    t.retransmits as nat,
                )
            },
            None => "TFTP 等待中"@,
        },
{
    match t {
        Some(t) => {
            if t.done {
                match &t.error {
                    Some(e) => {
                        let mut s: String = "TFTP 失败：".to_owned();
                        s.append(e.as_str());
                        s
                    },
                    None => "TFTP 等待中".to_owned(),
                }
            } else {
                let mut s: String = "TFTP ".to_owned();
                s.append(percent);
                s.append("% 块");
                text::push_dec(&mut s, t.blocks);
                s.append(" 重传");
                text::push_dec(&mut s, t.retransmits);
                s
            }
        },
        None => "TFTP 等待中".to_owned(),
    }
}

/// The line that is printed of a session without a terminal, and the state after it: the end of a transfer
/// is told once.
pub open spec fn summed_up(c: CliV, percent: Seq<char>) -> (CliV, Option<Seq<char>>) {
    if !c.transfer_done {
        (c, Some(summary_text(c, percent)))
    } else if c.summary_done_shown {
        (c, None)
    } else {
        (CliV { summary_done_shown: true, ..c }, Some(summary_done_line()))
    }
}

/// The state on one line. That the transfer is done is told once; after that there is no line.
pub fn print_summary(cli: &mut CliState, percent: &str) -> (r: Option<String>)
    ensures
        if old(cli)@.transfer_done {
            &&& final(cli)@ == (CliV { summary_done_shown: true, ..old(cli)@ })
            &&& if old(cli)@.summary_done_shown {
                r is None
            } else {
                r matches Some(s) && s@ == summary_done_line()
            }
        } else {
            &&& final(cli)@ == old(cli)@
            &&& r matches Some(s) && s@ == summary_text(old(cli)@, percent@)
        },
        (final(cli)@, crate::tftp::text_view(r)) == summed_up(old(cli)@, percent@),
{
    if cli.is_done() {
        if cli.show_done_once() {
            return Some("[状态] [完成] 刷机完成！请断电重启路由器。".to_owned());
        }
        return None;
    }
    let mut s: String = "[状态] ".to_owned();
    match cli.device() {
        Some(d) => {
            s.append("设备 ");
            s.append(d.0.as_str());
            s.append(" → ");
            s.append(d.1.as_str());
        },
        None => {
            s.append("无设备");
        },
    }
    let t: String = transfer_summary(cli.current_transfer(), percent);
    s.append(" · ");
    s.append(t.as_str());
    assert(s@ =~= summary_text(old(cli)@, percent@));
    Some(s)
}

// ---------------------------------------------------------------- the two loops

/// What the drawing thread shows.
#[derive(Clone, Copy, PartialEq, Eq, Structural)]
pub enum RenderAction {
    /// The session is over.
    Leave,
    /// A menu is shown: nothing is drawn for a moment.
    Pause,
    /// The view is drawn.
    Draw,
    /// The summary line is printed.
    Summarize,
    Rest,
}

/// What is drawn or printed of a session that stands like this.
pub open spec fn render_action(
    running: bool,
    modal: bool,
    tty: bool,
    summary_due: bool,
) -> RenderAction {
    if !running {
        RenderAction::Leave
    } else if modal {
        RenderAction::Pause
    } else if tty {
        RenderAction::Draw
    } else if summary_due {
        RenderAction::Summarize
    } else {
        RenderAction::Rest
    }
}

/// Decides what is drawn or printed. `summary_due` tells that the last summary is five seconds
/// old.
pub fn render_step(running: bool, modal: bool, tty: bool, summary_due: bool) -> (r: RenderAction)
    ensures
        r == render_action(running, modal, tty, summary_due),
{
    if !running {
        RenderAction::Leave
    } else if modal {
        RenderAction::Pause
    } else if tty {
        RenderAction::Draw
    } else if summary_due {
        RenderAction::Summarize
    } else {
        RenderAction::Rest
    }
}

/// Something that the drawing thread has to deal with.
pub enum RenderEvent {
    /// A new round begins. `interrupted` tells that the user has asked the program to end.
    Round { interrupted: bool },
    /// The connection was looked at. `stop` tells that the session is to be stopped, since nothing was
    /// heard of the router for too long.
    Ticked { stop: bool },
    /// The session stands like this.
    Looked { running: bool, modal: bool, tty: bool, summary_due: bool },
}

/// What the drawing thread does next.
pub enum RenderNext {
    /// This line is logged, the session is stopped and, where `restore`, the adapter put back; this
    /// message is printed, and the program ends.
    StopAndExit { restore: bool, line: &'static str, message: &'static str },
    /// The connection is looked at.
    Tick,
    /// The session is stopped and, where `restore`, the adapter put back; this message is printed, and
    /// the session is looked at.
    Stop { restore: bool, message: &'static str },
    /// The session is looked at.
    Look,
    /// This is done, and a new round begins unless the thread is left.
    Act(RenderAction),
}

/// What the drawing thread does next, as it reads.
pub enum RenderNextV {
    StopAndExit(bool, Seq<char>, Seq<char>),
    Tick,
    Stop(bool, Seq<char>),
    Look,
    Act(RenderAction),
}

impl View for RenderNext {
    type V = RenderNextV;

    open spec fn view(&self) -> RenderNextV {
        match *self {
            RenderNext::StopAndExit { restore, line, message } => RenderNextV::StopAndExit(
                restore,
                line@,
                message@,
            ),
            RenderNext::Tick => RenderNextV::Tick,
            RenderNext::Stop { restore, message } => RenderNextV::Stop(restore, message@),
            RenderNext::Look => RenderNextV::Look,
            RenderNext::Act(a) => RenderNextV::Act(a),
        }
    }
}

/// What the drawing thread does about an event. An interrupt comes before anything else, and is answered
/// with a stop that puts the adapter back; so is a connection that was silent for too long.
pub open spec fn rendered(e: RenderEvent) -> RenderNextV {
    match e {
        RenderEvent::Round { interrupted } => if interrupted {
            RenderNextV::StopAndExit(
                true,
                "收到 Ctrl+C，正在安全停止并恢复网卡 ..."@,
                "[安全退出] 已停止刷机并恢复网卡配置。"@,
            )
        } else {
            RenderNextV::Tick
        },
        RenderEvent::Ticked { stop } => if stop {
            RenderNextV::Stop(true, AUTO_STOP_LINE@)
        } else {
            RenderNextV::Look
        },
        RenderEvent::Looked { running, modal, tty, summary_due } => RenderNextV::Act(
            render_action(running, modal, tty, summary_due),
        ),
    }
}

/// Decides what the drawing thread does about an event.
pub fn render_next(e: RenderEvent) -> (r: RenderNext)
    ensures
        r@ == rendered(e),
{
    match e {
        RenderEvent::Round { interrupted } => if interrupted {
            RenderNext::StopAndExit {
                restore: true,
                line: "收到 Ctrl+C，正在安全停止并恢复网卡 ...",
                message: "[安全退出] 已停止刷机并恢复网卡配置。",
            }
        } else {
            RenderNext::Tick
        },
        RenderEvent::Ticked { stop } => if stop {
            RenderNext::Stop { restore: true, message: AUTO_STOP_LINE }
        } else {
            RenderNext::Look
        },
        RenderEvent::Looked { running, modal, tty, summary_due } => RenderNext::Act(
            render_step(running, modal, tty, summary_due),
        ),
    }
}

/// An interrupt always ends the program with the session stopped and the adapter put back, and nothing
/// else ends it from the drawing thread. Every stop that the thread asks for puts the adapter back.
pub proof fn lemma_interrupt_restores(e: RenderEvent)
    ensures
        (e matches RenderEvent::Round { interrupted } && interrupted) <==> rendered(
            e,
        ) is StopAndExit,
        rendered(e) matches RenderNextV::StopAndExit(restore, _, _) ==> restore,
        rendered(e) matches RenderNextV::Stop(restore, _) ==> restore,
{
}

/// What the user wants of a running session.
#[derive(Clone, Copy, PartialEq, Eq, Structural)]
pub enum StatusAction {
    /// The input has ended: the session is stopped and the adapter put back.
    StopAtEnd,
    /// The menu is opened.
    OpenMenu,
    /// The session is stopped and the adapter put back; the main menu comes next.
    StopToMenu,
    /// The session is stopped and the adapter put back; the program ends.
    Quit,
    Continue,
}

/// What a number says.
pub open spec fn action_of(answer: Seq<char>) -> StatusAction {
    if answer == "1"@ {
        StatusAction::StopToMenu
    } else if answer == "0"@ {
        StatusAction::Quit
    } else {
        StatusAction::Continue
    }
}

fn numbered_action(answer: &str) -> (r: StatusAction)
    ensures
        r == action_of(answer@),
{
    if text::same(answer, "1") {
        StatusAction::StopToMenu
    } else if text::same(answer, "0") {
        StatusAction::Quit
    } else {
        StatusAction::Continue
    }
}

/// What an optional line says.
pub open spec fn line_view(line: Option<&str>) -> Option<Seq<char>> {
    match line {
        Some(l) => Some(l@),
        None => None,
    }
}

/// What a line of input means: an empty one opens the menu, a number is an answer to it.
pub open spec fn input_action(line: Option<Seq<char>>) -> StatusAction {
    match line {
        None => StatusAction::StopAtEnd,
        Some(l) => if text::trim(l).len() == 0 {
            StatusAction::OpenMenu
        } else {
            action_of(text::trim(l))
        },
    }
}

/// What the answer to the opened menu means; no answer changes nothing.
pub open spec fn answer_action(line: Option<Seq<char>>) -> StatusAction {
    match line {
        None => StatusAction::Continue,
        Some(l) => action_of(text::trim(l)),
    }
}

/// What a line of input means: an empty one opens the menu, a number is an answer to it.
pub fn status_input(line: Option<&str>) -> (r: StatusAction)
    ensures
        r == input_action(line_view(line)),
{
    match line {
        None => StatusAction::StopAtEnd,
        Some(l) => {
            let t: String = text::trim_text(l);
            proof {
                reveal_strlit("");
                if t@.len() == 0 {
                    assert(t@ =~= ""@);
                }
            }
            if text::same(t.as_str(), "") {
                StatusAction::OpenMenu
            } else {
                numbered_action(t.as_str())
            }
        },
    }
}

/// What the answer to the opened menu means; no answer changes nothing.
pub fn status_answer(line: Option<&str>) -> (r: StatusAction)
    ensures
        r == answer_action(line_view(line)),
{
    match line {
        None => StatusAction::Continue,
        Some(l) => {
            let t: String = text::trim_text(l);
            numbered_action(t.as_str())
        },
    }
}

/// The prompt below the log where nothing is drawn.
pub open spec fn prompt_text(done: bool) -> Seq<char> {
    "\n[按 Enter 打开"@ + (if done {
        "完成"@
    } else {
        "操作"@
    }) + "菜单 · Ctrl+C 安全退出] "@
}

/// The prompt below the log where nothing is drawn.
pub fn status_prompt(done: bool) -> (r: String)
    ensures
        r@ == prompt_text(done),
{
    let mut s: String = "\n[按 Enter 打开".to_owned();
    if done {
        s.append("完成");
    } else {
        s.append("操作");
    }
    s.append("菜单 · Ctrl+C 安全退出] ");
    s
}

/// The menu of a running session.
pub open spec fn menu_text(done: bool) -> Seq<char> {
    if done {
        "  [刷机完成] 1=停止服务并回到主菜单（推荐）  2=继续监控  0=退出程序"@
    } else {
        "  [操作菜单] 1=停止并恢复网卡  2=继续  0=退出程序"@
    }
}

/// The menu of a running session.
pub fn status_menu(done: bool) -> (r: &'static str)
    ensures
        r@ == menu_text(done),
{
    if done {
        "  [刷机完成] 1=停止服务并回到主菜单（推荐）  2=继续监控  0=退出程序"
    } else {
        "  [操作菜单] 1=停止并恢复网卡  2=继续  0=退出程序"
    }
}

/// What the user reads after the session was stopped from its menu.
pub open spec fn stopped_text(done: bool) -> Seq<char> {
    if done {
        "已停止刷机服务并恢复网卡，正在返回主菜单 ..."@
    } else {
        "已停止刷机并恢复网卡。"@
    }
}

/// What the user reads after the session was stopped from its menu.
pub fn stopped_line(done: bool) -> (r: &'static str)
    ensures
        r@ == stopped_text(done),
{
    if done {
        "已停止刷机服务并恢复网卡，正在返回主菜单 ..."
    } else {
        "已停止刷机并恢复网卡。"
    }
}

// ---------------------------------------------------------------- the view as a whole

/// What the view of a running session waits for.
#[derive(Clone, Copy, PartialEq, Eq, Structural)]
pub enum ViewPhase {
    /// A look at the session.
    Looking,
    /// A line of input.
    Reading,
    /// The answer to the opened menu.
    Asking,
    /// Nothing: the view is left.
    Left,
}

/// Something that the view has to deal with.
pub enum ViewEvent {
    /// How the session stands. `interrupted` tells that the user has asked the program to end; the
    /// drawing thread then stops the session and puts the adapter back.
    Look { interrupted: bool, running: bool, done: bool },
    /// A line of input, or its end, and how the session stands by then: it may have stopped by itself
    /// while the input was awaited.
    Line { line: Option<String>, running: bool, done: bool },
    /// The answer to the opened menu.
    Answer(Option<String>),
}

/// What an event says.
pub enum ViewEventV {
    Look(bool, bool, bool),
    Line(Option<Seq<char>>, bool, bool),
    Answer(Option<Seq<char>>),
}

impl View for ViewEvent {
    type V = ViewEventV;

    open spec fn view(&self) -> ViewEventV {
        match *self {
            ViewEvent::Look { interrupted, running, done } => ViewEventV::Look(
                interrupted,
                running,
                done,
            ),
            ViewEvent::Line { line, running, done } => ViewEventV::Line(
                crate::tftp::text_view(line),
                running,
                done,
            ),
            ViewEvent::Answer(a) => ViewEventV::Answer(crate::tftp::text_view(a)),
        }
    }
}

/// What the view does next.
pub enum ViewNext {
    /// The session is looked at.
    Look,
    /// A line is read, behind this prompt where nothing is drawn.
    Read { prompt: String },
    /// This menu is shown, and its answer is read. Nothing is drawn meanwhile.
    Ask { menu: &'static str },
    /// The session is stopped and, where `restore`, the adapter put back; this message is printed, and
    /// the view is left. Where `quit`, the program ends.
    Stop { restore: bool, quit: bool, message: &'static str },
    /// The view is left: the session has been stopped, or is being stopped.
    Leave,
}

/// What comes next, as it reads.
pub enum ViewNextV {
    Look,
    Read(Seq<char>),
    Ask(Seq<char>),
    Stop(bool, bool, Seq<char>),
    Leave,
}

impl View for ViewNext {
    type V = ViewNextV;

    open spec fn view(&self) -> ViewNextV {
        match *self {
            ViewNext::Look => ViewNextV::Look,
            ViewNext::Read { prompt } => ViewNextV::Read(prompt@),
            ViewNext::Ask { menu } => ViewNextV::Ask(menu@),
            ViewNext::Stop { restore, quit, message } => ViewNextV::Stop(restore, quit, message@),
            ViewNext::Leave => ViewNextV::Leave,
        }
    }
}

/// The view of a running session.
#[derive(Clone, Copy, PartialEq, Eq, Structural)]
pub struct StatusView {
    pub phase: ViewPhase,
    /// A file had been transferred to its end when the session was last looked at.
    pub done: bool,
}

/// The phase waits for this kind of event.
pub open spec fn awaited(phase: ViewPhase, e: ViewEventV) -> bool {
    match e {
        ViewEventV::Look(_, _, _) => phase == ViewPhase::Looking,
        ViewEventV::Line(_, _, _) => phase == ViewPhase::Reading,
        ViewEventV::Answer(_) => phase == ViewPhase::Asking,
    }
}

/// What an action of the user leads to.
pub open spec fn acted(v: StatusView, a: StatusAction) -> (StatusView, ViewNextV) {
    let left = StatusView { phase: ViewPhase::Left, ..v };
    match a {
        StatusAction::StopAtEnd => (
            left,
            ViewNextV::Stop(
                true,
                false,
                "[EOF] 输入流结束，已停止刷机并恢复网卡配置。"@,
            ),
        ),
        StatusAction::StopToMenu => (left, ViewNextV::Stop(true, false, stopped_text(v.done))),
        StatusAction::Quit => (
            left,
            ViewNextV::Stop(true, true, "已停止并恢复网卡，再见。"@),
        ),
        StatusAction::OpenMenu | StatusAction::Continue => (
            StatusView { phase: ViewPhase::Looking, ..v },
            ViewNextV::Look,
        ),
    }
}

/// What an event leads to.
pub open spec fn viewed(v: StatusView, e: ViewEventV) -> (StatusView, ViewNextV) {
    let left = StatusView { phase: ViewPhase::Left, ..v };
    match e {
        ViewEventV::Look(interrupted, running, done) => if interrupted || !running {
            (left, ViewNextV::Leave)
        } else {
            (StatusView { phase: ViewPhase::Reading, done }, ViewNextV::Read(prompt_text(done)))
        },
        ViewEventV::Line(line, running, done) => {
            let a = input_action(line);
            if line is Some && !running {
                (left, ViewNextV::Leave)
            } else if a == StatusAction::OpenMenu {
                (StatusView { phase: ViewPhase::Asking, ..v }, ViewNextV::Ask(menu_text(done)))
            } else {
                acted(v, a)
            }
        },
        ViewEventV::Answer(line) => acted(v, answer_action(line)),
    }
}

fn borrowed(s: &Option<String>) -> (r: Option<&str>)
    ensures
        line_view(r) == crate::tftp::text_view(*s),
{
    match s {
        Some(s) => Some(s.as_str()),
        None => None,
    }
}

impl StatusView {
    /// The view of a session that has just started.
    pub fn new() -> (r: Self)
        ensures
            r == (StatusView { phase: ViewPhase::Looking, done: false }),
    {
        StatusView { phase: ViewPhase::Looking, done: false }
    }

    fn act(&mut self, a: StatusAction) -> (r: ViewNext)
        ensures
            (*final(self), r@) == acted(*old(self), a),
    {
        match a {
            StatusAction::StopAtEnd => {
                self.phase = ViewPhase::Left;
                ViewNext::Stop {
                    restore: true,
                    quit: false,
                    message: "[EOF] 输入流结束，已停止刷机并恢复网卡配置。",
                }
            },
            StatusAction::StopToMenu => {
                self.phase = ViewPhase::Left;
                ViewNext::Stop { restore: true, quit: false, message: stopped_line(self.done) }
            },
            StatusAction::Quit => {
                self.phase = ViewPhase::Left;
                ViewNext::Stop {
                    restore: true,
                    quit: true,
                    message: "已停止并恢复网卡，再见。",
                }
            },
            StatusAction::OpenMenu | StatusAction::Continue => {
                self.phase = ViewPhase::Looking;
                ViewNext::Look
            },
        }
    }

    /// Goes on with what the view waited for.
    pub fn run_status_view(&mut self, event: ViewEvent) -> (r: ViewNext)
        requires
            awaited(old(self).phase, event@),
        ensures
            (*final(self), r@) == viewed(*old(self), event@),
    {
        match event {
            ViewEvent::Look { interrupted, running, done } => {
                if interrupted || !running {
                    self.phase = ViewPhase::Left;
                    return ViewNext::Leave;
                }
                self.phase = ViewPhase::Reading;
                self.done = done;
                ViewNext::Read { prompt: status_prompt(done) }
            },
            ViewEvent::Line { line, running, done } => {
                let a: StatusAction = status_input(borrowed(&line));
                if line.is_some() && !running {
                    self.phase = ViewPhase::Left;
                    return ViewNext::Leave;
                }
                if a == StatusAction::OpenMenu {
                    self.phase = ViewPhase::Asking;
                    return ViewNext::Ask { menu: status_menu(done) };
                }
                self.act(a)
            },
            ViewEvent::Answer(line) => {
                let a: StatusAction = status_answer(borrowed(&line));
                self.act(a)
            },
        }
    }
}

/// The view is left only where the session is stopped with the adapter put back: it asks for such a stop
/// itself, or it has seen that the session does not run any more, or that the user has asked the program
/// to end.
pub proof fn lemma_left_only_stopped(v: StatusView, e: ViewEventV)
    requires
        awaited(v.phase, e),
        viewed(v, e).0.phase == ViewPhase::Left,
    ensures
        match viewed(v, e).1 {
            ViewNextV::Stop(restore, _, _) => restore,
            ViewNextV::Leave => match e {
                ViewEventV::Look(interrupted, running, _) => interrupted || !running,
                ViewEventV::Line(_, running, _) => !running,
                ViewEventV::Answer(_) => false,
            },
            _ => false,
        },
{
}

/// Where the view is not left, it goes on to read or to ask, and has asked for no stop.
pub proof fn lemma_stays_without_stop(v: StatusView, e: ViewEventV)
    requires
        awaited(v.phase, e),
        viewed(v, e).0.phase != ViewPhase::Left,
    ensures
        !(viewed(v, e).1 is Stop) && !(viewed(v, e).1 is Leave),
{
}

/// The end of the input stops the session, whether or not it still runs, so that the program does not
/// hang.
pub proof fn lemma_end_of_input_stops(v: StatusView, running: bool, done: bool)
    ensures
        viewed(v, ViewEventV::Line(None, running, done)).1 matches ViewNextV::Stop(restore, quit, _)
            && restore && !quit,
{
}

} // verus!
