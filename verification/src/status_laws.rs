//! What the views of a session show, and what the user's input leads to.

use vstd::prelude::*;
use vstd::string::*;

use crate::console;
use crate::listing;
use crate::log::{LogLevel, Logger, WallClock};
use crate::log;
use crate::menu;
use crate::nic;
use crate::nic::NicV;
use crate::net;
use crate::session::CliV;
use crate::status;
use crate::status::{
    LookV, RenderAction, RenderEvent, RenderNextV, StatusView, ViewEventV, ViewNextV, ViewPhase,
};
use crate::text;
use crate::tftp::TransferV;

verus! {

/// What stands between two texts is held by the whole.
pub proof fn lemma_holds(a: Seq<char>, b: Seq<char>, c: Seq<char>)
    ensures
        text::contains_text(a + b + c, b),
{
    let s = a + b + c;
    let i = a.len() as int;
    assert(s.subrange(i, i + b.len()) =~= b);
    assert(text::stands_at(s, b, i));
}

/// What a part holds the whole holds.
pub proof fn lemma_part_holds(a: Seq<char>, b: Seq<char>, c: Seq<char>, w: Seq<char>)
    requires
        text::contains_text(b, w),
    ensures
        text::contains_text(a + b + c, w),
{
    let i = choose|i: int| text::stands_at(b, w, i);
    let s = a + b + c;
    let k = a.len() + i;
    assert(s.subrange(k, k + w.len()) =~= b.subrange(i, i + w.len()));
    assert(text::stands_at(s, w, k));
}

// ---------------------------------------------------------------- the view

/// How the view marks the connection: an alarm from 45 seconds of silence on, a note from 15 seconds on,
/// and else nothing but that it is in order; with the seconds.
pub proof fn lemma_connection_shown(idle: u64)
    ensures
        ({
            let t = status::connection_text(idle);
            &&& text::contains_text(t, text::dec(idle as nat))
            &&& idle >= 45 ==> text::contains_text(t, "[告警]"@)
            &&& 15 <= idle < 45 ==> text::contains_text(t, "[注意]"@)
            &&& idle < 15 ==> text::contains_text(t, "[正常]"@)
        }),
{
    reveal_strlit("[告警]");
    reveal_strlit("[告警] 已等待 ");
    reveal_strlit("[注意]");
    reveal_strlit("[注意] 最近活动 ");
    reveal_strlit("[正常]");
    reveal_strlit("[正常] 最近活动 ");
    let t = status::connection_text(idle);
    let n = text::dec(idle as nat);
    let (code, head, mark) = if idle >= 45 {
        ("31"@, "[告警] 已等待 "@, "[告警]"@)
    } else if idle >= 15 {
        ("33"@, "[注意] 最近活动 "@, "[注意]"@)
    } else {
        ("32"@, "[正常] 最近活动 "@, "[正常]"@)
    };
    let front = "连接 : "@ + console::ansi_code(code);
    let before = front + head;
    let behind = t.skip((before + n).len() as int);
    assert(t =~= before + n + behind);
    lemma_holds(before, n, behind);
    let rest = t.skip((front + mark).len() as int);
    assert(t =~= front + mark + rest) by {
        assert(head.take(mark.len() as int) =~= mark);
        assert(t.subrange(front.len() as int, (front.len() + mark.len()) as int) =~= mark);
        assert(t.take(front.len() as int) =~= front);
    }
    lemma_holds(front, mark, rest);
}

/// What the view shows of a transfer: of one under way the bar, the percentage, the rate, the block and
/// the packets sent again; of one that failed the reason; of one that ended its bytes.
pub proof fn lemma_transfer_shown(t: TransferV, look: LookV)
    ensures
        ({
            let s = status::transfer_text(Some(t), look);
            &&& !t.done ==> text::contains_text(s, look.bar) && text::contains_text(
                s,
                look.percent + "%  "@ + look.rate + " KB/s  块 "@ + text::dec(t.blocks as nat)
                    + "  重传 "@ + text::dec(t.retransmits as nat) + "  "@ + t.file_name,
            )
            &&& t.done && t.error is Some ==> text::contains_text(s, t.error->0)
            &&& t.done && t.error is None ==> text::contains_text(
                s,
                text::dec(t.bytes_sent as nat) + " 字节，"@ + text::dec(t.blocks as nat)
                    + " 块，"@ + text::dec((t.nanos / 1_000_000_000) as nat) + " 秒，重传 "@
                    + text::dec(t.retransmits as nat) + " 次"@,
            )
        }),
{
    let s = status::transfer_text(Some(t), look);
    if !t.done {
        let front = "TFTP : "@;
        let rest = s.skip((front + look.bar).len() as int);
        assert(s =~= front + look.bar + rest);
        lemma_holds(front, look.bar, rest);
        let mid = look.percent + "%  "@ + look.rate + " KB/s  块 "@ + text::dec(t.blocks as nat)
            + "  重传 "@ + text::dec(t.retransmits as nat) + "  "@ + t.file_name;
        assert(s =~= (front + look.bar + " "@) + mid + "\n"@);
        lemma_holds(front + look.bar + " "@, mid, "\n"@);
    } else {
        match t.error {
            Some(e) => {
                lemma_holds("TFTP : 失败："@, e, "\n"@);
            },
            None => {
                reveal_strlit(" 次\n");
                reveal_strlit(" 次");
                reveal_strlit("\n");
                let mid = text::dec(t.bytes_sent as nat) + " 字节，"@ + text::dec(t.blocks as nat)
                    + " 块，"@ + text::dec((t.nanos / 1_000_000_000) as nat) + " 秒，重传 "@
                    + text::dec(t.retransmits as nat) + " 次"@;
                let front = "TFTP : 完成："@;
                let rest = s.skip((front + mid).len() as int);
                assert(" 次\n"@ =~= " 次"@ + "\n"@);
                assert(s =~= front + mid + rest);
                lemma_holds(front, mid, rest);
            },
        }
    }
}

/// The view shows the adapter, the device, the transfer, the connection and the warning, in this order,
/// and then the last twelve lines of the log.
pub proof fn lemma_view_shows(c: CliV, nic: Seq<char>, look: LookV, idle: u64)
    ensures
        ({
            let v = status::view_text(c, nic, look, idle);
            &&& text::contains_text(
                v,
                nic + "\n"@ + status::device_text(c.last_device) + status::transfer_text(
                    c.transfer,
                    look,
                ) + status::connection_text(idle) + status::warning_text(c.conn_warning),
            )
            &&& text::contains_text(
                v,
                status::lines_text(
                    if c.log.len() > 12 {
                        c.log.skip(c.log.len() - 12)
                    } else {
                        c.log
                    },
                    ""@,
                ),
            )
            &&& c.last_device matches Some(d) ==> text::contains_text(
                status::device_text(c.last_device),
                d.0 + " → "@ + d.1,
            )
            &&& c.conn_warning matches Some(w) ==> text::contains_text(
                status::warning_text(c.conn_warning),
                w,
            )
        }),
{
    let v = status::view_text(c, nic, look, idle);
    let front = "\x1b[2J\x1b[H"@ + status::title_text(c.transfer_done) + "网卡 : "@;
    let mid = nic + "\n"@ + status::device_text(c.last_device) + status::transfer_text(
        c.transfer,
        look,
    ) + status::connection_text(idle) + status::warning_text(c.conn_warning);
    let lines = status::lines_text(
        if c.log.len() > 12 {
            c.log.skip(c.log.len() - 12)
        } else {
            c.log
        },
        ""@,
    );
    let rest = v.skip((front + mid).len() as int);
    assert(v =~= front + mid + rest);
    lemma_holds(front, mid, rest);
    let bar = "----------------------------------------\n"@;
    let before = front + mid + bar;
    let end = v.skip((before + lines).len() as int);
    assert(v =~= before + lines + end);
    lemma_holds(before, lines, end);
    match c.last_device {
        Some(d) => {
            let a = "DHCP : 设备 路由器 ("@;
            let m = d.0 + " → "@ + d.1;
            assert(status::device_text(c.last_device) =~= a + m + ")\n"@);
            lemma_holds(a, m, ")\n"@);
        },
        None => {},
    }
    match c.conn_warning {
        Some(w) => {
            let a = console::ansi_code("33"@);
            let z = console::ansi_code("0"@) + "\n"@;
            assert(status::warning_text(c.conn_warning) =~= a + w + z);
            lemma_holds(a, w, z);
        },
        None => {},
    }
}

/// Lines are shown one below the other, each behind the indent: those of two lists one behind the other
/// are those of the first and then those of the second.
pub proof fn lemma_lines_shown(
    a: Seq<Seq<char>>,
    b: Seq<Seq<char>>,
    line: Seq<char>,
    indent: Seq<char>,
)
    ensures
        status::lines_text(a + b, indent) == status::lines_text(a, indent) + status::lines_text(
            b,
            indent,
        ),
        status::lines_text(seq![line], indent) == indent + line + "\n"@,
    decreases b.len(),
{
    let single = seq![line];
    assert(single.drop_last() =~= Seq::<Seq<char>>::empty());
    assert(status::lines_text(single.drop_last(), indent) =~= Seq::<char>::empty());
    assert(status::lines_text(single, indent) =~= indent + line + "\n"@);
    if b.len() == 0 {
        assert(a + b =~= a);
        assert(status::lines_text(a, indent) + status::lines_text(b, indent) =~= status::lines_text(
            a,
            indent,
        ));
    } else {
        let init = b.drop_last();
        lemma_lines_shown(a, init, line, indent);
        assert((a + b).drop_last() =~= a + init);
        assert((a + b).last() == b.last());
        assert(status::lines_text(a + b, indent) =~= status::lines_text(a, indent)
            + status::lines_text(b, indent));
    }
}

/// The one line of a session without a terminal shows the device and the transfer.
pub proof fn lemma_summary_shows(c: CliV, percent: Seq<char>)
    ensures
        ({
            let s = status::summary_text(c, percent);
            &&& c.last_device matches Some(d) ==> text::contains_text(s, d.0 + " → "@ + d.1)
            &&& c.transfer matches Some(t) ==> {
                &&& !t.done ==> text::contains_text(
                    s,
                    percent + "% 块"@ + text::dec(t.blocks as nat) + " 重传"@ + text::dec(
                        t.retransmits as nat,
                    ),
                )
                &&& t.done && t.error is Some ==> text::contains_text(s, t.error->0)
            }
        }),
{
    let s = status::summary_text(c, percent);
    let none = Seq::<char>::empty();
    match c.last_device {
        Some(d) => {
            let a = "[状态] "@ + "设备 "@;
            let m = d.0 + " → "@ + d.1;
            let rest = s.skip((a + m).len() as int);
            assert(s =~= a + m + rest);
            lemma_holds(a, m, rest);
        },
        None => {},
    }
    match c.transfer {
        Some(t) => {
            if !t.done {
                let m = percent + "% 块"@ + text::dec(t.blocks as nat) + " 重传"@ + text::dec(
                    t.retransmits as nat,
                );
                let a = s.take(s.len() - m.len());
                assert(s =~= a + m + none);
                lemma_holds(a, m, none);
            } else if t.error is Some {
                let m = t.error->0;
                let a = s.take(s.len() - m.len());
                assert(s =~= a + m + none);
                lemma_holds(a, m, none);
            }
        },
        None => {},
    }
}

/// A bar is as wide as it is told, two at least, and filled from the left.
pub proof fn lemma_bar(filled: nat, width: usize, i: int)
    requires
        filled <= console::bar_width(width),
        0 <= i < console::bar_width(width),
    ensures
        console::bar_width(width) == (if width < 2 {
            2
        } else {
            width as int
        }),
        console::bar(filled, width).len() == console::bar_width(width) + 2,
        console::bar(filled, width)[0] == '[',
        console::bar(filled, width).last() == ']',
        console::bar(filled, width)[i + 1] == (if i < filled {
            '#'
        } else {
            '-'
        }),
{
    reveal_strlit("[");
    reveal_strlit("]");
}

// ---------------------------------------------------------------- the drawing thread

/// An interrupt ends the program with the session stopped and the adapter put back; a silence that was
/// too long stops the session and puts the adapter back; otherwise the connection is looked at, then the
/// session.
pub proof fn lemma_round(stop: bool)
    ensures
        status::rendered(RenderEvent::Round { interrupted: true })
            matches RenderNextV::StopAndExit(restore, _, _) && restore,
        status::rendered(RenderEvent::Round { interrupted: false }) == RenderNextV::Tick,
        status::rendered(RenderEvent::Ticked { stop: true }) matches RenderNextV::Stop(restore, _)
            && restore,
        status::rendered(RenderEvent::Ticked { stop: false }) == RenderNextV::Look,
{
}

/// A session that runs is drawn at every look on a terminal, and summed up when that is due elsewhere, but
/// not while a menu is shown; once it does not run the thread is left.
pub proof fn lemma_drawn(running: bool, modal: bool, tty: bool, summary_due: bool)
    ensures
        ({
            let a = status::rendered(RenderEvent::Looked { running, modal, tty, summary_due });
            &&& a == RenderNextV::Act(RenderAction::Leave) <==> !running
            &&& a == RenderNextV::Act(RenderAction::Pause) <==> running && modal
            &&& a == RenderNextV::Act(RenderAction::Draw) <==> running && !modal && tty
            &&& a == RenderNextV::Act(RenderAction::Summarize) <==> running && !modal && !tty
                && summary_due
            &&& a == RenderNextV::Act(RenderAction::Rest) <==> running && !modal && !tty
                && !summary_due
        }),
{
}

// ---------------------------------------------------------------- input

/// As long as a session runs and nothing interrupts, its view reads lines; it is left once the session has
/// stopped or is interrupted.
pub proof fn lemma_look(v: StatusView, interrupted: bool, running: bool, done: bool)
    ensures
        ({
            let r = status::viewed(v, ViewEventV::Look(interrupted, running, done));
            if running && !interrupted {
                r.0 == (StatusView { phase: ViewPhase::Reading, done }) && r.1 is Read
            } else {
                r.0.phase == ViewPhase::Left && r.1 == ViewNextV::Leave
            }
        }),
{
}

/// What a line means in the view of a running session: nothing but white space opens the menu, `1` stops
/// and goes back to the main menu, `0` stops and ends the program, and anything else changes nothing. A
/// stop always puts the adapter back.
pub proof fn lemma_line(v: StatusView, line: Seq<char>, done: bool)
    ensures
        ({
            let r = status::viewed(v, ViewEventV::Line(Some(line), true, done));
            let t = text::trim(line);
            if t.len() == 0 {
                r.0 == (StatusView { phase: ViewPhase::Asking, ..v }) && r.1 is Ask
            } else if t == seq!['1'] {
                r.0.phase == ViewPhase::Left && (r.1 matches ViewNextV::Stop(restore, quit, _)
                    && restore && !quit)
            } else if t == seq!['0'] {
                r.0.phase == ViewPhase::Left && (r.1 matches ViewNextV::Stop(restore, quit, _)
                    && restore && quit)
            } else {
                r.0 == (StatusView { phase: ViewPhase::Looking, ..v }) && r.1 == ViewNextV::Look
            }
        }),
        ({
            let r = status::viewed(v, ViewEventV::Line(Some(line), false, done));
            r.0.phase == ViewPhase::Left && r.1 == ViewNextV::Leave
        }),
{
    reveal_strlit("1");
    reveal_strlit("0");
    assert("1"@ =~= seq!['1']);
    assert("0"@ =~= seq!['0']);
}

/// What the answer to the menu means: `1` stops and goes back to the main menu, `0` stops and ends the
/// program, and anything else, the end of the input too, goes on. A stop always puts the adapter back.
pub proof fn lemma_answer(v: StatusView, line: Seq<char>)
    ensures
        ({
            let r = status::viewed(v, ViewEventV::Answer(Some(line)));
            let t = text::trim(line);
            if t == seq!['1'] {
                r.0.phase == ViewPhase::Left && (r.1 matches ViewNextV::Stop(restore, quit, _)
                    && restore && !quit)
            } else if t == seq!['0'] {
                r.0.phase == ViewPhase::Left && (r.1 matches ViewNextV::Stop(restore, quit, _)
                    && restore && quit)
            } else {
                r.0 == (StatusView { phase: ViewPhase::Looking, ..v }) && r.1 == ViewNextV::Look
            }
        }),
        status::viewed(v, ViewEventV::Answer(None)) == (
            StatusView { phase: ViewPhase::Looking, ..v },
            ViewNextV::Look,
        ),
{
    reveal_strlit("1");
    reveal_strlit("0");
    assert("1"@ =~= seq!['1']);
    assert("0"@ =~= seq!['0']);
}

// ---------------------------------------------------------------- lists

/// Items are numbered from 1 on, one line for each, in order.
pub proof fn lemma_numbered(items: Seq<Seq<char>>, next: Seq<char>, indent: Seq<char>)
    ensures
        listing::numbered(Seq::empty(), indent) == Seq::<char>::empty(),
        listing::numbered(items.push(next), indent) == listing::numbered(items, indent) + (indent
            + "["@ + text::dec(items.len() + 1) + "] "@ + next + "\n"@),
{
    assert(items.push(next).drop_last() =~= items);
    assert(listing::numbered(items.push(next), indent) =~= listing::numbered(items, indent) + (
    indent + "["@ + text::dec(items.len() + 1) + "] "@ + next + "\n"@));
}

/// The line of an adapter shows its name, its address, its hardware address and its link.
pub proof fn lemma_adapter_line(n: NicV, speed: Seq<char>)
    ensures
        ({
            let s = nic::nic_line(n, speed);
            &&& text::contains_text(s, n.name) && text::contains_text(s, n.mac)
            &&& n.ipv4 matches Some(ip) ==> text::contains_text(s, net::ip_text(ip))
            &&& n.ipv4 is None ==> text::contains_text(s, "无IP"@)
            &&& !n.up ==> text::contains_text(s, "已断开"@)
            &&& n.up && n.link_speed == 0 ==> text::contains_text(s, "链路无信号"@)
            &&& n.up && n.link_speed > 0 ==> text::contains_text(s, speed)
        }),
{
    let s = nic::nic_line(n, speed);
    let ip = match n.ipv4 {
        Some(v) => net::ip_text(v),
        None => "无IP"@,
    };
    let link = if !n.up {
        "已断开"@
    } else if n.link_speed == 0 {
        "链路无信号"@
    } else {
        speed
    };
    let a0 = Seq::<char>::empty();
    let a1 = n.name + "  ["@;
    let a2 = a1 + ip + "]  "@;
    let a3 = a2 + n.mac + "  ("@;
    assert(s.take((a0 + n.name).len() as int) =~= a0 + n.name);
    assert(s.take((a1 + ip).len() as int) =~= a1 + ip);
    assert(s.take((a2 + n.mac).len() as int) =~= a2 + n.mac);
    assert(s.take((a3 + link).len() as int) =~= a3 + link);
    lemma_at(s, a0, n.name);
    lemma_at(s, a1, ip);
    lemma_at(s, a2, n.mac);
    lemma_at(s, a3, link);
}

proof fn lemma_at(s: Seq<char>, front: Seq<char>, w: Seq<char>)
    requires
        front.len() + w.len() <= s.len(),
        s.take((front + w).len() as int) == front + w,
    ensures
        text::contains_text(s, w),
{
    let rest = s.skip((front + w).len() as int);
    assert(s =~= s.take((front + w).len() as int) + rest);
    assert(s =~= front + w + rest);
    lemma_holds(front, w, rest);
}

// ---------------------------------------------------------------- log lines

/// The two decimal digits of a number below 100.
pub open spec fn reads(s: Seq<char>, at: int, v: int) -> bool {
    s[at] as int == 48 + v / 10 && s[at + 1] as int == 48 + v % 10
}

/// The time of a line: day and month, then the time of day with thousandths of a second. Within a leap
/// second the seconds go on to 60.
pub proof fn lemma_stamp(at: WallClock)
    requires
        at.valid(),
    ensures
        ({
            let s = at.stamp();
            let second = if at.milli >= 1000 {
                at.second + 1
            } else {
                at.second as int
            };
            let milli = at.milli as int % 1000;
            &&& s.len() == 18
            &&& reads(s, 0, at.day as int) && s[2] == '/' && reads(s, 3, at.month as int)
            &&& s[5] == ' ' && reads(s, 6, at.hour as int) && s[8] == ':'
            &&& reads(s, 9, at.minute as int) && s[11] == ':' && reads(s, 12, second)
            &&& s[14] == '.' && s[15] as int == 48 + milli / 100 && reads(s, 16, milli % 100)
        }),
{
    let s = at.stamp();
    let second = (at.second + at.milli / 1000) as nat;
    let milli = (at.milli % 1000) as nat;
    let (a, b, c, d, e) = (
        log::two(at.day as nat),
        log::two(at.month as nat),
        log::two(at.hour as nat),
        log::two(at.minute as nat),
        log::two(second),
    );
    let f = log::three(milli);
    lemma_two(at.day as nat);
    lemma_two(at.month as nat);
    lemma_two(at.hour as nat);
    lemma_two(at.minute as nat);
    lemma_two(second);
    lemma_three(milli);
    assert(s.subrange(0, 2) =~= a);
    assert(s.subrange(3, 5) =~= b);
    assert(s.subrange(6, 8) =~= c);
    assert(s.subrange(9, 11) =~= d);
    assert(s.subrange(12, 14) =~= e);
    assert(s.subrange(15, 18) =~= f);
    assert(s[0] == a[0] && s[1] == a[1] && s[3] == b[0] && s[4] == b[1]);
    assert(s[6] == c[0] && s[7] == c[1] && s[9] == d[0] && s[10] == d[1]);
    assert(s[12] == e[0] && s[13] == e[1] && s[15] == f[0] && s[16] == f[1] && s[17] == f[2]);
}

proof fn lemma_two(n: nat)
    requires
        n < 100,
    ensures
        log::two(n).len() == 2,
        log::two(n)[0] as int == 48 + n / 10,
        log::two(n)[1] as int == 48 + n % 10,
{
}

proof fn lemma_three(n: nat)
    requires
        n < 1000,
    ensures
        log::three(n).len() == 3,
        log::three(n)[0] as int == 48 + n / 100,
        log::three(n)[1] as int == 48 + n % 100 / 10,
        log::three(n)[2] as int == 48 + n % 10,
{
}

/// A line shows its time, its level and its message. It goes to the subscribers exactly where its level is
/// no less than theirs, and to the console exactly where lines go there.
pub proof fn lemma_emission(
    l: Logger,
    at: WallClock,
    level: LogLevel,
    message: Seq<char>,
    e: log::Emission,
)
    requires
        l.emits(at, level, message, Some(e)),
        message.len() > 0,
    ensures
        text::contains_text(e.line@, at.stamp()),
        text::contains_text(e.line@, message),
        text::contains_text(
            e.line@,
            match level {
                LogLevel::Debug => "DBG"@,
                LogLevel::Info => "INF"@,
                LogLevel::Warn => "WRN"@,
                LogLevel::Error => "ERR"@,
            },
        ),
        l.ui_min == LogLevel::Debug ==> e.to_subscribers,
        l.ui_min == LogLevel::Info ==> e.to_subscribers == (level != LogLevel::Debug),
        l.ui_min == LogLevel::Warn ==> e.to_subscribers == (level == LogLevel::Warn || level
            == LogLevel::Error),
        l.ui_min == LogLevel::Error ==> e.to_subscribers == (level == LogLevel::Error),
        e.to_console == l.console_echo,
{
    let s = e.line@;
    let tag = level.tag_text();
    let a0 = seq!['['];
    let a1 = a0 + at.stamp() + seq![']'] + " ["@;
    let a2 = a1 + tag + "] "@;
    assert(s =~= a2 + message);
    assert(s.take((a0 + at.stamp()).len() as int) =~= a0 + at.stamp());
    assert(s.take((a1 + tag).len() as int) =~= a1 + tag);
    assert(s.take((a2 + message).len() as int) =~= a2 + message);
    lemma_at(s, a0, at.stamp());
    lemma_at(s, a1, tag);
    lemma_at(s, a2, message);
}

/// A line is written exactly for a time that the calendar has: April, June, September and November have 30
/// days, February has 28, and 29 in a leap year, and the others have 31. A leap second is the last of a
/// minute.
pub proof fn lemma_calendar(at: WallClock)
    ensures
        at.valid() <==> {
            let leap = at.year as int % 4 == 0 && (at.year as int % 100 != 0 || at.year as int % 400
                == 0);
            &&& -262143 <= at.year <= 262142
            &&& 1 <= at.month <= 12
            &&& 1 <= at.day <= 31
            &&& at.day == 31 ==> at.month != 4 && at.month != 6 && at.month != 9 && at.month != 11
            &&& at.month == 2 ==> at.day <= 29 && (at.day == 29 ==> leap)
            &&& at.hour <= 23 && at.minute <= 59 && at.second <= 59
            &&& at.milli <= 999 || (at.milli <= 1999 && at.second == 59)
        },
{
}

// ---------------------------------------------------------------- summaries

/// Without a terminal a line is printed at every turn until a file was transferred to its end; that is
/// told once, and then nothing is printed.
pub proof fn lemma_summed_up(c: CliV, percent: Seq<char>)
    ensures
        ({
            let (d, line) = status::summed_up(c, percent);
            &&& line is None <==> c.transfer_done && c.summary_done_shown
            &&& !c.transfer_done ==> d == c && line == Some(status::summary_text(c, percent))
            &&& c.transfer_done ==> d == (CliV { summary_done_shown: true, ..c })
            &&& c.transfer_done && !c.summary_done_shown ==> line == Some(
                "[状态] [完成] 刷机完成！请断电重启路由器。"@,
            )
        }),
{
}

/// The list of images numbers them, and behind them the download and the path that is typed in with the two
/// numbers that choose these.
pub proof fn lemma_choices_shown(items: Seq<Seq<char>>)
    requires
        items.len() > 0,
    ensures
        ({
            let s = listing::firmware_choices(items);
            &&& text::contains_text(s, listing::numbered(items, "   "@))
            &&& text::contains_text(s, "["@ + text::dec(items.len() + 1) + "] 从云端列表下载"@)
            &&& text::contains_text(s, "["@ + text::dec(items.len() + 2) + "] 手动输入路径"@)
        }),
{
    reveal_strlit("  ----------\n   [");
    reveal_strlit("[");
    reveal_strlit("] 从云端列表下载\n   [");
    reveal_strlit("] 从云端列表下载");
    reveal_strlit("] 手动输入路径（高级，不推荐）\n");
    reveal_strlit("] 手动输入路径");
    let s = listing::firmware_choices(items);
    let head = " 自动识别到 "@ + text::dec(items.len()) + " 个刷机包：\n"@;
    let list = listing::numbered(items, "   "@);
    assert(s.take((head + list).len() as int) =~= head + list);
    lemma_at(s, head, list);
    let n1 = text::dec(items.len() + 1);
    let n2 = text::dec(items.len() + 2);
    let a = "  ----------\n   ["@;
    let b = "] 从云端列表下载\n   ["@;
    let c = "] 手动输入路径（高级，不推荐）\n"@;
    assert(s =~= head + list + a + n1 + b + n2 + c);
    let f1 = head + list + a.take(a.len() - 1);
    let w1 = "["@ + n1 + "] 从云端列表下载"@;
    assert(s.take((f1 + w1).len() as int) =~= f1 + w1);
    lemma_at(s, f1, w1);
    let f2 = head + list + a + n1 + b.take(b.len() - 1);
    let w2 = "["@ + n2 + "] 手动输入路径"@;
    assert(s.take((f2 + w2).len() as int) =~= f2 + w2);
    lemma_at(s, f2, w2);
}

/// The list of the cloud shows the name and the size of an image.
pub proof fn lemma_cloud_item(r: crate::rom::RomV)
    ensures
        text::contains_text(listing::cloud_item(r), r.name),
        text::contains_text(listing::cloud_item(r), text::dec(r.size as nat) + " 字节"@),
{
    reveal_strlit(" 字节）");
    reveal_strlit(" 字节");
    let s = listing::cloud_item(r);
    let none = Seq::<char>::empty();
    assert(s.take((none + r.name).len() as int) =~= none + r.name);
    lemma_at(s, none, r.name);
    let f = r.name + "（"@;
    let w = text::dec(r.size as nat) + " 字节"@;
    assert(s.take((f + w).len() as int) =~= f + w);
    lemma_at(s, f, w);
}

/// The main menu shows the version, the directory, the adapter and the image, the last two behind the
/// digits that choose them.
pub proof fn lemma_menu_shows(version: Seq<char>, dir: Seq<char>, nic: Seq<char>, fw: Seq<char>)
    ensures
        ({
            let s = menu::menu_body(version, dir, nic, fw);
            &&& text::contains_text(s, version)
            &&& text::contains_text(s, dir)
            &&& text::contains_text(s, "[1] 网卡    : "@ + nic)
            &&& text::contains_text(s, "[2] 刷机包  : "@ + fw)
        }),
{
    let s = menu::menu_body(version, dir, nic, fw);
    reveal_strlit("\n\n [1] 网卡    : ");
    reveal_strlit("[1] 网卡    : ");
    reveal_strlit("\n [2] 刷机包  : ");
    reveal_strlit("[2] 刷机包  : ");
    let a = "小米路由器修复工具 (Rust v"@;
    let b = ") — 命令行版\n刷机包目录（自动识别 .bin）："@;
    let c = "\n\n [1] 网卡    : "@;
    let d = "\n [2] 刷机包  : "@;
    assert(s.take((a + version).len() as int) =~= a + version);
    lemma_at(s, a, version);
    let f1 = a + version + b;
    assert(s.take((f1 + dir).len() as int) =~= f1 + dir);
    lemma_at(s, f1, dir);
    let f2 = f1 + dir + c.take(3);
    let w2 = "[1] 网卡    : "@ + nic;
    assert(s.take((f2 + w2).len() as int) =~= f2 + w2);
    lemma_at(s, f2, w2);
    let f3 = f1 + dir + c + nic + d.take(2);
    let w3 = "[2] 刷机包  : "@ + fw;
    assert(s.take((f3 + w3).len() as int) =~= f3 + w3);
    lemma_at(s, f3, w3);
}

/// On a terminal the menu is drawn with the last lines of the log and a hint; elsewhere it is printed
/// alone.
pub proof fn lemma_menu_screen(
    body: Seq<char>,
    logs: Seq<Seq<char>>,
    candidates: nat,
    chosen: bool,
    tty: bool,
)
    ensures
        ({
            let s = menu::menu_screen(body, logs, candidates, chosen, tty);
            &&& text::contains_text(s, body)
            &&& tty ==> text::contains_text(s, status::lines_text(logs, " "@))
            &&& tty ==> text::contains_text(s, menu::menu_hint(candidates, chosen))
            &&& candidates > 1 && !chosen ==> text::contains_text(
                menu::menu_hint(candidates, chosen),
                text::dec(candidates),
            )
            &&& !tty ==> s.len() == body.len() + 1
        }),
{
    let s = menu::menu_screen(body, logs, candidates, chosen, tty);
    let none = Seq::<char>::empty();
    reveal_strlit("\n");
    if tty {
        let a = "\x1b[2J\x1b[H"@;
        assert(s.take((a + body).len() as int) =~= a + body);
        lemma_at(s, a, body);
        let lines = status::lines_text(logs, " "@);
        if logs.len() > 0 {
            let f = a + body + "\n"@;
            assert(s.take((f + lines).len() as int) =~= f + lines);
            lemma_at(s, f, lines);
        } else {
            assert(lines =~= none);
            assert(s.take((a + lines).len() as int) =~= a + lines);
            lemma_at(s, a, lines);
        }
        let hint = menu::menu_hint(candidates, chosen);
        let f = s.take(s.len() - hint.len());
        assert(s =~= f + hint + none);
        lemma_holds(f, hint, none);
    } else {
        assert(s =~= "\n"@ + body + none);
        lemma_holds("\n"@, body, none);
    }
    if candidates > 1 && !chosen {
        lemma_holds(
            "（提示：程序目录有 "@,
            text::dec(candidates),
            " 个刷机包，按 [2] 选择）\n\n"@,
        );
    }
}

/// The view is headed by what the session is at: done once a file was transferred to its end, and under way
/// before.
pub proof fn lemma_title(done: bool)
    ensures
        done ==> text::contains_text(status::title_text(done), "[完成] 刷机完成"@),
        !done ==> text::contains_text(status::title_text(done), "刷机进行中"@),
        !done ==> !text::contains_text(status::title_text(done), "完成"@),
{
    reveal_strlit("========== [完成] 刷机完成 ==========");
    reveal_strlit("[完成] 刷机完成");
    reveal_strlit("========== 刷机进行中 ==========\n");
    reveal_strlit("刷机进行中");
    reveal_strlit("完成");
    let s = status::title_text(done);
    if done {
        let a = console::ansi_code("32"@) + "========== [完成] 刷机完成 =========="@.take(11);
        let w = "[完成] 刷机完成"@;
        assert(s.take((a + w).len() as int) =~= a + w);
        lemma_at(s, a, w);
    } else {
        let a = s.take(11);
        let w = "刷机进行中"@;
        assert(s.take((a + w).len() as int) =~= a + w);
        lemma_at(s, a, w);
        if text::contains_text(s, "完成"@) {
            let i = choose|i: int| text::stands_at(s, "完成"@, i);
            assert(s.subrange(i, i + 2)[0] == s[i]);
            assert(s[i] == '完');
        }
    }
}

} // verus!
