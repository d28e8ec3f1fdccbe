//! Probing addresses by ARP and ICMP, and clearing the ARP cache: what the answers of the system mean.
//!
//! Security software may block these calls. Answers that are not normal lead to a warning.

use vstd::prelude::*;
use vstd::string::*;

use crate::bytes;
use crate::net;
use crate::text;

verus! {

pub const NO_ERROR: u32 = 0;

pub const ERROR_INSUFFICIENT_BUFFER: u32 = 122;

pub const ERROR_NOT_FOUND: u32 = 1168;

pub const IP_REQ_TIMED_OUT: u32 = 11010;

/// Seconds between two warnings.
pub const WARN_PAUSE_SECS: u64 = 30;

/// Keeps warnings apart: after one, there is none for 30 seconds.
#[derive(Clone, Copy, PartialEq, Eq, Structural)]
pub struct WarnThrottle {
    /// Unix second of the last warning; 0 before the first.
    pub last: u64,
}

impl WarnThrottle {
    /// No warning was given yet.
    pub fn new() -> (r: Self)
        ensures
            r == (WarnThrottle { last: 0 }),
    {
        WarnThrottle { last: 0 }
    }

    /// A warning may go out: the last one is long enough ago.
    pub open spec fn lets_through(last: u64, now: u64) -> bool {
        now >= last + WARN_PAUSE_SECS
    }

    /// Tells whether a warning may be given now, and notes the time if it may.
    pub fn warn_throttled(&mut self, now: u64) -> (r: bool)
        ensures
            r == (now >= old(self).last + WARN_PAUSE_SECS),
            final(self).last == (if r {
                now
            } else {
                old(self).last
            }),
            r == Self::lets_through(old(self).last, now),
    {
        if now < self.last || now - self.last < WARN_PAUSE_SECS {
            return false;
        }
        self.last = now;
        true
    }
}

// ---------------------------------------------------------------- numbers that the system takes and gives

/// The address in network order, as the system takes it: the low byte of the number is the first of the
/// address.
pub fn net_order(ip: u32) -> (r: u32)
    ensures
        r == bytes::reversed(ip),
{
    bytes::reverse(ip)
}

/// The status in the reply to an ICMP echo request: the second of its 32-bit numbers, low byte first.
/// The first is the address that answered.
pub open spec fn status_in(reply: Seq<u8>) -> Option<u32> {
    if reply.len() < 8 {
        None
    } else {
        Some((reply[4] + reply[5] * 0x100 + reply[6] * 0x1_0000 + reply[7] * 0x100_0000) as u32)
    }
}

/// The status in the reply to an ICMP echo request.
pub fn echo_status(reply: &[u8]) -> (r: Option<u32>)
    ensures
        r == status_in(reply@),
{
    if reply.len() < 8 {
        return None;
    }
    Some(
        reply[4] as u32 + reply[5] as u32 * 0x100 + reply[6] as u32 * 0x1_0000 + reply[7] as u32
            * 0x100_0000,
    )
}

// ---------------------------------------------------------------- probes

/// What a probe says of an address.
pub struct ProbeVerdict {
    pub used: bool,
    pub warning: Option<String>,
}

/// What an optional text says.
pub open spec fn warning_view(w: Option<String>) -> Option<Seq<char>> {
    match w {
        Some(w) => Some(w@),
        None => None,
    }
}

/// The warning about an ARP probe that was blocked.
pub open spec fn arp_warning(ip: u32, code: u32) -> Seq<char> {
    "ARP 探测 "@ + net::ip_text(ip) + " 异常失败（错误码 "@ + text::dec(code as nat)
        + "）：很可能被安全软件拦截（如 ARP 攻击防护）。请在本机安全软件中把本程序加入白名单/放行后重试；被拦截时 DHCP 分配可能冲突。"@
}

fn coded_warning(head: &str, ip: u32, middle: &str, code: u32, tail: &str) -> (r: String)
    ensures
        r@ == head@ + net::ip_text(ip) + middle@ + text::dec(code as nat) + tail@,
{
    let mut s: String = head.to_owned();
    let addr: String = net::ip_string(ip);
    s.append(addr.as_str());
    s.append(middle);
    text::push_dec(&mut s, code as u64);
    s.append(tail);
    s
}

/// What ARP says of an address: whether it is in use, and whether that is warned about.
pub open spec fn arp_says(code: u32) -> (bool, bool) {
    (code == NO_ERROR, code != NO_ERROR && code != ERROR_NOT_FOUND)
}

/// What the answer of the system to an ARP request means: an address that answers is in use, one that
/// is not found is not, anything else was probably blocked.
pub fn arp_found(ip: u32, code: u32) -> (r: ProbeVerdict)
    ensures
        r.used == (code == NO_ERROR),
        warning_view(r.warning) == (if code == NO_ERROR || code == ERROR_NOT_FOUND {
            None
        } else {
            Some(arp_warning(ip, code))
        }),
        (r.used, r.warning is Some) == arp_says(code),
{
    if code == NO_ERROR {
        return ProbeVerdict { used: true, warning: None };
    }
    if code == ERROR_NOT_FOUND {
        return ProbeVerdict { used: false, warning: None };
    }
    ProbeVerdict {
        used: false,
        warning: Some(
            coded_warning(
                "ARP 探测 ",
                ip,
                " 异常失败（错误码 ",
                code,
                "）：很可能被安全软件拦截（如 ARP 攻击防护）。请在本机安全软件中把本程序加入白名单/放行后重试；被拦截时 DHCP 分配可能冲突。",
            ),
        ),
    }
}

/// What came of an ICMP echo request.
#[derive(Clone, Copy, PartialEq, Eq, Structural)]
pub enum EchoOutcome {
    /// The probe could not be set up.
    NoHandle,
    /// Nothing came back; the error code of the system.
    NoReply(u32),
    /// Something came back; its status.
    Reply(u32),
}

/// An error that only says that nobody answered.
pub open spec fn echo_error_normal(code: u32) -> bool {
    code == 0 || 11002 <= code <= 11060
}

/// The warning about an ICMP probe that was blocked.
pub open spec fn echo_warning(ip: u32, code: u32) -> Seq<char> {
    "ICMP 探测 "@ + net::ip_text(ip) + " 异常失败（错误码 "@ + text::dec(code as nat)
        + "）：很可能被安全软件拦截。请在本机安全软件中放行本程序的网络探测后重试。"@
}

/// What ICMP says of an address: whether it is in use, and whether that is warned about.
pub open spec fn echo_says(outcome: EchoOutcome) -> (bool, bool) {
    match outcome {
        EchoOutcome::NoHandle => (false, true),
        EchoOutcome::NoReply(code) => (false, !echo_error_normal(code)),
        EchoOutcome::Reply(status) => (status == 0, false),
    }
}

/// What the outcome of an ICMP echo request means: an address that answers with success is in use.
pub fn icmp_echo(ip: u32, outcome: EchoOutcome) -> (r: ProbeVerdict)
    ensures
        r.used == (outcome == EchoOutcome::Reply(0)),
        warning_view(r.warning) == match outcome {
            EchoOutcome::NoHandle => Some(
                "无法创建 ICMP 探测句柄（IcmpCreateFile 失败）：可能被安全软件拦截。"@,
            ),
            EchoOutcome::NoReply(code) => if echo_error_normal(code) {
                None
            } else {
                Some(echo_warning(ip, code))
            },
            EchoOutcome::Reply(_) => None,
        },
        (r.used, r.warning is Some) == echo_says(outcome),
{
    match outcome {
        EchoOutcome::NoHandle => ProbeVerdict {
            used: false,
            warning: Some(
                "无法创建 ICMP 探测句柄（IcmpCreateFile 失败）：可能被安全软件拦截。".to_owned(),
            ),
        },
        EchoOutcome::NoReply(code) => {
            if code == IP_REQ_TIMED_OUT || (code >= 11002 && code <= 11060) || code == 0 {
                ProbeVerdict { used: false, warning: None }
            } else {
                ProbeVerdict {
                    used: false,
                    warning: Some(
                        coded_warning(
                            "ICMP 探测 ",
                            ip,
                            " 异常失败（错误码 ",
                            code,
                            "）：很可能被安全软件拦截。请在本机安全软件中放行本程序的网络探测后重试。",
                        ),
                    ),
                }
            }
        },
        EchoOutcome::Reply(status) => ProbeVerdict { used: status == 0, warning: None },
    }
}

/// What is known of an address while it is probed.
pub enum ProbeEvent {
    /// What ARP says of it.
    Arp(ProbeVerdict),
    /// What ICMP says of it.
    Echo(ProbeVerdict),
}

/// What comes next in a probe.
#[derive(Clone, Copy, PartialEq, Eq, Structural)]
pub enum ProbeNext {
    /// ICMP is asked too.
    AskEcho,
    /// It is known whether the address is in use.
    Known(bool),
}

/// What follows the verdict of ARP: an address that it finds is in use, and only for one that it does
/// not find ICMP is asked.
pub open spec fn after_arp(used: bool) -> ProbeNext {
    if used {
        ProbeNext::Known(true)
    } else {
        ProbeNext::AskEcho
    }
}

/// Whether an address is in use, by the verdicts of ARP and ICMP.
pub open spec fn in_use(arp: bool, echo: bool) -> bool {
    match after_arp(arp) {
        ProbeNext::Known(used) => used,
        ProbeNext::AskEcho => echo,
    }
}

/// What comes next after ARP or ICMP has answered, with the warning that the answer carries. ARP is
/// asked first; where ICMP is asked too, it decides.
pub fn ip_in_use(event: ProbeEvent) -> (r: (Option<String>, ProbeNext))
    ensures
        match event {
            ProbeEvent::Arp(v) => warning_view(r.0) == warning_view(v.warning) && r.1 == after_arp(
                v.used,
            ),
            ProbeEvent::Echo(v) => warning_view(r.0) == warning_view(v.warning) && r.1
                == ProbeNext::Known(v.used),
        },
{
    match event {
        ProbeEvent::Arp(v) => if v.used {
            (v.warning, ProbeNext::Known(true))
        } else {
            (v.warning, ProbeNext::AskEcho)
        },
        ProbeEvent::Echo(v) => (v.warning, ProbeNext::Known(v.used)),
    }
}

/// An address is in use where ARP or ICMP finds it, and ICMP is asked only where ARP finds nothing.
pub proof fn lemma_in_use(arp: bool, echo: bool)
    ensures
        in_use(arp, echo) == (arp || echo),
        after_arp(arp) == ProbeNext::AskEcho <==> !arp,
{
}

// ---------------------------------------------------------------- the ARP table

/// The failure of a question about the ARP table.
pub open spec fn table_failure(call: Seq<char>, code: u32) -> Seq<char> {
    call + " 失败: 0x"@ + net::hex(code as nat) + "（可能被安全软件拦截 ARP 表访问）"@
}

fn table_error(call: &str, code: u32) -> (r: String)
    ensures
        r@ == table_failure(call@, code),
{
    let mut s: String = call.to_owned();
    s.append(" 失败: 0x");
    let digits: String = net::hex_string(code);
    s.append(digits.as_str());
    s.append("（可能被安全软件拦截 ARP 表访问）");
    s
}

/// The question for the size of the ARP table: the answer must be that a buffer is needed.
pub fn arp_size_answer(code: u32) -> (r: Result<(), String>)
    ensures
        if code == ERROR_INSUFFICIENT_BUFFER {
            r is Ok
        } else {
            r matches Err(e) && e@ == table_failure("GetIpNetTable(尺寸)"@, code)
        },
{
    if code == ERROR_INSUFFICIENT_BUFFER {
        Ok(())
    } else {
        Err(table_error("GetIpNetTable(尺寸)", code))
    }
}

/// The question for the ARP table itself.
pub fn arp_table_answer(code: u32) -> (r: Result<(), String>)
    ensures
        if code == NO_ERROR {
            r is Ok
        } else {
            r matches Err(e) && e@ == table_failure("GetIpNetTable"@, code)
        },
{
    if code == NO_ERROR {
        Ok(())
    } else {
        Err(table_error("GetIpNetTable", code))
    }
}

/// Numbers of the rows with this address, in order.
pub open spec fn rows_with(addresses: Seq<u32>, target: u32) -> Seq<int>
    decreases addresses.len(),
{
    if addresses.len() == 0 {
        Seq::empty()
    } else {
        let before = rows_with(addresses.drop_last(), target);
        if addresses.last() == target {
            before.push(addresses.len() - 1)
        } else {
            before
        }
    }
}

/// The rows of the ARP table that are to be deleted: those of the address.
pub fn rows_to_delete(addresses: &Vec<u32>, target: u32) -> (r: Vec<usize>)
    ensures
        r@.map_values(|i: usize| i as int) == rows_with(addresses@, target),
{
    let mut out: Vec<usize> = Vec::new();
    let mut i: usize = 0;
    assert(out@.map_values(|i: usize| i as int) =~= rows_with(addresses@.take(0), target));
    while i < addresses.len()
        invariant
            i <= addresses@.len(),
            out@.map_values(|i: usize| i as int) == rows_with(addresses@.take(i as int), target),
        decreases addresses@.len() - i,
    {
        let ghost before = out@.map_values(|i: usize| i as int);
        assert(addresses@.take(i + 1).drop_last() =~= addresses@.take(i as int));
        if addresses[i] == target {
            out.push(i);
            assert(out@.map_values(|i: usize| i as int) =~= before.push(i as int));
        }
        i = i + 1;
    }
    assert(addresses@.take(i as int) =~= addresses@);
    out
}

/// The warning about a row that could not be deleted.
pub open spec fn delete_warning(ip: u32, code: u32) -> Seq<char> {
    "删除 ARP 缓存条目 "@ + net::ip_text(ip) + " 失败（错误码 "@ + text::dec(code as nat)
        + "）：很可能被安全软件拦截（ARP 攻击防护）。路由器可能因陈旧缓存连接失败；请在安全软件中放行后重试。"@
}

/// What the answer of the system to the deletion of a row means: no warning where it was deleted.
pub fn delete_answer(ip: u32, code: u32) -> (r: Option<String>)
    ensures
        warning_view(r) == (if code == NO_ERROR {
            None
        } else {
            Some(delete_warning(ip, code))
        }),
{
    if code == NO_ERROR {
        None
    } else {
        Some(
            coded_warning(
                "删除 ARP 缓存条目 ",
                ip,
                " 失败（错误码 ",
                code,
                "）：很可能被安全软件拦截（ARP 攻击防护）。路由器可能因陈旧缓存连接失败；请在安全软件中放行后重试。",
            ),
        )
    }
}

// ---------------------------------------------------------------- laws

/// A warning goes out where none went out in the last 30 seconds, and only there.
pub proof fn lemma_throttle(last: u64, now: u64)
    ensures
        WarnThrottle::lets_through(last, now) <==> now - last >= 30,
{
}

/// ARP finds an address where it answers without an error. That nobody answered is no cause for a warning;
/// any other error is.
pub proof fn lemma_arp_says(code: u32)
    ensures
        arp_says(code).0 <==> code == 0,
        arp_says(code).1 <==> code != 0 && code != 1168,
{
}

/// ICMP finds an address where it answers with success. A probe that could not be set up is warned about,
/// and so is an error that is none of those that silence gives.
pub proof fn lemma_echo_says(code: u32)
    ensures
        echo_says(EchoOutcome::NoHandle) == (false, true),
        echo_says(EchoOutcome::Reply(code)) == (code == 0, false),
        echo_says(EchoOutcome::NoReply(code)) == (false, code != 0 && (code < 11002 || code > 11060)),
{
}

/// The status of an echo reply stands in its bytes 4 to 7, the lowest first; a shorter reply has none.
pub proof fn lemma_echo_status(reply: Seq<u8>)
    ensures
        reply.len() < 8 ==> status_in(reply) is None,
        reply.len() >= 8 ==> (status_in(reply) matches Some(v) && {
            &&& v % 0x100 == reply[4]
            &&& v / 0x100 % 0x100 == reply[5]
            &&& v / 0x1_0000 % 0x100 == reply[6]
            &&& v / 0x100_0000 == reply[7]
        }),
{
    if reply.len() >= 8 {
        bytes::lemma_four(reply[7] as int, reply[6] as int, reply[5] as int, reply[4] as int);
    }
}

/// A row of the ARP table is deleted exactly where it holds the address.
pub proof fn lemma_rows(addresses: Seq<u32>, target: u32, i: int)
    ensures
        rows_with(addresses, target).contains(i) <==> 0 <= i < addresses.len() && addresses[i]
            == target,
    decreases addresses.len(),
{
    let all = rows_with(addresses, target);
    if addresses.len() > 0 {
        let init = addresses.drop_last();
        let before = rows_with(init, target);
        lemma_rows(init, target, i);
        if addresses.last() == target {
            assert(all == before.push(addresses.len() - 1));
            if before.contains(i) {
                let k = choose|k: int| 0 <= k < before.len() && before[k] == i;
                assert(all[k] == i);
            }
            if i == addresses.len() - 1 {
                assert(all[before.len() as int] == i);
            }
            if all.contains(i) && i != addresses.len() - 1 {
                let k = choose|k: int| 0 <= k < all.len() && all[k] == i;
                assert(k < before.len());
                assert(before[k] == i);
            }
        }
    }
}

} // verus!
