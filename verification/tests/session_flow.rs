use miwifi_repair::leases::{LeaseFile, LeaseRecord};
use miwifi_repair::lifecycle::{
    apply_start, arp_clear_failure, begin_stop, end_stop, lease_save_failure, probe_line, restore_route,
    RestoreRoute, StartEvent, StartNext, StartPhase, Starting, Undo,
};
use miwifi_repair::log::LogLevel;
use miwifi_repair::nic::NicInfo;
use miwifi_repair::probe::{
    arp_found, arp_size_answer, arp_table_answer, delete_answer, echo_status, icmp_echo, ip_in_use,
    net_order, rows_to_delete, EchoOutcome, ProbeEvent, ProbeNext, ProbeVerdict, WarnThrottle,
};
use miwifi_repair::session::{idle, CliState, Session, SessionEffect};
use miwifi_repair::status::{
    print_summary, render_next, render_step, render_view, status_answer, status_input,
    status_menu, status_prompt, stopped_line, RenderAction, RenderEvent, RenderNext, StatusAction,
    StatusView, TransferLook, ViewEvent, ViewNext, ViewPhase,
};
use miwifi_repair::stopping::{StopEvent, StopNext, StopPhase, Stopping};
use miwifi_repair::tftp::TransferInfo;

fn adapter() -> NicInfo {
    NicInfo {
        name: "eth".to_string(),
        description: String::new(),
        mac: "AA".to_string(),
        up: true,
        is_dhcp: true,
        link_speed: 5,
        ipv4: None,
        ipv4_mask: None,
        gateway: None,
        dns: Vec::new(),
    }
}

fn said(effects: &[SessionEffect]) -> Vec<String> {
    effects
        .iter()
        .map(|e| match e {
            SessionEffect::Log(l, s) => format!("{} {}", l.tag(), s),
            SessionEffect::Blank => String::new(),
        })
        .collect()
}

fn line(e: &SessionEffect) -> (LogLevel, String) {
    match e {
        SessionEffect::Log(l, s) => (*l, s.clone()),
        SessionEffect::Blank => panic!("a blank line"),
    }
}

fn walk(s: &mut Starting, events: Vec<StartEvent>) -> (Vec<String>, StartNext) {
    let mut last = None;
    for e in events {
        let (effects, next) = s.start_session(e);
        last = Some((said(&effects), next));
    }
    last.unwrap()
}

fn up_to_rights() -> Vec<StartEvent> {
    vec![
        StartEvent::Directory(true),
        StartEvent::Firmware(true),
        StartEvent::Location(false),
        StartEvent::Leases(LeaseFile::default()),
        StartEvent::Dhcp(Ok(())),
        StartEvent::Tftp(Ok(())),
    ]
}

fn failed(next: StartNext) -> (String, Undo) {
    match next {
        StartNext::Fail { message, undo } => (message, undo),
        _ => panic!("the start did not fail"),
    }
}

fn report(file: &str, done: bool, error: Option<&str>) -> TransferInfo {
    let mut t = TransferInfo::new(file, "r:1", 100, false);
    t.done = done;
    t.error = error.map(|e| e.to_string());
    t
}

#[test]
fn a_start_with_rights_runs() {
    let mut s = Starting::new(adapter(), "f.bin".to_string());
    let (lines, next) = walk(&mut s, up_to_rights());
    assert_eq!(
        lines,
        vec![
            "INF 正在配置网卡「eth」为 192.168.31.1/255.255.255.0 ...",
            "DBG netsh: interface ip set address name=\"eth\" static 192.168.31.1 255.255.255.0",
        ]
    );
    assert!(matches!(next, StartNext::CheckRights));
    match s.start_session(StartEvent::Rights(true)).1 {
        StartNext::SetAddress(step) => assert!(step.args.contains("static 192.168.31.1")),
        _ => panic!("the address was not set"),
    }
    assert!(matches!(
        s.start_session(StartEvent::Address(Ok(()))).1,
        StartNext::OpenFirewall
    ));
    let (lines, next) = s.start_session(StartEvent::Firewall(Ok(())));
    assert!(matches!(next, StartNext::Run));
    assert!(s.phase == StartPhase::Running);
    assert_eq!(
        said(&lines)[1],
        "INF 刷机服务已启动（DHCP 地址池 192.168.31.100 - 192.168.31.199，TFTP 根目录为程序目录）。"
    );
    assert_eq!(lines.len(), 6);
}

#[test]
fn a_start_without_rights_asks_the_helper() {
    let mut s = Starting::new(adapter(), "f.bin".to_string());
    walk(&mut s, up_to_rights());
    match s.start_session(StartEvent::Rights(false)).1 {
        StartNext::RunHelper(args) => assert_eq!(args, vec!["--nic \"eth\""]),
        _ => panic!("no helper"),
    }
    let (lines, next) = s.start_session(StartEvent::Helper(Ok(())));
    assert!(matches!(next, StartNext::Run));
    assert_eq!(said(&lines)[0], "INF 网卡与防火墙已配置（提权操作完成）。");
}

#[test]
fn every_failure_of_a_start_is_undone() {
    let fail_after = |n: usize, e: StartEvent| {
        let mut s = Starting::new(adapter(), "f.bin".to_string());
        let mut events = up_to_rights();
        events.truncate(n);
        events.push(e);
        failed(walk(&mut s, events).1)
    };
    let no = || Err("E".to_string());
    let (m, u) = fail_after(0, StartEvent::Directory(false));
    assert!(m == "无法确定程序目录" && u == Undo::Nothing);
    let (m, u) = fail_after(1, StartEvent::Firmware(false));
    assert!(m == "刷机包文件不存在：f.bin" && u == Undo::Nothing);
    let (m, u) = fail_after(4, StartEvent::Dhcp(no()));
    assert!(m.starts_with("DHCP 启动失败：E。\n  排查：端口 67") && u == Undo::Stop { restore: false });
    let (m, u) = fail_after(5, StartEvent::Tftp(no()));
    assert!(m.starts_with("TFTP 启动失败：E。\n  排查：端口 69") && u == Undo::Stop { restore: false });

    let mut s = Starting::new(adapter(), "f.bin".to_string());
    walk(
        &mut s,
        vec![StartEvent::Directory(true), StartEvent::Firmware(true), StartEvent::Location(true)],
    );
    let (m, u) = failed(s.start_session(StartEvent::Copied(Err("E".to_string()))).1);
    assert!(m == "无法将刷机包复制到程序目录：E" && u == Undo::RemoveCopy);

    let after_rights = |admin: bool, events: Vec<StartEvent>| {
        let mut s = Starting::new(adapter(), "f.bin".to_string());
        walk(&mut s, up_to_rights());
        s.start_session(StartEvent::Rights(admin));
        failed(walk(&mut s, events).1)
    };
    let (m, u) = after_rights(true, vec![StartEvent::Address(no())]);
    assert!(m.starts_with("修改网卡失败：E\n") && u == Undo::Stop { restore: true });
    let (m, u) = after_rights(true, vec![StartEvent::Address(Ok(())), StartEvent::Firewall(no())]);
    assert!(m.starts_with("配置防火墙失败：E\n") && u == Undo::Stop { restore: true });
    let (m, u) = after_rights(false, vec![StartEvent::Helper(no())]);
    assert!(m.starts_with("设置网卡失败：E\n") && u == Undo::Stop { restore: false });
}

#[test]
fn a_start_tells_of_links_copies_and_leases() {
    let mut n = adapter();
    n.link_speed = 0;
    let mut s = Starting::new(n, "f.bin".to_string());
    let (lines, _) = walk(&mut s, vec![StartEvent::Directory(true), StartEvent::Firmware(true)]);
    assert!(lines[0].starts_with("WRN [!] 网卡链路无信号"));
    assert!(matches!(
        s.start_session(StartEvent::Location(true)).1,
        StartNext::Copy
    ));
    let (lines, _) = walk(&mut s, vec![StartEvent::Copied(Ok("d/f.bin".to_string()))]);
    assert_eq!(lines, vec!["INF 已将刷机包复制到程序目录：d/f.bin"]);
    let rec = |ip: &str| LeaseRecord { mac: "m".to_string(), ip: ip.to_string(), expires_unix: 3 };
    let file = LeaseFile { leases: vec![rec("1.1.1.1"), rec("?")] };
    let (lines, next) = walk(&mut s, vec![StartEvent::Leases(file)]);
    assert_eq!(lines, vec!["INF 已载入 1 条历史租约"]);
    match next {
        StartNext::StartDhcp(v) => assert_eq!(v, vec![("m".to_string(), 0x0101_0101, 3)]),
        _ => panic!("the server was not started"),
    }
}

#[test]
fn a_stop_puts_the_adapter_back_or_remembers_it() {
    let mut s = Session::new(adapter());
    assert!(begin_stop(&mut s, false).is_none());
    let snap = begin_stop(&mut s, true).unwrap();
    let e = end_stop(&mut s, snap, Err("denied".to_string()));
    assert_eq!(line(&e), (LogLevel::Error, "恢复网卡配置失败：denied".to_string()));
    let snap = begin_stop(&mut s, true).unwrap();
    assert_eq!(snap.name, "eth");
    let e = end_stop(&mut s, snap, Ok(()));
    assert_eq!(line(&e), (LogLevel::Info, "网卡配置已恢复。".to_string()));
    assert!(begin_stop(&mut s, true).is_none());
    assert!(Session::placeholder().nic_snapshot.is_none());
}

#[test]
fn the_way_back_depends_on_the_rights() {
    match restore_route(&adapter(), true).1 {
        RestoreRoute::Direct(Ok(steps)) => assert_eq!(steps.len(), 2),
        _ => panic!("not direct"),
    }
    let mut n = adapter();
    n.is_dhcp = false;
    n.ipv4 = Some(0x0102_0304);
    n.ipv4_mask = Some(0xFF00_0000);
    n.gateway = Some(0x0102_0301);
    n.dns = vec![0x0808_0808, 0x0909_0909];
    let (e, route) = restore_route(&n, false);
    assert_eq!(
        said(&e),
        vec!["INF 正在请求管理员权限（仅用于恢复网卡与删除防火墙规则）..."]
    );
    match route {
        RestoreRoute::Helper(args) => assert_eq!(
            args,
            vec![
                "--nic \"eth\"",
                "--ip 1.2.3.4",
                "--mask 255.0.0.0",
                "--gateway 1.2.3.1",
                "--dns 8.8.8.8,9.9.9.9"
            ]
        ),
        _ => panic!("no helper"),
    }
    n.ipv4_mask = None;
    match restore_route(&n, true).1 {
        RestoreRoute::Direct(Err(e)) => assert_eq!(e, "恢复参数不完整：缺少掩码（--mask）"),
        _ => panic!("a plan without mask"),
    }
}

#[test]
fn the_log_keeps_the_latest_lines() {
    let mut c = CliState::default();
    for i in 0..205 {
        c.push_log(format!("{i}"));
    }
    let all = c.last_lines(1000);
    assert_eq!(all.len(), 200);
    assert_eq!(all[0], "5");
    assert_eq!(c.last_lines(2), vec!["203", "204"]);
    assert!(c.last_lines(0).is_empty());
}

#[test]
fn reports_of_other_sessions_are_dropped() {
    let mut c = CliState::default();
    let epoch = c.next_epoch();
    assert_eq!(epoch, 1);
    c.started();
    c.transfer_updated(epoch, report("a", true, None));
    assert!(c.is_done());
    c.transfer_updated(epoch, report("a", false, None));
    assert!(!c.is_done());
    c.transfer_updated(epoch, report("a", true, Some("timeout")));
    assert!(!c.is_done());
    c.stopped();
    assert!(!c.is_running() && c.current_transfer().is_none());
    c.transfer_updated(epoch, report("a", true, None));
    assert!(!c.is_done() && c.current_transfer().is_none());
    assert_eq!(c.next_epoch(), 3);
}

#[test]
fn silence_is_warned_about_and_ends_the_session() {
    let mut s = Session::new(adapter());
    let mut c = CliState::default();
    c.started();
    s.begin(1000);
    assert_eq!(idle(1044, 1000, 0), 44);
    assert_eq!(idle(5, 1000, 0), 0);
    assert_eq!(idle(1044, 1000, 1040), 4);
    let tick = |s: &mut Session, c: &mut CliState, now: u64| {
        let (e, stop) = s.tick_connection(c, true, now, 0);
        (said(&e), stop)
    };
    assert!(tick(&mut s, &mut c, 1044).0.is_empty());
    assert!(c.warning().is_none());
    let (e, stop) = tick(&mut s, &mut c, 1045);
    assert!(e[0].starts_with("WRN 45 秒未检测到路由器 DHCP 请求：") && !stop);
    assert_eq!(
        c.warning().as_deref(),
        Some("已等待 45 秒未检测到路由器请求（300 秒无活动将自动停止）。")
    );
    assert!(tick(&mut s, &mut c, 1074).0.is_empty());
    assert_eq!(
        tick(&mut s, &mut c, 1075).0,
        vec!["WRN 仍无设备活动（已等待 75 秒）……"]
    );
    let (e, stop) = tick(&mut s, &mut c, 1300);
    assert!(e[0].starts_with("ERR 300 秒未检测到路由器 DHCP 请求") && stop);
    let (e, stop) = tick(&mut s, &mut c, 1400);
    assert!(e.is_empty() && !stop);
    // a packet in time takes the warning back
    let mut s = Session::new(adapter());
    s.begin(1000);
    s.tick_connection(&mut c, true, 1050, 0);
    assert!(c.warning().is_some());
    s.tick_connection(&mut c, true, 1060, 1055);
    assert!(c.warning().is_none() && !s.idle_warned);
    // after a finished transfer the end is no failure
    let epoch = c.next_epoch();
    c.transfer_updated(epoch, report("a", true, None));
    let (e, stop) = s.tick_connection(&mut c, true, 9000, 1);
    assert!(said(&e)[0].starts_with("INF 刷机已完成") && stop);
    // without a server nothing happens
    assert!(!s.tick_connection(&mut c, false, 99_999, 1).1);
}

#[test]
fn the_end_of_a_transfer_is_told_once() {
    let mut s = Session::new(adapter());
    assert!(s.notify_done(false).is_empty());
    assert_eq!(s.notify_done(true).len(), 4);
    assert!(s.notify_done(true).is_empty());
}

#[test]
fn the_view_shows_everything() {
    let mut c = CliState::default();
    let look = TransferLook {
        bar: "[#-]".to_string(),
        percent: "50".to_string(),
        rate: "1.5".to_string(),
    };
    c.push_log("one".to_string());
    let v = render_view(&c, "NIC", &look, 3);
    assert_eq!(
        v,
        "\x1b[2J\x1b[H========== 刷机进行中 ==========\n网卡 : NIC\nDHCP : 设备 无（等待路由器请求）\nTFTP : 等待路由器请求 ...\n连接 : \x1b[32m[正常] 最近活动 3 秒前\x1b[0m\n----------------------------------------\none\n----------------------------------------\n[按 Enter 打开操作菜单 · Ctrl+C 安全退出（恢复网卡）]\n"
    );
    let epoch = c.next_epoch();
    c.device_seen("AA:BB", 0xC0A8_1F64);
    c.transfer_updated(epoch, report("f", false, None));
    let v = render_view(&c, "NIC", &look, 15);
    assert!(v.contains("DHCP : 设备 路由器 (AA:BB → 192.168.31.100)\n"));
    assert!(v.contains("TFTP : [#-] 50%  1.5 KB/s  块 0  重传 0  f\n"));
    assert!(v.contains("\x1b[33m[注意] 最近活动 15 秒前\x1b[0m"));
    c.transfer_updated(epoch, report("f", true, Some("timeout")));
    let v = render_view(&c, "NIC", &look, 45);
    assert!(v.contains("TFTP : 失败：timeout\n"));
    assert!(v.contains("\x1b[31m[告警] 已等待 45 秒无请求，300 秒将自动停止\x1b[0m"));
    let mut t = report("f", true, None);
    t.bytes_sent = 10;
    t.blocks = 2;
    t.nanos = 3_999_999_999;
    c.transfer_updated(epoch, t);
    let v = render_view(&c, "NIC", &look, 0);
    assert!(v.contains("\x1b[32m========== [完成] 刷机完成 ==========\x1b[0m\n"));
    assert!(v.contains("TFTP : 完成：10 字节，2 块，3 秒，重传 0 次\n\x1b[32m[完成] 固件已传输完成！"));
    assert!(v.ends_with("[按 Enter 打开完成菜单（停止并回到主菜单）· Ctrl+C 安全退出（恢复网卡）]\n"));
}

#[test]
fn the_summary_tells_the_end_once() {
    let mut c = CliState::default();
    assert_eq!(print_summary(&mut c, "0"), Some("[状态] 无设备 · TFTP 等待中".to_string()));
    let epoch = c.next_epoch();
    c.device_seen("M", 0x0102_0304);
    c.transfer_updated(epoch, report("f", false, None));
    assert_eq!(
        print_summary(&mut c, "12"),
        Some("[状态] 设备 M → 1.2.3.4 · TFTP 12% 块0 重传0".to_string())
    );
    c.transfer_updated(epoch, report("f", true, Some("x")));
    assert_eq!(
        print_summary(&mut c, "12"),
        Some("[状态] 设备 M → 1.2.3.4 · TFTP 失败：x".to_string())
    );
    c.transfer_updated(epoch, report("f", true, None));
    assert_eq!(
        print_summary(&mut c, "12"),
        Some("[状态] [完成] 刷机完成！请断电重启路由器。".to_string())
    );
    assert_eq!(print_summary(&mut c, "12"), None);
}

#[test]
fn the_loops_of_the_view_decide() {
    assert!(render_step(false, true, true, true) == RenderAction::Leave);
    assert!(render_step(true, true, true, true) == RenderAction::Pause);
    assert!(render_step(true, false, true, true) == RenderAction::Draw);
    assert!(render_step(true, false, false, true) == RenderAction::Summarize);
    assert!(render_step(true, false, false, false) == RenderAction::Rest);
    assert!(status_input(None) == StatusAction::StopAtEnd);
    assert!(status_input(Some(" \r\n")) == StatusAction::OpenMenu);
    assert!(status_input(Some("1\n")) == StatusAction::StopToMenu);
    assert!(status_input(Some("0\n")) == StatusAction::Quit);
    assert!(status_input(Some("x\n")) == StatusAction::Continue);
    assert!(status_answer(None) == StatusAction::Continue);
    assert!(status_answer(Some("2")) == StatusAction::Continue);
    assert!(status_answer(Some("1")) == StatusAction::StopToMenu);
    assert_eq!(status_prompt(true), "\n[按 Enter 打开完成菜单 · Ctrl+C 安全退出] ");
    assert!(status_menu(false).contains("操作菜单"));
    assert!(status_menu(true).contains("刷机完成"));
    assert_eq!(stopped_line(false), "已停止刷机并恢复网卡。");
}

#[test]
fn probes_mean_what_they_answer() {
    let v = arp_found(1, 0);
    assert!(v.used && v.warning.is_none());
    let v = arp_found(1, 1168);
    assert!(!v.used && v.warning.is_none());
    let v = arp_found(0x0102_0304, 5);
    assert!(!v.used);
    assert!(v.warning.unwrap().starts_with("ARP 探测 1.2.3.4 异常失败（错误码 5）：很可能被安全软件拦截"));
    assert!(icmp_echo(1, EchoOutcome::Reply(0)).used);
    assert!(!icmp_echo(1, EchoOutcome::Reply(11003)).used);
    for normal in [0, 11002, 11010, 11060] {
        assert!(icmp_echo(1, EchoOutcome::NoReply(normal)).warning.is_none());
    }
    assert!(icmp_echo(1, EchoOutcome::NoReply(11061)).warning.is_some());
    assert!(icmp_echo(1, EchoOutcome::NoReply(5))
        .warning
        .unwrap()
        .starts_with("ICMP 探测 0.0.0.1 异常失败（错误码 5）"));
    assert!(icmp_echo(1, EchoOutcome::NoHandle).warning.unwrap().starts_with("无法创建 ICMP 探测句柄"));
    assert_eq!(arp_size_answer(122), Ok(()));
    assert_eq!(
        arp_size_answer(0xE8),
        Err("GetIpNetTable(尺寸) 失败: 0xE8（可能被安全软件拦截 ARP 表访问）".to_string())
    );
    assert_eq!(arp_table_answer(0), Ok(()));
    assert_eq!(
        arp_table_answer(5),
        Err("GetIpNetTable 失败: 0x5（可能被安全软件拦截 ARP 表访问）".to_string())
    );
    assert_eq!(rows_to_delete(&vec![1, 2, 1, 3], 1), vec![0, 2]);
    assert_eq!(delete_answer(1, 0), None);
    assert!(delete_answer(1, 5).unwrap().starts_with("删除 ARP 缓存条目 0.0.0.1 失败（错误码 5）"));
}

#[test]
fn warnings_are_kept_apart() {
    let mut t = WarnThrottle::new();
    assert!(!t.warn_throttled(29));
    assert!(t.warn_throttled(30));
    assert!(!t.warn_throttled(59));
    assert!(!t.warn_throttled(10));
    assert!(t.warn_throttled(60));
    assert_eq!(t.last, 60);
}

#[test]
fn server_reports_read_as_they_should() {
    assert_eq!(
        line(&probe_line(0xC0A8_1F64, true)),
        (LogLevel::Debug, "防冲突探测 192.168.31.100: 占用（跳过）".to_string())
    );
    assert_eq!(
        line(&probe_line(0xC0A8_1F64, false)).1,
        "防冲突探测 192.168.31.100: 空闲（可分配）"
    );
    assert!(line(&arp_clear_failure("x")).1.starts_with("清理 ARP 缓存失败（x）："));
    assert_eq!(
        line(&lease_save_failure("x")),
        (LogLevel::Warn, "保存租约失败：x".to_string())
    );
}

#[test]
fn addresses_go_out_in_network_order() {
    assert_eq!(net_order(0xC0A8_1F01), 0x011F_A8C0);
    assert_eq!(net_order(net_order(0x0102_0304)), 0x0102_0304);
    let mut reply = [0u8; 128];
    reply[..4].copy_from_slice(&[192, 168, 31, 100]);
    assert_eq!(echo_status(&reply), Some(0));
    reply[4..8].copy_from_slice(&11003u32.to_le_bytes());
    assert_eq!(echo_status(&reply), Some(11003));
    assert_eq!(echo_status(&reply[..7]), None);
}

fn running_state() -> CliState {
    let mut c = CliState::default();
    let epoch = c.next_epoch();
    c.started();
    c.device_seen("M", 1);
    c.transfer_updated(epoch, report("f", true, None));
    c
}

#[test]
fn a_stop_goes_through_its_phases() {
    let mut s = Session::new(adapter());
    let mut c = running_state();
    let leases = vec![("M".to_string(), 0x0102_0304, 9)];
    let (mut stop, next) = Stopping::begin(&mut s, &mut c, true, Some(leases), true);
    match next {
        StopNext::StoreLeases(f) => assert_eq!(f.leases[0].ip, "1.2.3.4"),
        _ => panic!("the leases are not stored"),
    }
    let (lines, next) = stop.step(&mut s, &mut c, StopEvent::Stored(Err("full".to_string())));
    assert_eq!(said(&lines), vec!["WRN 保存租约失败：full"]);
    assert!(matches!(next, StopNext::StopTftp));
    let (_, next) = stop.step(&mut s, &mut c, StopEvent::TftpStopped);
    assert!(matches!(next, StopNext::StopDhcp));
    let (_, next) = stop.step(&mut s, &mut c, StopEvent::DhcpStopped);
    assert!(matches!(next, StopNext::CheckRights));
    let (_, next) = stop.step(&mut s, &mut c, StopEvent::Rights(true));
    assert!(matches!(next, StopNext::DeleteFirewall));
    let (_, next) = stop.step(&mut s, &mut c, StopEvent::FirewallDeleted);
    match next {
        StopNext::RunSteps(steps) => assert_eq!(steps.len(), 2),
        _ => panic!("the adapter is not put back"),
    }
    assert!(c.is_running() && c.is_done());
    let (lines, next) = stop.step(&mut s, &mut c, StopEvent::Restored(Err("denied".to_string())));
    assert_eq!(said(&lines), vec!["ERR 恢复网卡配置失败：denied"]);
    assert!(matches!(next, StopNext::Done) && stop.phase == StopPhase::Stopped);
    assert!(!c.is_running() && !c.is_done() && c.device().is_none());
    assert_eq!(c.epoch(), 2);

    // the next stop tries again, now through a helper process
    let (mut stop, next) = Stopping::begin(&mut s, &mut c, true, None, false);
    assert!(matches!(next, StopNext::CheckRights));
    let (lines, next) = stop.step(&mut s, &mut c, StopEvent::Rights(false));
    assert_eq!(lines.len(), 1);
    match next {
        StopNext::RunHelper(args) => assert_eq!(args, vec!["--nic \"eth\"", "--dhcp"]),
        _ => panic!("no helper"),
    }
    let (lines, _) = stop.step(&mut s, &mut c, StopEvent::Restored(Ok(())));
    assert_eq!(said(&lines), vec!["INF 网卡配置已恢复。"]);
    assert!(s.nic_snapshot.is_none());
    assert_eq!(c.epoch(), 3);
}

#[test]
fn a_stop_with_nothing_to_do_ends_at_once() {
    let mut s = Session::new(adapter());
    let mut c = running_state();
    let (stop, next) = Stopping::begin(&mut s, &mut c, false, None, false);
    assert!(matches!(next, StopNext::Done) && stop.phase == StopPhase::Stopped);
    assert!(!c.is_running() && s.nic_snapshot.is_some());

    // an adapter that cannot be put back is kept in mind
    let mut n = adapter();
    n.is_dhcp = false;
    n.ipv4 = Some(1);
    let mut s = Session::new(n);
    let mut c = running_state();
    let (mut stop, _) = Stopping::begin(&mut s, &mut c, true, None, true);
    stop.step(&mut s, &mut c, StopEvent::TftpStopped);
    stop.step(&mut s, &mut c, StopEvent::Rights(true));
    let (lines, next) = stop.step(&mut s, &mut c, StopEvent::FirewallDeleted);
    assert_eq!(
        said(&lines),
        vec!["ERR 恢复网卡配置失败：恢复参数不完整：缺少掩码（--mask）"]
    );
    assert!(matches!(next, StopNext::Done) && !c.is_running() && s.nic_snapshot.is_some());
}

fn look(running: bool, done: bool) -> ViewEvent {
    ViewEvent::Look { interrupted: false, running, done }
}

fn typed(line: &str, running: bool) -> ViewEvent {
    ViewEvent::Line { line: Some(line.to_string()), running, done: true }
}

#[test]
fn the_view_is_left_with_a_stop() {
    let mut v = StatusView::new();
    match v.run_status_view(look(true, false)) {
        ViewNext::Read { prompt } => assert_eq!(prompt, status_prompt(false)),
        _ => panic!("nothing is read"),
    }
    match v.run_status_view(typed("\n", true)) {
        ViewNext::Ask { menu } => assert_eq!(menu, status_menu(true)),
        _ => panic!("no menu"),
    }
    assert!(matches!(v.run_status_view(ViewEvent::Answer(None)), ViewNext::Look));
    v.run_status_view(look(true, false));
    assert!(matches!(v.run_status_view(typed("2\n", true)), ViewNext::Look));
    v.run_status_view(look(true, false));
    v.run_status_view(typed("", true));
    match v.run_status_view(ViewEvent::Answer(Some("1\n".to_string()))) {
        ViewNext::Stop { restore, quit, message } => {
            assert!(restore && !quit);
            assert_eq!(message, stopped_line(false));
        }
        _ => panic!("no stop"),
    }
    assert!(v.phase == ViewPhase::Left);

    let mut v = StatusView::new();
    v.run_status_view(look(true, true));
    match v.run_status_view(typed("0", true)) {
        ViewNext::Stop { restore, quit, message } => {
            assert!(restore && quit);
            assert_eq!(message, "已停止并恢复网卡，再见。");
        }
        _ => panic!("no stop"),
    }
    // the end of the input stops the session even where it has stopped by itself
    let mut v = StatusView::new();
    v.run_status_view(look(true, true));
    let end = ViewEvent::Line { line: None, running: false, done: false };
    assert!(matches!(v.run_status_view(end), ViewNext::Stop { restore: true, quit: false, .. }));
    // a session that does not run is left
    let mut v = StatusView::new();
    assert!(matches!(v.run_status_view(look(false, false)), ViewNext::Leave));
    let mut v = StatusView::new();
    v.run_status_view(look(true, false));
    assert!(matches!(v.run_status_view(typed("1", false)), ViewNext::Leave));
    let mut v = StatusView::new();
    let end = ViewEvent::Look { interrupted: true, running: true, done: false };
    assert!(matches!(v.run_status_view(end), ViewNext::Leave));
}

#[test]
fn a_start_takes_a_new_number_and_then_runs() {
    let mut s = Session::new(adapter());
    let mut c = running_state();
    c.stopped();
    let before = c.epoch();
    assert_eq!(apply_start(&StartNext::Copy, &mut s, &mut c, 50), before);
    assert_eq!(apply_start(&StartNext::LoadLeases, &mut s, &mut c, 60), before + 1);
    assert!(!c.is_running() && s.started_at == 0);
    c.transfer_updated(before, report("late", false, None));
    assert!(c.current_transfer().is_none());
    assert_eq!(apply_start(&StartNext::Run, &mut s, &mut c, 70), before + 1);
    assert!(c.is_running() && s.started_at == 70);
}

#[test]
fn an_interrupt_stops_and_puts_the_adapter_back() {
    match render_next(RenderEvent::Round { interrupted: true }) {
        RenderNext::StopAndExit { restore, line, message } => {
            assert!(restore);
            assert_eq!(line, "收到 Ctrl+C，正在安全停止并恢复网卡 ...");
            assert_eq!(message, "[安全退出] 已停止刷机并恢复网卡配置。");
        }
        _ => panic!("the interrupt was not answered"),
    }
    assert!(matches!(render_next(RenderEvent::Round { interrupted: false }), RenderNext::Tick));
    assert!(matches!(
        render_next(RenderEvent::Ticked { stop: true }),
        RenderNext::Stop { restore: true, .. }
    ));
    assert!(matches!(render_next(RenderEvent::Ticked { stop: false }), RenderNext::Look));
    assert!(matches!(
        render_next(RenderEvent::Looked {
            running: true,
            modal: false,
            tty: false,
            summary_due: true
        }),
        RenderNext::Act(RenderAction::Summarize)
    ));
}

fn verdict(used: bool, warning: Option<&str>) -> ProbeVerdict {
    ProbeVerdict { used, warning: warning.map(|w| w.to_string()) }
}

#[test]
fn echo_is_asked_where_arp_finds_nothing() {
    let (w, next) = ip_in_use(ProbeEvent::Arp(verdict(true, None)));
    assert!(w.is_none() && next == ProbeNext::Known(true));
    let (w, next) = ip_in_use(ProbeEvent::Arp(verdict(false, Some("no table"))));
    assert_eq!(w.as_deref(), Some("no table"));
    assert!(next == ProbeNext::AskEcho);
    assert!(ip_in_use(ProbeEvent::Echo(verdict(true, None))).1 == ProbeNext::Known(true));
    assert!(ip_in_use(ProbeEvent::Echo(verdict(false, None))).1 == ProbeNext::Known(false));
}
