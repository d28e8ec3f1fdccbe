use miwifi_repair::nic::{
    after_step, enumerate_step, first_addr, format_mac, netsh_result, parse_adapters, restore, restore_parts,
    set_static, sockaddr_ipv4, split_cmd_tokens, CommandNext, CommandRun, EnumerateAction, NetshOutcome, NetshStep, NicInfo,
    RawAdapter, RawAddress, RawUnicast,
};
use miwifi_repair::wide::wstr;

fn wired() -> NicInfo {
    NicInfo {
        name: "以太网 2".to_string(),
        description: "Realtek".to_string(),
        mac: "00:11:22:33:44:55".to_string(),
        up: true,
        is_dhcp: false,
        link_speed: 1_000_000_000,
        ipv4: Some(0x0A00_0005),
        ipv4_mask: Some(0xFFFF_FF00),
        gateway: Some(0x0A00_0001),
        dns: vec![0x0808_0808, 0x0101_0101],
    }
}

fn lines(steps: &[NetshStep]) -> Vec<String> {
    steps.iter().map(|s| s.args.clone()).collect()
}

#[test]
fn split_respects_quotes() {
    let t = split_cmd_tokens(r#"add rule name="MiWiFi Repair" dir=in"#);
    assert_eq!(t, vec!["add", "rule", "name=MiWiFi Repair", "dir=in"]);
}

#[test]
fn split_tabs_and_collapse_spaces() {
    let t = split_cmd_tokens("a  b\tc");
    assert_eq!(t, vec!["a", "b", "c"]);
}

#[test]
fn split_empty_input() {
    assert!(split_cmd_tokens("").is_empty());
    assert!(split_cmd_tokens("   ").is_empty());
}

#[test]
fn split_drops_empty_quotes_and_keeps_open_ones() {
    assert_eq!(split_cmd_tokens("a \"\" b"), vec!["a", "b"]);
    assert_eq!(split_cmd_tokens("a \"b c"), vec!["a", "b c"]);
    assert_eq!(split_cmd_tokens("x\"y z\"w"), vec!["xy zw"]);
}

#[test]
fn static_command_names_the_adapter_whole() {
    let step = set_static("Local Area 2");
    assert_eq!(
        step.args,
        "interface ip set address name=\"Local Area 2\" static 192.168.31.1 255.255.255.0"
    );
    assert!(!step.may_be_set);
    assert_eq!(
        split_cmd_tokens(&step.args),
        vec![
            "interface",
            "ip",
            "set",
            "address",
            "name=Local Area 2",
            "static",
            "192.168.31.1",
            "255.255.255.0"
        ]
    );
}

#[test]
fn fixed_address_is_put_back_with_gateway_and_name_servers() {
    let steps = restore(&wired()).unwrap();
    assert_eq!(
        lines(&steps),
        vec![
            "interface ip set address name=\"以太网 2\" static 10.0.0.5 255.255.255.0 10.0.0.1 1",
            "interface ip set dns name=\"以太网 2\" static 8.8.8.8",
            "interface ip add dns name=\"以太网 2\" 1.1.1.1",
        ]
    );
}

#[test]
fn dhcp_adapter_goes_back_to_dhcp() {
    let mut n = wired();
    n.is_dhcp = true;
    let steps = restore(&n).unwrap();
    assert_eq!(
        lines(&steps),
        vec![
            "interface ip set address name=\"以太网 2\" dhcp",
            "interface ip set dns name=\"以太网 2\" dhcp",
        ]
    );
    assert!(steps[0].may_be_set);
    assert!(!steps[1].may_be_set);
}

#[test]
fn adapter_without_address_gets_only_its_name_servers() {
    let dns = vec!["9.9.9.9".to_string()];
    let steps = restore_parts("x", false, None, None, Some("1.2.3.4"), &dns).unwrap();
    assert_eq!(lines(&steps), vec!["interface ip set dns name=\"x\" static 9.9.9.9"]);
    assert!(restore_parts("x", false, None, None, None, &Vec::new()).unwrap().is_empty());
}

#[test]
fn address_without_mask_cannot_be_put_back() {
    match restore_parts("x", false, Some("1.2.3.4"), None, None, &Vec::new()) {
        Err(e) => assert_eq!(e, "恢复参数不完整：缺少掩码（--mask）"),
        Ok(_) => panic!("a plan without mask"),
    }
}

#[test]
fn only_the_first_dhcp_command_may_complain() {
    let step = NetshStep { args: "a".to_string(), may_be_set: true };
    assert!(after_step(&step, Err("DHCP is already enabled".to_string())).is_ok());
    assert!(after_step(&step, Err("DHCP 已启用".to_string())).is_ok());
    assert_eq!(after_step(&step, Err("denied".to_string())), Err("denied".to_string()));
    let strict = NetshStep { args: "a".to_string(), may_be_set: false };
    assert_eq!(
        after_step(&strict, Err("already".to_string())),
        Err("already".to_string())
    );
    assert!(after_step(&strict, Ok("fine".to_string())).is_ok());
}

#[test]
fn netsh_outcomes_read_as_they_should() {
    assert_eq!(
        netsh_result("x", NetshOutcome::NotStarted("no".to_string())),
        Err("无法启动 netsh: no".to_string())
    );
    assert_eq!(
        netsh_result("x", NetshOutcome::NotFinished("no".to_string())),
        Err("netsh 执行失败: no".to_string())
    );
    assert_eq!(
        netsh_result("x", NetshOutcome::TimedOut),
        Err("netsh 执行超时".to_string())
    );
    assert_eq!(
        netsh_result(
            "a b",
            NetshOutcome::Ended {
                success: false,
                stdout: b" bad ".to_vec(),
                stderr: vec![0xFF, b'!', b'\n'],
            }
        ),
        Err("netsh a b 失败：bad \u{FFFD}!".to_string())
    );
    assert_eq!(
        netsh_result(
            "a",
            NetshOutcome::Ended { success: true, stdout: b"ok\r\n".to_vec(), stderr: Vec::new() }
        ),
        Ok("ok\r\n".to_string())
    );
}

#[test]
fn adapter_lines_show_link_state() {
    let mut n = wired();
    assert_eq!(
        n.display("1.00 Gbps"),
        "以太网 2  [10.0.0.5]  00:11:22:33:44:55  (1.00 Gbps)"
    );
    n.link_speed = 0;
    n.ipv4 = None;
    assert_eq!(n.display("?"), "以太网 2  [无IP]  00:11:22:33:44:55  (链路无信号)");
    n.up = false;
    assert_eq!(n.display("?"), "以太网 2  [无IP]  00:11:22:33:44:55  (已断开)");
}

#[test]
fn adapters_are_read_without_loopback() {
    let address = |a: u32| Some(RawAddress { family: 2, s_addr: a });
    let raw = RawAdapter {
        if_type: 6,
        friendly_name: wstr("网卡 A"),
        description: wstr("desc"),
        physical_address: [0, 0x1B, 2, 3, 4, 0xFF, 9, 9],
        physical_address_len: 6,
        oper_status: 1,
        transmit_speed: 10,
        receive_speed: 20,
        flags: 0x85,
        unicast: vec![
            RawUnicast { address: Some(RawAddress { family: 23, s_addr: 1 }), prefix_len: 64 },
            RawUnicast { address: address(0x0500_000A), prefix_len: 24 },
        ],
        gateways: vec![
            Some(RawAddress { family: 23, s_addr: 0x0102_0304 }),
            None,
            address(0x0100_000A),
            address(0x0200_000A),
        ],
        dns: vec![None, address(0x0808_0808)],
    };
    let loopback = RawAdapter {
        if_type: 24,
        friendly_name: Vec::new(),
        description: Vec::new(),
        physical_address: [0; 8],
        physical_address_len: 0,
        oper_status: 1,
        transmit_speed: 0,
        receive_speed: 0,
        flags: 0,
        unicast: Vec::new(),
        gateways: Vec::new(),
        dns: Vec::new(),
    };
    let list = parse_adapters(&vec![loopback, raw]);
    assert_eq!(list.len(), 1);
    let n = &list[0];
    assert_eq!(n.name, "网卡 A");
    assert_eq!(n.description, "desc");
    assert_eq!(n.mac, "00:1B:02:03:04:FF");
    assert!(n.up && n.is_dhcp);
    assert_eq!(n.link_speed, 20);
    assert_eq!(n.ipv4, Some(0x0A00_0005));
    assert_eq!(n.ipv4_mask, Some(0xFFFF_FF00));
    assert_eq!(n.gateway, Some(0x0A00_0001));
    assert_eq!(n.dns, vec![0x0808_0808]);
}

#[test]
fn hardware_addresses_and_socket_addresses() {
    assert_eq!(format_mac(&[1, 2, 3, 4, 5, 6, 7, 8], 0), "无");
    assert_eq!(format_mac(&[1, 2, 3, 4, 5, 6, 7, 8], 2), "01:02");
    assert_eq!(format_mac(&[1, 2, 3, 4, 5, 6, 7, 0xAB], 20), "01:02:03:04:05:06:07:AB");
    assert_eq!(sockaddr_ipv4(None), None);
    assert_eq!(sockaddr_ipv4(Some(RawAddress { family: 23, s_addr: 1 })), None);
    assert_eq!(
        sockaddr_ipv4(Some(RawAddress { family: 2, s_addr: 0x641F_A8C0 })),
        Some(0xC0A8_1F64)
    );
}

#[test]
fn enumeration_is_retried_only_with_a_larger_buffer() {
    assert!(matches!(enumerate_step(0, 10, 10), EnumerateAction::Read));
    assert!(matches!(enumerate_step(111, 10, 11), EnumerateAction::Retry));
    match enumerate_step(111, 10, 10) {
        EnumerateAction::Fail(e) => {
            assert_eq!(e, "GetAdaptersAddresses 缓冲区溢出且大小未更新")
        }
        _ => panic!("retried with the same size"),
    }
    match enumerate_step(0x57, 10, 10) {
        EnumerateAction::Fail(e) => assert_eq!(e, "GetAdaptersAddresses 失败: 0x57"),
        _ => panic!("an error was not reported"),
    }
}

#[test]
fn the_first_ipv4_gateway_counts() {
    let v4 = |a: u32| Some(RawAddress { family: 2, s_addr: a });
    let v6 = Some(RawAddress { family: 23, s_addr: 1 });
    assert_eq!(first_addr(&vec![v6, v4(0x011F_A8C0)]), Some(0xC0A8_1F01));
    assert_eq!(first_addr(&vec![v4(0x0100_000A), v4(0x011F_A8C0)]), Some(0x0A00_0001));
    assert_eq!(first_addr(&vec![v6, None]), None);
    assert_eq!(first_addr(&Vec::new()), None);
}

fn three() -> Vec<NetshStep> {
    let mut steps: Vec<NetshStep> = ["a", "b", "c"]
        .iter()
        .map(|s| NetshStep { args: s.to_string(), may_be_set: false })
        .collect();
    steps[1].may_be_set = true;
    steps
}

fn next_line(n: CommandNext) -> String {
    match n {
        CommandNext::Run(s) => s,
        CommandNext::Done(Ok(())) => "done".to_string(),
        CommandNext::Done(Err(e)) => format!("failed {e}"),
    }
}

#[test]
fn commands_run_until_one_fails() {
    let (mut run, first) = CommandRun::begin(three());
    assert_eq!(next_line(first), "a");
    assert_eq!(next_line(run.step(Ok("x".to_string()))), "b");
    assert_eq!(next_line(run.step(Err("DHCP is already enabled".to_string()))), "c");
    assert_eq!(next_line(run.step(Ok(String::new()))), "done");

    let (mut run, _) = CommandRun::begin(three());
    assert_eq!(next_line(run.step(Err("already".to_string()))), "failed already");

    let (mut run, _) = CommandRun::begin(three());
    assert_eq!(next_line(run.step(Ok(String::new()))), "b");
    assert_eq!(next_line(run.step(Err("no adapter".to_string()))), "failed no adapter");

    assert_eq!(next_line(CommandRun::begin(Vec::new()).1), "done");
}
