use miwifi_repair::elevated::{
    arg_value, has_flag, helper_params, helper_report, plan_helper, restore_args, result_file_name,
    roll_back, set_args, snapshot_for, startup, HelperPlan, Startup,
};
use miwifi_repair::helper::{Helper, HelperEvent, HelperNext};
use miwifi_repair::listing::{
    cloud_list, firmware_item, firmware_list, nic_list, sort_paths,
};
use miwifi_repair::menu::{
    auto_select, check_start, draw_menu, fw_text, menu_choice, new_firmware_line,
    nic_list_failure, nic_text, pick_number, scan_bin_files, select_firmware, select_nic,
    select_without_firmware, start_refusal, typed_path, DirEntry, FirmwareChoice, MenuChoice,
    MenuState, StartCheck,
};
use miwifi_repair::nic::{restore, split_cmd_tokens, NicInfo};
use miwifi_repair::paths::PartKind::{
    Device, Drive, Here, Name, Root, Share, Up, Verbatim, VerbatimDrive,
};
use miwifi_repair::paths::{is_same_path, not_behind, path_parts, PartKind};
use miwifi_repair::rom::RomInfo;
use miwifi_repair::system::{
    firewall_arguments, firewall_result, helper_result, os_version, FirewallOutcome, HelperOutcome,
    FIREWALL_ADD, FIREWALL_DELETE,
};

fn adapter(name: &str) -> NicInfo {
    NicInfo {
        name: name.to_string(),
        description: String::new(),
        mac: String::new(),
        up: true,
        is_dhcp: false,
        link_speed: 1,
        ipv4: Some(0x0102_0304),
        ipv4_mask: Some(0xFFFF_0000),
        gateway: None,
        dns: vec![0x0808_0808],
    }
}

fn strings(v: &[&str]) -> Vec<String> {
    v.iter().map(|s| s.to_string()).collect()
}

fn plan_error(p: HelperPlan) -> String {
    match p {
        HelperPlan::Fail(e) => e,
        _ => panic!("the plan did not fail"),
    }
}

#[test]
fn arguments_are_found() {
    let a = strings(&["exe", "--x", "1", "--y", "--x", "2"]);
    assert_eq!(arg_value(&a, "--x"), Some("1".to_string()));
    assert_eq!(arg_value(&a, "--y"), Some("--x".to_string()));
    assert_eq!(arg_value(&a, "--z"), None);
    assert_eq!(arg_value(&strings(&["--x"]), "--x"), None);
    assert!(has_flag(&a, "--y") && !has_flag(&a, "2x"));
}

#[test]
fn the_program_knows_what_it_is_started_for() {
    assert!(matches!(startup(&strings(&["exe"])), Startup::Menu));
    assert!(matches!(startup(&strings(&["exe", "--selftest"])), Startup::SelfTest));
    assert!(matches!(startup(&strings(&["exe", "--elevated-op"])), Startup::BadArguments));
    assert!(matches!(
        startup(&strings(&["exe", "--result", "f", "--selftest"])),
        Startup::BadArguments
    ));
    match startup(&strings(&["exe", "--elevated-op", "set"])) {
        Startup::Elevated(op) => assert_eq!(op, "set"),
        _ => panic!("not elevated"),
    }
}

#[test]
fn the_helper_plans_its_work() {
    let plan = |op: &str, a: &[&str]| plan_helper(op, &strings(a));
    assert!(matches!(plan("set", &["--nic", "a"]), HelperPlan::NoResultFile));
    assert_eq!(plan_error(plan("set", &["--result", "r"])), "缺少 --nic 参数");
    assert_eq!(
        plan_error(plan("fly", &["--result", "r", "--nic", "a"])),
        "未知提权操作：fly"
    );
    assert_eq!(
        plan_error(plan("restore", &["--result", "r", "--nic", "a", "--ip", "1.2.3.4"])),
        "恢复参数不完整：缺少掩码（--mask）"
    );
    match plan("set", &["--result", "r", "--nic", "a b"]) {
        HelperPlan::SetUp(n) => assert_eq!(n, "a b"),
        _ => panic!("not set up"),
    }
    match plan("restore", &["--result", "r", "--nic", "a", "--dns", " 8.8.8.8 ,, 9.9.9.9,"]) {
        HelperPlan::Restore(s) => {
            assert_eq!(s.len(), 2);
            assert_eq!(s[1].args, "interface ip add dns name=\"a\" 9.9.9.9");
        }
        _ => panic!("not put back"),
    }
}

#[test]
fn the_helper_puts_back_what_the_program_would() {
    for dhcp in [false, true] {
        let mut n = adapter("以太网 2");
        n.is_dhcp = dhcp;
        let params = helper_params("restore", &restore_args(&n), "C:\\tmp\\r 1.txt");
        let mut argv = vec!["tool.exe".to_string()];
        argv.extend(split_cmd_tokens(&params));
        match plan_helper("restore", &argv) {
            HelperPlan::Restore(steps) => {
                let want = restore(&n).unwrap();
                let a: Vec<&String> = steps.iter().map(|s| &s.args).collect();
                let b: Vec<&String> = want.iter().map(|s| &s.args).collect();
                assert_eq!(a, b);
            }
            _ => panic!("not put back"),
        }
        assert_eq!(arg_value(&argv, "--result"), Some("C:\\tmp\\r 1.txt".to_string()));
    }
    assert_eq!(
        helper_params("set", &set_args("a b"), "r"),
        "--elevated-op set --nic \"a b\" --result \"r\""
    );
    assert_eq!(result_file_name(12, 3), "miwifi_elev_12_3.txt");
}

#[test]
fn the_helper_rolls_back_and_reports() {
    let nics = vec![adapter("a"), adapter("b")];
    assert_eq!(snapshot_for(&nics, "b").unwrap_or_else(|e| panic!("{e}")).name, "b");
    match snapshot_for(&nics, "c") {
        Err(e) => assert_eq!(e, "网卡不存在：c"),
        Ok(_) => panic!("an adapter that is not there"),
    }
    let (steps, message) = roll_back(&nics[0], "denied");
    assert_eq!(steps.len(), 2);
    assert_eq!(message, "设置网卡/防火墙失败（已尝试恢复原配置）：denied");
    let mut bare = adapter("a");
    bare.ipv4_mask = None;
    assert!(roll_back(&bare, "x").0.is_empty());
    assert_eq!(helper_report(&Ok(())), (0, "OK".to_string()));
    assert_eq!(helper_report(&Err("e".to_string())), (1, "e".to_string()));
}

#[test]
fn helper_processes_read_as_they_should() {
    assert_eq!(
        helper_result(HelperOutcome::Refused("no".to_string())),
        Err("提权请求失败（UAC 被取消？）：no".to_string())
    );
    assert_eq!(helper_result(HelperOutcome::NoHandle), Err("提权进程句柄无效".to_string()));
    assert_eq!(helper_result(HelperOutcome::TimedOut), Err("提权操作超时（60 秒）".to_string()));
    let ended = |code: u32, m: &str| helper_result(HelperOutcome::Ended { code, message: m.to_string() });
    assert_eq!(ended(0, "whatever"), Ok(()));
    assert_eq!(ended(7, " \n"), Err("提权操作失败（退出码 7）".to_string()));
    assert_eq!(ended(1, " bad \n"), Err("bad".to_string()));
}

#[test]
fn firewall_commands_go_out_in_pieces() {
    assert_eq!(
        firewall_arguments(FIREWALL_ADD),
        vec![
            "advfirewall",
            "firewall",
            "add",
            "rule",
            "name=MiWiFiRepairTool",
            "dir=in",
            "action=allow",
            "protocol=UDP",
            "localport=67,69"
        ]
    );
    assert_eq!(
        firewall_arguments(FIREWALL_DELETE),
        vec!["advfirewall", "firewall", "delete", "rule", "name=MiWiFiRepairTool"]
    );
    assert_eq!(
        firewall_result(FirewallOutcome::NotStarted("x".to_string())),
        Err("无法启动 netsh: x".to_string())
    );
    assert_eq!(
        firewall_result(FirewallOutcome::TimedOut),
        Err("netsh 防火墙命令超时".to_string())
    );
    let ended = |success: bool| {
        firewall_result(FirewallOutcome::Ended {
            success,
            stdout: b" out \r\n".to_vec(),
            stderr: b"err\n".to_vec(),
        })
    };
    assert_eq!(ended(true), Ok(()));
    assert_eq!(ended(false), Err("netsh 防火墙命令失败：outerr".to_string()));
}

#[test]
fn the_system_version_is_read() {
    let out = b"\r\nHKEY\\X\r\n    DisplayVersion    REG_SZ    23H2\r\n\r\n";
    assert_eq!(os_version(Some(out), "windows"), "Windows 23H2");
    assert_eq!(os_version(Some(b"a REG_SZ  \n"), "windows"), "Windows (windows)");
    assert_eq!(os_version(Some(b"nothing"), "windows"), "Windows (windows)");
    assert_eq!(os_version(None, "linux"), "Windows (linux)");
}

#[test]
fn firmware_images_are_found() {
    let e = |path: &str, is_file: bool, ext: Option<&str>| DirEntry {
        path: path.to_string(),
        is_file,
        extension: ext.map(|x| x.to_string()),
    };
    let list = scan_bin_files(&vec![
        e("c.bin", true, Some("bin")),
        e("a.BIN", true, Some("BIN")),
        e("d.bin", false, Some("bin")),
        e("t.txt", true, Some("txt")),
        e("n", true, None),
        e("b.bin", true, Some("bin")),
    ]);
    assert_eq!(list, vec!["a.BIN", "b.bin", "c.bin"]);
    assert_eq!((auto_select(0), auto_select(1), auto_select(2)), (None, Some(0), None));
}

#[test]
fn a_refresh_keeps_what_was_chosen() {
    let mut m = MenuState::new();
    assert_eq!(
        m.refresh_nics(vec![adapter("a"), adapter("b")]),
        Some("网卡列表已更新（2 个）".to_string())
    );
    assert_eq!(select_nic(&mut m, "2\n"), None);
    assert_eq!(m.refresh_nics(vec![adapter("b"), adapter("a")]), None);
    assert_eq!(m.nic_sel, Some(0));
    assert!(m.refresh_nics(vec![adapter("a"), adapter("c")]).is_some());
    assert_eq!(m.nic_sel, None);

    // a sole candidate is chosen, and stays chosen when others come
    m.refresh_firmware(strings(&["k.bin"]), false);
    assert_eq!(m.fw_sel, Some(0));
    assert!(m.is_new("a.bin") && !m.is_new("k.bin"));
    m.refresh_firmware(strings(&["a.bin", "k.bin"]), true);
    assert_eq!(m.kept_firmware(), Some("k.bin".to_string()));
    // a file from elsewhere is not replaced by the only one in the directory
    m.choose_path("b/other.bin");
    assert_eq!(m.fw_candidates, vec!["a.bin", "b/other.bin", "k.bin"]);
    assert_eq!(m.fw_sel, Some(1));
    m.choose_path("k.bin");
    assert_eq!((m.fw_candidates.len(), m.fw_sel), (3, Some(2)));
    m.choose_path("b/other.bin");
    m.refresh_firmware(strings(&["a.bin"]), true);
    assert_eq!(m.fw_candidates, vec!["a.bin", "b/other.bin"]);
    assert_eq!(m.kept_firmware(), Some("b/other.bin".to_string()));
    // once it is gone, it is not kept
    m.refresh_firmware(strings(&["a.bin", "b.bin"]), false);
    assert_eq!(m.kept_firmware(), None);
    assert_eq!(m.fw_candidates, vec!["a.bin", "b.bin"]);
}

#[test]
fn paths_are_ordered_like_those_of_the_standard_library() {
    let list = strings(&["/b", "/a b/x", "/a/y", "/a", "/a/x/1", "/é", "/Z", "/a/x"]);
    let mut want: Vec<std::path::PathBuf> = list.iter().map(std::path::PathBuf::from).collect();
    want.sort();
    let got: Vec<std::path::PathBuf> =
        sort_paths(&list).iter().map(std::path::PathBuf::from).collect();
    assert_eq!(got, want);
    assert_eq!(sort_paths(&strings(&["b", "a", "b"])), vec!["a", "b", "b"]);
}

#[test]
fn lists_are_numbered() {
    assert_eq!(
        nic_list(&strings(&["x", "y"])),
        "\n  [1] x\n  [2] y\n 输入编号（0 返回）> "
    );
    assert_eq!(firmware_item("a.bin", "1.0 MB"), "a.bin（1.0 MB）");
    assert_eq!(
        firmware_list("D", &strings(&["a.bin（1.0 MB）"])),
        "\n 刷机包目录（自动识别 .bin）：D\n 自动识别到 1 个刷机包：\n   [1] a.bin（1.0 MB）\n  ----------\n   [2] 从云端列表下载\n   [3] 手动输入路径（高级，不推荐）\n   0 返回\n 输入编号 > "
    );
    assert!(firmware_list("D", &Vec::new()).contains("   [2] 已复制 .bin 到程序目录？按回车重新扫描\n"));
    let roms = vec![RomInfo { name: "R4".to_string(), url: "u".to_string(), size: 7 }];
    assert_eq!(
        cloud_list(&roms),
        "云端 1 个型号：\n  [1] R4（7 字节）\n 输入编号下载（0 返回）> "
    );
}

#[test]
fn a_start_needs_its_choices() {
    let mut m = MenuState::new();
    assert!(check_start(&m) == StartCheck::NoNic);
    m.refresh_nics(vec![adapter("ok"), adapter("a\"b"), adapter("a\\b")]);
    m.nic_sel = Some(0);
    assert!(check_start(&m) == StartCheck::NoFirmware);
    m.refresh_firmware(strings(&["f.bin"]), false);
    assert!(check_start(&m) == StartCheck::Ready(0, 0));
    m.nic_sel = Some(1);
    assert!(check_start(&m) == StartCheck::BadName);
    m.nic_sel = Some(2);
    assert!(check_start(&m) == StartCheck::BadName);
    assert!(start_refusal(StartCheck::Ready(0, 0)).is_none());
    assert_eq!(
        start_refusal(StartCheck::NoNic),
        Some(("网卡未选择，请按 [1] 选择。", "网卡未选择，请按 [1] 选择。"))
    );
    assert!(start_refusal(StartCheck::NoFirmware).unwrap().0.starts_with("刷机包未选择"));
    assert_eq!(
        start_refusal(StartCheck::BadName).unwrap().1,
        "网卡名含特殊字符，已拒绝开始刷机。"
    );
}

#[test]
fn input_lines_choose() {
    let want = [
        ("1", MenuChoice::Nic),
        (" 2\r\n", MenuChoice::Firmware),
        ("3", MenuChoice::Start),
        ("4", MenuChoice::Help),
        ("0", MenuChoice::Quit),
        ("", MenuChoice::Invalid),
        ("11", MenuChoice::Invalid),
    ];
    for (l, c) in want {
        assert!(menu_choice(l) == c);
    }
    assert_eq!(pick_number("3", 3), Some(2));
    assert_eq!(pick_number("4", 3), None);
    assert_eq!(pick_number("0", 3), None);
    let mut m = MenuState::new();
    m.refresh_nics(vec![adapter("a")]);
    assert_eq!(select_nic(&mut m, "0"), None);
    assert_eq!(m.nic_sel, None);
    assert_eq!(select_nic(&mut m, "x"), Some(" 无效编号，请重新输入（1-1）。".to_string()));
    m.refresh_firmware(strings(&["a", "b"]), false);
    assert!(matches!(select_firmware(&mut m, "2"), FirmwareChoice::Picked));
    assert_eq!(m.fw_sel, Some(1));
    assert!(matches!(select_firmware(&mut m, "3"), FirmwareChoice::Cloud));
    assert!(matches!(select_firmware(&mut m, "4"), FirmwareChoice::Manual));
    assert!(matches!(select_firmware(&mut m, "0"), FirmwareChoice::Back));
    match select_firmware(&mut m, "5") {
        FirmwareChoice::Invalid(s) => assert_eq!(s, " 无效编号，请重新输入（1-4）。"),
        _ => panic!("a number that is not there"),
    }
    assert!(matches!(select_without_firmware("1"), FirmwareChoice::Cloud));
    assert!(matches!(select_without_firmware("2"), FirmwareChoice::Rescan));
    assert!(matches!(select_without_firmware("3"), FirmwareChoice::Manual));
    assert!(matches!(select_without_firmware("0"), FirmwareChoice::Back));
    match select_without_firmware("9") {
        FirmwareChoice::Invalid(s) => assert_eq!(s, " 无效编号，请重新输入（1-3）。"),
        _ => panic!("a number that is not there"),
    }
    assert_eq!(typed_path(" \"C:\\a b.bin\" \r\n"), "C:\\a b.bin");
    assert_eq!(typed_path("\"\"\""), "");
}

#[test]
fn the_menu_is_drawn() {
    let mut m = MenuState::new();
    let none = Vec::new();
    assert_eq!(
        draw_menu(&m, "0.1.0", "D", "N", "F", &none, false),
        "\n小米路由器修复工具 (Rust v0.1.0) — 命令行版\n刷机包目录（自动识别 .bin）：D\n\n [1] 网卡    : N\n [2] 刷机包  : F\n [3] 开始刷机\n [4] 使用说明\n [0] 退出\n"
    );
    let t = draw_menu(&m, "0.1.0", "D", "N", "F", &strings(&["l1", "l2"]), true);
    assert!(t.starts_with("\x1b[2J\x1b[H小米路由器修复工具"));
    assert!(t.contains(" [0] 退出\n\n l1\n l2\n\n（提示：程序目录暂无刷机包"));
    m.refresh_firmware(strings(&["a", "b"]), false);
    let t = draw_menu(&m, "0.1.0", "D", "N", "F", &none, true);
    assert!(t.ends_with(" [0] 退出\n\n（提示：程序目录有 2 个刷机包，按 [2] 选择）\n\n"));
    m.fw_sel = Some(0);
    assert!(draw_menu(&m, "0.1.0", "D", "N", "F", &none, true).ends_with(" [0] 退出\n\n\n"));
    assert_eq!(nic_text(None), "（未选择，按 [1] 选择）");
    assert_eq!(nic_text(Some("x")), "x");
    assert_eq!(fw_text(Some(("a.bin", "1.0 MB")), 1), "a.bin（自动识别，1.0 MB）");
    assert_eq!(fw_text(None, 0), "（未选择，程序目录无 .bin，按 [2] 下载或放入）");
    assert_eq!(fw_text(None, 2), "（未选择，程序目录有 2 个 .bin，按 [2] 选择）");
    assert_eq!(new_firmware_line("a"), "检测到新刷机包：a（自动识别）");
    assert_eq!(nic_list_failure(true, "x"), None);
    assert!(nic_list_failure(false, "x").unwrap().starts_with("网卡枚举失败：x。可能被安全软件拦截"));
}

#[test]
fn a_chosen_file_that_is_gone_leaves_nothing_chosen() {
    let mut m = MenuState::new();
    m.refresh_firmware(strings(&["a.bin", "k.bin"]), false);
    assert_eq!(m.fw_sel, None);
    assert!(matches!(select_firmware(&mut m, "2"), FirmwareChoice::Picked));
    // the only other file does not take its place, not even on the next look
    m.refresh_firmware(strings(&["a.bin"]), false);
    assert_eq!(m.fw_sel, None);
    m.refresh_firmware(strings(&["a.bin"]), false);
    assert_eq!(m.fw_sel, None);
    assert!(check_start(&m) == StartCheck::NoNic);
    // it can still be chosen by hand
    m.choose_path("a.bin");
    assert_eq!(m.kept_firmware(), Some("a.bin".to_string()));
    m.refresh_firmware(strings(&["a.bin"]), true);
    assert_eq!(m.fw_sel, Some(0));

    // an image that was chosen by itself gives way to the next sole one
    let mut m = MenuState::new();
    m.refresh_firmware(strings(&["old.bin"]), false);
    assert_eq!(m.kept_firmware(), Some("old.bin".to_string()));
    m.refresh_firmware(strings(&["new.bin"]), false);
    assert_eq!(m.kept_firmware(), Some("new.bin".to_string()));
    m.refresh_firmware(strings(&["a.bin", "b.bin"]), false);
    assert_eq!(m.kept_firmware(), None);
    m.refresh_firmware(strings(&["b.bin"]), false);
    assert_eq!(m.kept_firmware(), Some("b.bin".to_string()));

    // the same as of a picked file holds of one that was typed in
    let mut m = MenuState::new();
    m.choose_path("D:\\t\\mine.bin");
    m.refresh_firmware(strings(&["C:\\p\\other.bin"]), true);
    assert_eq!(m.kept_firmware(), Some("D:\\t\\mine.bin".to_string()));
    m.refresh_firmware(strings(&["C:\\p\\other.bin"]), false);
    assert_eq!((m.fw_candidates.len(), m.fw_sel), (1, None));
}

#[test]
fn one_path_is_one_candidate() {
    assert!(is_same_path("D:/t/a.bin", "D:\\t\\a.bin"));
    assert!(is_same_path("D:\\t\\\\a.bin", "d:\\t\\.\\a.bin\\"));
    assert!(!is_same_path("t/a.bin", "/t/a.bin"));
    assert!(!is_same_path("\\\\srv\\d\\a.bin", "\\srv\\d\\a.bin"));
    assert!(is_same_path("\\\\srv\\d\\\\a.bin", "//srv/d/a.bin"));
    assert!(!is_same_path("./a.bin", "a.bin"));
    assert!(!is_same_path("t/../a.bin", "a.bin"));
    assert!(!is_same_path("D:\\T\\a.bin", "D:\\t\\a.bin"));
    let kinds: Vec<PartKind> = path_parts("c:\\x\\..\\y").iter().map(|p| p.kind).collect();
    assert!(
        kinds
            == vec![PartKind::Drive, PartKind::Root, PartKind::Name, PartKind::Up, PartKind::Name]
    );
    assert_eq!(path_parts("c:x")[0].name, "C");

    let mut m = MenuState::new();
    m.refresh_firmware(strings(&["D:\\t\\a.bin", "D:\\t\\b.bin"]), false);
    m.choose_path("D:/t//a.bin");
    assert_eq!(m.fw_candidates, vec!["D:\\t\\a.bin", "D:\\t\\b.bin"]);
    assert_eq!(m.fw_sel, Some(0));
    assert!(!m.is_new("D:/t/b.bin"));
    m.refresh_firmware(strings(&["D:\\t\\a.bin", "D:\\t\\b.bin"]), true);
    assert_eq!((m.fw_candidates.len(), m.fw_sel), (2, Some(0)));

    assert!(not_behind("C:\\a", "C:\\a\\b") && !not_behind("C:\\a\\b", "C:\\a"));
    assert!(not_behind("C:\\a\\z", "C:\\a b"));
    assert!(not_behind("C:\\z", "a"));
    assert!(not_behind("x//y", "x/y") && not_behind("x/y", "x//y"));
}

#[test]
fn parts_are_those_of_the_standard_library() {
    for (a, b) in [
        ("a//b", "a/b"),
        ("a/./b", "a/b"),
        ("./a", "a"),
        ("/a/", "/a"),
        ("a/..", "a"),
        ("", "."),
        ("/./a", "/a"),
        ("..", "../."),
        ("//a", "/a"),
        ("///a/b", "/a/b"),
        ("./.", "."),
    ] {
        let same = std::path::Path::new(a) == std::path::Path::new(b);
        assert_eq!(is_same_path(a, b), same, "{a} {b}");
        let le = std::path::Path::new(a) <= std::path::Path::new(b);
        assert_eq!(not_behind(a, b), le, "{a} {b}");
    }
}

fn kinds(path: &str) -> Vec<PartKind> {
    path_parts(path).iter().map(|p| p.kind).collect()
}

#[test]
fn prefixes_of_paths_are_told_apart() {
    assert!(kinds(r"\\srv\d\a") == vec![Share, Root, Name]);
    assert!(kinds(r"\\srv\d") == vec![Share, Root]);
    assert!(kinds(r"\\srv") == vec![Root, Name]);
    assert!(kinds(r"\\srv\\d") == vec![Root, Name, Name]);
    assert!(is_same_path(r"\\srv", r"\srv") && is_same_path("//srv/", "/srv"));
    let p = path_parts("//srv/d/a");
    assert_eq!((p[0].name.as_str(), p[0].share.as_str()), ("srv", "d"));

    assert!(kinds(r"\\?\c:\a\.\b") == vec![VerbatimDrive, Root, Name, Here, Name]);
    assert!(is_same_path(r"\\?\C:\a", r"\\?\c:\a"));
    assert!(!is_same_path(r"\\?\C:\a", r"C:\a"));
    assert!(!is_same_path(r"\\?\C:\.\a", r"\\?\C:\a"));
    assert!(!is_same_path(r"\\?\C:\a/b", r"\\?\C:\a\b"));
    assert_eq!(path_parts(r"\\?\C:\a/b")[2].name, "a/b");
    assert!(kinds(r"\\?\pipe\..\x") == vec![Verbatim, Root, Up, Name]);
    assert!(kinds(r"\\?\C:x") == vec![Verbatim]);
    let p = path_parts(r"\\?\UNC\srv\d\a");
    assert!(p[0].kind == PartKind::VerbatimShare && p.len() == 3);
    assert_eq!((p[0].name.as_str(), p[0].share.as_str()), ("srv", "d"));
    assert!(!is_same_path(r"\\?\UNC\srv\d\a", r"\\srv\d\a"));
    // with the other separator it is a share of the server `?`
    assert!(kinds("//?/C:/a") == vec![Share, Root, Name]);

    assert!(kinds(r"\\.\COM1") == vec![Device, Root]);
    assert!(is_same_path(r"\\.\COM1\x", "//./COM1/x"));
    assert!(kinds(r"C:.\a") == vec![Drive, Name] && kinds(r".\a") == vec![Here, Name]);

    assert!(not_behind(r"\\?\z", r"\\?\UNC\a\b") && not_behind(r"\\?\UNC\a\b", r"\\?\A:"));
    assert!(not_behind(r"\\?\Z:", r"\\.\a") && not_behind(r"\\.\z", r"\\a\b"));
    assert!(not_behind(r"\\z\z", "A:") && not_behind("Z:", r"\a"));
    assert!(not_behind(r"\\a\c", r"\\b\a") && !not_behind(r"\\a\c", r"\\a\b"));
}

fn shown(next: HelperNext) -> String {
    match next {
        HelperNext::ListAdapters => "list".to_string(),
        HelperNext::SetAddress(s) => format!("set {}", s.args),
        HelperNext::OpenFirewall => "open".to_string(),
        HelperNext::RunSteps(v) => {
            let lines: Vec<String> = v.iter().map(|s| s.args.clone()).collect();
            format!("run {}", lines.join(";"))
        }
        HelperNext::CloseFirewall => "close".to_string(),
        HelperNext::Report(code, line) => format!("report {code} {line}"),
        HelperNext::Exit(code) => format!("exit {code}"),
    }
}

fn set_up() -> Helper {
    let (mut h, first) = Helper::begin("set", &strings(&["--nic", "eth", "--result", "r"]));
    assert_eq!(shown(first), "list");
    assert_eq!(
        shown(h.step(HelperEvent::Listed(Ok(vec![adapter("lo"), adapter("eth")])))),
        "set interface ip set address name=\"eth\" static 192.168.31.1 255.255.255.0"
    );
    h
}

#[test]
fn the_helper_sets_an_adapter_up() {
    let mut h = set_up();
    assert_eq!(shown(h.step(HelperEvent::Address(Ok(())))), "open");
    assert_eq!(shown(h.step(HelperEvent::Firewall(Ok(())))), "report 0 OK");
}

#[test]
fn a_failed_set_up_is_rolled_back() {
    let back = "run interface ip set address name=\"eth\" static 1.2.3.4 255.255.0.0;interface ip set dns name=\"eth\" static 8.8.8.8";
    let mut h = set_up();
    assert_eq!(shown(h.step(HelperEvent::Address(Err("no".to_string())))), back);
    assert_eq!(
        shown(h.step(HelperEvent::RolledBack(Ok(())))),
        "report 1 设置网卡/防火墙失败（已尝试恢复原配置）：no"
    );

    let mut h = set_up();
    assert_eq!(shown(h.step(HelperEvent::Address(Ok(())))), "open");
    assert_eq!(shown(h.step(HelperEvent::Firewall(Err("rule".to_string())))), back);
    assert_eq!(
        shown(h.step(HelperEvent::RolledBack(Err("worse".to_string())))),
        "report 1 设置网卡/防火墙失败（已尝试恢复原配置）：rule"
    );
}

#[test]
fn the_helper_reports_what_it_cannot_do() {
    let (_, first) = Helper::begin("set", &strings(&["--nic", "eth"]));
    assert_eq!(shown(first), "exit 2");
    let (_, first) = Helper::begin("set", &strings(&["--result", "r"]));
    assert_eq!(shown(first), "report 1 缺少 --nic 参数");
    let (_, first) = Helper::begin("x", &strings(&["--nic", "eth", "--result", "r"]));
    assert_eq!(shown(first), "report 1 未知提权操作：x");
    let args = strings(&["--nic", "eth", "--result", "r"]);
    let (mut h, _) = Helper::begin("set", &args);
    assert_eq!(shown(h.step(HelperEvent::Listed(Ok(Vec::new())))), "report 1 网卡不存在：eth");
    let (mut h, _) = Helper::begin("set", &args);
    assert_eq!(shown(h.step(HelperEvent::Listed(Err("list".to_string())))), "report 1 list");
}

#[test]
fn the_helper_puts_an_adapter_back() {
    let args = strings(&["--nic", "eth", "--result", "r", "--dhcp"]);
    let (mut h, first) = Helper::begin("restore", &args);
    assert!(shown(first).starts_with("run interface ip set address name=\"eth\" dhcp"));
    assert_eq!(shown(h.step(HelperEvent::Restored(Ok(())))), "close");
    assert_eq!(shown(h.step(HelperEvent::Closed(Ok(())))), "report 0 OK");
    let (mut h, _) = Helper::begin("restore", &args);
    assert_eq!(shown(h.step(HelperEvent::Restored(Err("e".to_string())))), "report 1 e");
    let (mut h, _) = Helper::begin("restore", &args);
    assert_eq!(shown(h.step(HelperEvent::Restored(Ok(())))), "close");
    assert_eq!(shown(h.step(HelperEvent::Closed(Err("f".to_string())))), "report 1 f");
}
