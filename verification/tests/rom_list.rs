use miwifi_repair::rom::{
    download_name, download_step, fetch_error_text, fetch_list, list_url, parse, sanitize_url,
    url_basename, DownloadAction, DownloadEvent, FetchError, ListReply, RomInfo,
};
use miwifi_repair::selftest::{check_list, live_line, outcome_line, summary, SAMPLE};

fn rom(url: &str, size: u64) -> RomInfo {
    RomInfo { name: "R4".to_string(), url: url.to_string(), size }
}

#[test]
fn the_sample_list_is_read() {
    let list = parse(SAMPLE);
    assert_eq!(check_list(&list), Ok(()));
    assert_eq!(list.len(), 3);
    assert_eq!(list[0].name, "小米路由器 4");
    assert_eq!(list[0].size, 16_354_096);
    assert_eq!(
        list[1].url,
        "http://bigota.miwifi.com/xiaoqiang/rom/r4c/miwifi_r4c_all_ea31e_2.30.11.bin"
    );
    assert_eq!(list[2].size, 10_224_568);
}

#[test]
fn the_list_check_tells_what_is_wrong() {
    let mut list = parse(SAMPLE);
    list[0].url.push('x');
    assert_eq!(check_list(&list), Err("filename".to_string()));
    list[0].size = 1;
    assert_eq!(check_list(&list), Err("size".to_string()));
    list[1].url = "http://http://bigota.miwifi.com".to_string();
    assert_eq!(check_list(&list), Err("double scheme not sanitized".to_string()));
    list.pop();
    assert_eq!(check_list(&list), Err("count 2".to_string()));
}

#[test]
fn incomplete_and_empty_records_are_left_out() {
    assert!(parse("").is_empty());
    assert!(parse("a|b").is_empty());
    let list = parse(" a | http://x/y | z | |u|1| n||2|last|url");
    assert_eq!(list.len(), 1);
    assert_eq!((list[0].name.as_str(), list[0].url.as_str(), list[0].size), ("a", "http://x/y", 0));
}

#[test]
fn doubled_schemes_go() {
    assert_eq!(sanitize_url("http://http://a/b"), "http://a/b");
    assert_eq!(sanitize_url("HTTP://Http://HTTP://a"), "HTTP://a");
    assert_eq!(sanitize_url("https://http://a"), "http://a");
    assert_eq!(sanitize_url("http://https://a"), "http://https://a");
    assert_eq!(sanitize_url("http://a"), "http://a");
    assert_eq!(sanitize_url(""), "");
    let once = sanitize_url("https://http://http://a");
    assert_eq!(sanitize_url(&once), once);
}

#[test]
fn names_come_from_addresses() {
    assert_eq!(url_basename("http://h/a/b.bin?x=/y"), Some("b.bin".to_string()));
    assert_eq!(url_basename("h/b.bin"), Some("b.bin".to_string()));
    assert_eq!(url_basename("b.bin"), Some("b.bin".to_string()));
    assert_eq!(url_basename("http://h/"), None);
    assert_eq!(url_basename("http://h/a/"), None);
    assert_eq!(url_basename("http://h"), Some("h".to_string()));
    assert_eq!(url_basename(""), None);
    assert_eq!(download_name(&rom("http://h/r.bin", 0)), "r.bin");
    assert_eq!(download_name(&rom("http://h/", 0)), "firmware.bin");
}

#[test]
fn the_list_is_fetched_or_the_reason_given() {
    assert_eq!(list_url(None), "http://api.miwifi.com/data/tffp_rom_link_info");
    assert_eq!(list_url(Some("http://x")), "http://x");
    match fetch_list(ListReply::Body(SAMPLE.to_string())) {
        Ok(v) => assert_eq!(v.len(), 3),
        Err(e) => panic!("{e}"),
    }
    match fetch_list(ListReply::Failed(FetchError::Status(404))) {
        Err(e) => assert_eq!(e, "HTTP 404"),
        Ok(_) => panic!("a failure was a list"),
    }
    match fetch_list(ListReply::Unreadable("cut".to_string())) {
        Err(e) => assert_eq!(e, "读取响应失败: cut"),
        Ok(_) => panic!("a failure was a list"),
    }
    assert_eq!(fetch_error_text(FetchError::Transport("dns".to_string())), "dns");
}

#[test]
fn downloads_count_warn_and_break_off() {
    let r = rom("http://h/r.bin", 100);
    assert!(matches!(
        download_step(&r, 60, DownloadEvent::Data(40)),
        DownloadAction::Progress(100)
    ));
    assert!(matches!(
        download_step(&r, 100, DownloadEvent::Data(0)),
        DownloadAction::Done(None)
    ));
    match download_step(&r, 99, DownloadEvent::Data(0)) {
        DownloadAction::Done(Some(w)) => assert_eq!(
            w,
            "[WRN] 刷机包大小与云端列表不一致（列表 100 字节，实际 99 字节），已按实际大小保留，不影响刷机"
        ),
        _ => panic!("no warning"),
    }
    assert!(matches!(
        download_step(&rom("u", 0), 5, DownloadEvent::Data(0)),
        DownloadAction::Done(None)
    ));
    match download_step(&r, 1, DownloadEvent::WriteFailed("full".to_string())) {
        DownloadAction::Abort(e) => assert_eq!(e, "写入文件失败: full"),
        _ => panic!("not broken off"),
    }
    match download_step(&r, 1, DownloadEvent::ReadFailed("reset".to_string())) {
        DownloadAction::Abort(e) => assert_eq!(e, "reset"),
        _ => panic!("not broken off"),
    }
}

#[test]
fn self_test_lines() {
    assert_eq!(summary(0), ("SELFTEST: ALL PASS".to_string(), 0));
    assert_eq!(summary(3), ("SELFTEST: 3 FAILED".to_string(), 1));
    assert_eq!(outcome_line(&Ok(())), "PASS");
    assert_eq!(outcome_line(&Err("x".to_string())), "FAIL (x)");
    assert_eq!(
        live_line(&Ok(parse(SAMPLE))),
        "PASS (3 models, e.g. 小米路由器 4 -> miwifi_r4_firmware_f1bbb_2.26.145.bin)"
    );
    assert_eq!(live_line(&Ok(Vec::new())), "FAIL (empty list from API)");
    assert_eq!(live_line(&Err("down".to_string())), "SKIP (offline? down)");
}

#[test]
fn lists_are_read_one_after_the_other() {
    let a = " a | http://x/1 | 1 ||u|2| c|http://x/3|3";
    let b = "d|http://x/4|4|rest";
    let names = |s: &str| parse(s).into_iter().map(|r| (r.name, r.size)).collect::<Vec<_>>();
    let mut want = names(a);
    want.extend(names(b));
    assert_eq!(want.len(), 3);
    assert_eq!(names(&format!("{a}|{b}")), want);
    assert_eq!(want[2], ("d".to_string(), 4));
}
