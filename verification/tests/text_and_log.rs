use miwifi_repair::bytes::{be16, be32, put_be16, put_be32};
use miwifi_repair::console::{ansi, pool_end, progress_bar};
use miwifi_repair::log::{LogLevel, Logger, WallClock};
use miwifi_repair::net::{
    hex8_string, hex_string, in_pool, ip_string, mac_string, mask_for, parse_ip,
    prefix_len_to_mask,
};
use miwifi_repair::text::{
    eq_ignore_ascii_case, join_text, parse_up_to, split_text, trim_text, u64_text, white,
};
use miwifi_repair::wide::{wide_to_string, wstr};

const NOON: WallClock = WallClock {
    year: 2024,
    month: 3,
    day: 5,
    hour: 7,
    minute: 8,
    second: 9,
    milli: 45,
};

#[test]
fn white_space_is_that_of_unicode() {
    for v in 0..0x11_0000u32 {
        if let Some(c) = char::from_u32(v) {
            assert_eq!(white(c), c.is_whitespace());
        }
    }
}

#[test]
fn texts_are_trimmed_split_and_joined() {
    assert_eq!(trim_text(" \t\u{3000}a b\r\n"), "a b");
    assert_eq!(trim_text("  "), "");
    assert_eq!(split_text("a||b", '|'), vec!["a", "", "b"]);
    assert_eq!(split_text("", '|'), vec![""]);
    let parts = split_text("x,y,z", ',');
    assert_eq!(join_text(&parts, ", "), "x, y, z");
    assert!(eq_ignore_ascii_case("BlkSize", "blksize"));
    assert!(!eq_ignore_ascii_case("blksize", "blksizes"));
    assert!(!eq_ignore_ascii_case("Ä", "ä"));
}

#[test]
fn numbers_are_written_and_read() {
    assert_eq!(u64_text(0), "0");
    assert_eq!(u64_text(u64::MAX), "18446744073709551615");
    assert_eq!(parse_up_to("18446744073709551615", u64::MAX), Some(u64::MAX));
    assert_eq!(parse_up_to("18446744073709551616", u64::MAX), None);
    assert_eq!(parse_up_to("+7", 10), Some(7));
    assert_eq!(parse_up_to("007", 10), Some(7));
    assert_eq!(parse_up_to("11", 10), None);
    for bad in ["", "+", "-1", " 1", "1a", "++1"] {
        assert_eq!(parse_up_to(bad, 100), None);
    }
}

#[test]
fn addresses_are_written_and_read() {
    assert_eq!(ip_string(0xC0A8_1F64), "192.168.31.100");
    assert_eq!(ip_string(0), "0.0.0.0");
    assert_eq!(parse_ip("192.168.31.100"), Some(0xC0A8_1F64));
    assert_eq!(parse_ip("255.255.255.255"), Some(u32::MAX));
    for bad in ["", "1.2.3", "1.2.3.4.5", "256.1.1.1", "01.2.3.4", "+1.2.3.4", "1.2.3.4 ", "a.b.c.d"] {
        assert_eq!(parse_ip(bad), None);
    }
    assert_eq!(mac_string(&[0x04, 0xAB, 0]), "04:AB:00");
    assert_eq!(mask_for(1), 0xFFFF_FF00);
    assert_eq!(prefix_len_to_mask(0), 0);
    assert_eq!(prefix_len_to_mask(1), 0x8000_0000);
    assert_eq!(prefix_len_to_mask(24), 0xFFFF_FF00);
    assert_eq!(prefix_len_to_mask(32), u32::MAX);
    assert_eq!(prefix_len_to_mask(200), u32::MAX);
    assert!(in_pool(100, 100, 5) && in_pool(104, 100, 5));
    assert!(!in_pool(105, 100, 5) && !in_pool(99, 100, 5));
    assert_eq!(pool_end(), "192.168.31.199");
}

#[test]
fn numbers_in_packets_are_big_endian() {
    let mut v = Vec::new();
    put_be16(&mut v, 0x0102);
    put_be32(&mut v, 0xA0B0_C0D0);
    assert_eq!(v, vec![1, 2, 0xA0, 0xB0, 0xC0, 0xD0]);
    assert_eq!(be16(&v, 0), 0x0102);
    assert_eq!(be32(&v, 2), 0xA0B0_C0D0);
    assert_eq!(hex_string(0), "0");
    assert_eq!(hex_string(0x7B), "7B");
    assert_eq!(hex_string(u32::MAX), "FFFFFFFF");
    assert_eq!(hex8_string(0xA0B), "00000A0B");
}

#[test]
fn wide_texts_are_those_of_the_standard_library() {
    for s in ["", "runas", "以太网", "a😀b"] {
        let mut want: Vec<u16> = s.encode_utf16().collect();
        want.push(0);
        assert_eq!(wstr(s), want);
        assert_eq!(wide_to_string(&wstr(s)), s);
    }
    assert_eq!(wide_to_string(&[0xD800, 0x41, 0, 0x42]), "\u{FFFD}A");
    assert_eq!(wide_to_string(&[]), "");
    let music = [0xD834, 0xDD1E, 0x6D, 0x75, 0x73, 0xDD1E, 0x69, 0x63, 0xD834];
    assert_eq!(wide_to_string(&music), "𝄞mus\u{FFFD}ic\u{FFFD}");
}

#[test]
fn log_lines_carry_time_and_level() {
    let mut l = Logger::new();
    let e = l.info(NOON, "hello").unwrap();
    assert_eq!(e.line, "[05/03 07:08:09.045] [INF] hello");
    assert!(e.to_subscribers && e.to_console);
    assert_eq!(l.debug(NOON, "x").unwrap().line, "[05/03 07:08:09.045] [DBG] x");
    assert_eq!(l.warn(NOON, "x").unwrap().line, "[05/03 07:08:09.045] [WRN] x");
    assert_eq!(l.error(NOON, "x").unwrap().line, "[05/03 07:08:09.045] [ERR] x");
    l.set_ui_level(LogLevel::Info);
    l.set_console_echo(false);
    let d = l.debug(NOON, "x").unwrap();
    assert!(!d.to_subscribers && !d.to_console);
    assert!(l.emit(NOON, LogLevel::Error, "x").unwrap().to_subscribers);
    assert_eq!(l.write(NOON, "w").unwrap().line, "[05/03 07:08:09.045] [INF] w");
    let mut bad = NOON;
    bad.month = 13;
    assert!(l.info(bad, "x").is_none());
    assert_eq!(LogLevel::Warn.tag(), "WRN");
    assert!(LogLevel::Error.at_least(LogLevel::Warn));
    assert!(!LogLevel::Debug.at_least(LogLevel::Info));
}

#[test]
fn bars_and_colours() {
    assert_eq!(progress_bar(4, 10), "[####------]");
    assert_eq!(progress_bar(0, 0), "[--]");
    assert_eq!(progress_bar(2, 1), "[##]");
    assert_eq!(ansi("32"), "\x1b[32m");
}
