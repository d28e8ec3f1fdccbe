use miwifi_repair::log::LogLevel;
use miwifi_repair::selftest::{
    bare_request, check_not_found, check_refusal, download_request, pseudo_random, upload_request,
    ClientReply, Download,
};
use miwifi_repair::tftp::{
    decide_request, negotiate_block_size, negotiate_timeout, open_transfer, transfer_error_line,
    Admission, Next, Peer, Receiver, SendPhase, Sender, TftpServer, TransferEffect, TransferInfo,
};
use miwifi_repair::tftp_wire::{
    ack_packet, build_oack, build_request, classify, data_packet, error_packet, is_behind,
    parse_request, read_cstring, request_op, safe_name, Incoming, Request,
};

const CLIENT: Peer = Peer { ip: 0xC0A8_1F64, port: 2070 };

fn info(name: &str) -> TransferInfo {
    TransferInfo::new(name, "192.168.31.100:2070", 10, false)
}

fn packets(effects: &[TransferEffect]) -> Vec<Vec<u8>> {
    effects
        .iter()
        .filter_map(|e| match e {
            TransferEffect::Transmit(p) | TransferEffect::Retransmit(p) => Some(p.clone()),
            _ => None,
        })
        .collect()
}

fn lines(effects: &[TransferEffect]) -> Vec<(LogLevel, String)> {
    effects
        .iter()
        .filter_map(|e| match e {
            TransferEffect::Log(l, s) => Some((*l, s.clone())),
            _ => None,
        })
        .collect()
}

fn reports(effects: &[TransferEffect]) -> Vec<&TransferInfo> {
    effects
        .iter()
        .filter_map(|e| match e {
            TransferEffect::Report(i) => Some(i),
            _ => None,
        })
        .collect()
}

fn opts(v: &[(&str, &str)]) -> Vec<(String, String)> {
    v.iter().map(|(a, b)| (a.to_string(), b.to_string())).collect()
}

fn serve(file: &[u8], server: &TftpServer) -> (Download, Sender) {
    let pkt = download_request("rom.bin");
    let req = parse_request(&pkt, request_op(&pkt).unwrap());
    assert!(matches!(decide_request(&req, true, CLIENT), Admission::Accept));
    let open = open_transfer(&req, CLIENT, 50000, file.len() as i64, server.default_timeout);
    assert_eq!(open.block_size, 512);
    assert_eq!(open.timeout_seconds, 5);
    let mut client = Download::new();
    let first = packets(&open.effects);
    let ack = client.on_first(&first[0]).unwrap();
    let (mut sender, next) =
        Sender::start(open.info, open.block_size, server.max_retries, open.oack);
    assert!(next == Next::Receive);
    let (_, mut next) = sender.on_packet(&ack, 1);
    let mut at = 0;
    while next != Next::Stop {
        assert!(next == Next::Read);
        let end = (at + 512).min(file.len());
        let (effects, _) = sender.on_chunk(&file[at..end]);
        at = end;
        let reply = client.on_packet(&packets(&effects)[0]);
        let ack = match reply {
            ClientReply::Acknowledge(a) => a,
            _ => panic!("no acknowledgement"),
        };
        next = sender.on_packet(&ack, 2).1;
    }
    (client, sender)
}

#[test]
fn a_file_arrives_whole() {
    let server = TftpServer::with_bind(0x7F00_0001);
    assert_eq!((server.default_timeout, server.max_retries), (5, 5));
    assert_eq!(TftpServer::new().bind, 0);
    let file = pseudo_random(100_000, 42);
    let (client, sender) = serve(&file, &server);
    assert!(client.done);
    assert_eq!(client.verdict(&file, Some(196)), Ok(()));
    assert!(sender.info.done && sender.info.error.is_none());
    assert_eq!(sender.info.bytes_sent, 100_000);
    assert_eq!(sender.info.blocks, 196);
    assert_eq!(sender.info.retransmits, 0);
}

#[test]
fn a_multiple_of_the_block_size_ends_with_an_empty_block() {
    let file = pseudo_random(1024, 42);
    let (client, sender) = serve(&file, &TftpServer::new());
    assert_eq!(client.verdict(&file, Some(3)), Ok(()));
    assert_eq!(sender.info.blocks, 3);
    assert_eq!(
        client.verdict(&file, Some(2)),
        Err("packets 3 != 2".to_string())
    );
    assert_eq!(client.verdict(&file[1..], None), Err("data mismatch".to_string()));
    let (client, _) = serve(&[], &TftpServer::new());
    assert_eq!(client.verdict(&[], Some(1)), Ok(()));
}

#[test]
fn test_data_is_the_same_every_time() {
    assert_eq!(pseudo_random(8, 42), pseudo_random(8, 42));
    let s0 = 42u32.wrapping_mul(1664525).wrapping_add(1013904223);
    let s1 = s0.wrapping_mul(1664525).wrapping_add(1013904223);
    assert_eq!(pseudo_random(1, 42), vec![(s1 >> 24) as u8]);
    assert!(pseudo_random(0, 1).is_empty());
}

#[test]
fn uploads_are_refused() {
    let pkt = upload_request("upload.bin");
    assert_eq!(pkt, b"\0\x02upload.bin\0octet\0".to_vec());
    let req = parse_request(&pkt, request_op(&pkt).unwrap());
    for is_file in [false, true] {
        match decide_request(&req, is_file, CLIENT) {
            Admission::Reject { packet, level, line } => {
                assert_eq!(packet, b"\0\x05\0\x02Access violation: write requests disabled\0".to_vec());
                assert!(level == LogLevel::Warn);
                assert_eq!(
                    line,
                    "Write request from 192.168.31.100:2070 for <upload.bin> rejected"
                );
                assert_eq!(check_refusal(&packet, false, false), Ok(()));
                assert_eq!(
                    check_refusal(&packet, true, false),
                    Err("upload file must not be created".to_string())
                );
                assert_eq!(
                    check_refusal(&packet, false, true),
                    Err("upload file created despite rejection".to_string())
                );
            }
            Admission::Accept => panic!("an upload was accepted"),
        }
    }
    assert_eq!(
        check_refusal(&error_packet(1, ""), false, false),
        Err("expected error code 2 (Access violation), got 1".to_string())
    );
    assert_eq!(
        check_refusal(&[0, 5], false, false),
        Err("expected ERROR opcode".to_string())
    );
}

#[test]
fn missing_files_are_refused() {
    let pkt = bare_request(1, "nope.bin");
    let req = parse_request(&pkt, 1);
    match decide_request(&req, false, CLIENT) {
        Admission::Reject { packet, line, .. } => {
            assert_eq!(packet, b"\0\x05\0\x01File not found\0".to_vec());
            assert_eq!(line, "Read request for file <nope.bin>. Mode octet -> not found");
            assert_eq!(check_not_found(&packet), Ok(()));
        }
        Admission::Accept => panic!("a missing file was served"),
    }
    assert_eq!(check_not_found(&[0, 3]), Err("expected ERROR".to_string()));
    assert!(matches!(decide_request(&req, true, CLIENT), Admission::Accept));
}

#[test]
fn requests_are_read_as_they_were_written() {
    let req = Request {
        op: 1,
        file_name: "固件 a.bin".to_string(),
        mode: "octet".to_string(),
        options: opts(&[("tsize", "0"), ("BLKSIZE", "1468"), ("x", "")]),
    };
    let pkt = build_request(&req);
    assert_eq!(request_op(&pkt), Some(1));
    let back = parse_request(&pkt, 1);
    assert_eq!(back.file_name, req.file_name);
    assert_eq!(back.mode, req.mode);
    assert_eq!(back.options, req.options);
    // an empty name ends the options, and so does the end of the packet
    let back = parse_request(b"\0\x01f\0octet\0a\x001\0\0b\x002\0", 1);
    assert_eq!(back.options, opts(&[("a", "1")]));
    let back = parse_request(b"\0\x01f", 1);
    assert_eq!((back.file_name.as_str(), back.mode.as_str()), ("f", ""));
    assert!(back.options.is_empty());
    assert_eq!(request_op(&[0]), None);
    assert_eq!(request_op(&[0, 3]), None);
    assert_eq!(request_op(&[0, 2]), Some(2));
}

#[test]
fn fields_that_are_not_utf8_get_replacement_characters() {
    assert_eq!(read_cstring(&[0xFF, b'A', 0, b'B'], 0), ("\u{FFFD}A".to_string(), 3));
    assert_eq!(read_cstring(&[0xE5, 0x9B, 0xBA, 0], 0), ("固".to_string(), 4));
    assert_eq!(read_cstring(&[b'A'], 0), ("A".to_string(), 1));
    assert_eq!(read_cstring(&[b'A'], 1), (String::new(), 1));
}

#[test]
fn names_lose_their_directories() {
    assert_eq!(safe_name("../../etc/passwd"), "passwd");
    assert_eq!(safe_name("C:\\x\\rom.bin"), "rom.bin");
    assert_eq!(safe_name("a/b\\c/"), "");
    assert_eq!(safe_name("plain.bin"), "plain.bin");
}

#[test]
fn options_are_kept_in_range() {
    let bs = |v: &str| negotiate_block_size(&opts(&[("BlkSize", v)]));
    assert_eq!(bs("1468"), 1468);
    assert_eq!(bs("1"), 8);
    assert_eq!(bs("99999999999"), 65464);
    assert_eq!(bs("x"), 512);
    assert_eq!(bs("99999999999999999999999"), 512);
    assert_eq!(negotiate_block_size(&opts(&[("blksize", "x"), ("blksize", "9")])), 512);
    assert_eq!(negotiate_block_size(&Vec::new()), 512);
    let to = |v: &str| negotiate_timeout(&opts(&[("timeout", v)]), 5);
    assert_eq!((to("0"), to("7"), to("256"), to("-1")), (1, 7, 255, 5));
}

#[test]
fn a_transfer_opens_with_its_options() {
    let req = Request {
        op: 1,
        file_name: "f.bin".to_string(),
        mode: "octet".to_string(),
        options: opts(&[("tsize", "0"), ("blksize", "1024")]),
    };
    let o = open_transfer(&req, CLIENT, 50123, 777, 5);
    assert_eq!((o.block_size, o.timeout_seconds), (1024, 5));
    assert_eq!(
        o.oack,
        Some(b"\0\x06blksize\x001024\0timeout\x005\0tsize\x00777\0".to_vec())
    );
    assert_eq!(packets(&o.effects), vec![o.oack.clone().unwrap()]);
    assert_eq!(
        lines(&o.effects),
        vec![
            (
                LogLevel::Info,
                "Connection received from 192.168.31.100 on port 2070".to_string()
            ),
            (LogLevel::Info, "Read request for file <f.bin>. Mode octet".to_string()),
            (LogLevel::Debug, "Using local port 50123".to_string()),
            (
                LogLevel::Debug,
                "OACK: <blksize=1024,timeout=5,tsize=777>".to_string()
            ),
        ]
    );
    assert_eq!(o.info.remote, "192.168.31.100:2070");
    assert_eq!(o.info.total_bytes, 777);
    assert!(!o.info.is_upload && !o.info.done);
    // without options nothing is acknowledged; an unknown size counts as 0
    let bare = Request { op: 1, file_name: String::new(), mode: String::new(), options: Vec::new() };
    let o = open_transfer(&bare, CLIENT, 1, -1, 5);
    assert!(o.oack.is_none() && packets(&o.effects).is_empty());
    assert_eq!(
        build_oack(&opts(&[("a", "b")])),
        b"\0\x06a\0b\0".to_vec()
    );
}

#[test]
fn a_silent_client_is_given_up() {
    let (mut s, next) = Sender::start(info("f"), 8, 2, None);
    assert!(next == Next::Read);
    let (e, _) = s.on_chunk(b"12345678");
    let out = packets(&e)[0].clone();
    assert_eq!(out, data_packet(1, b"12345678"));
    for _ in 0..2 {
        let (e, next) = s.on_timeout(5);
        assert!(matches!(e[0], TransferEffect::Retransmit(_)));
        assert_eq!(packets(&e)[0], out);
        assert!(next == Next::Receive);
    }
    let (e, next) = s.on_timeout(9);
    assert!(next == Next::Stop && s.phase == SendPhase::Finished);
    let last = reports(&e)[0];
    assert_eq!(last.error.as_deref(), Some("timeout"));
    assert_eq!((last.blocks, last.retransmits, last.bytes_sent, last.nanos), (1, 3, 0, 9));
    // before the first block the reason is another
    let (mut s, _) = Sender::start(info("f"), 8, 0, Some(vec![0, 6]));
    let (e, _) = s.on_timeout(1);
    let last = reports(&e)[0];
    assert_eq!(last.error.as_deref(), Some("timeout waiting for initial ACK"));
    assert_eq!(last.blocks, 0);
}

#[test]
fn acknowledgements_move_the_transfer_or_repeat_the_block() {
    let (mut s, _) = Sender::start(info("f"), 4, 5, None);
    s.on_chunk(b"1234");
    s.on_packet(&ack_packet(1), 1);
    s.on_chunk(b"567");
    // late, early and foreign packets
    let (e, next) = s.on_packet(&ack_packet(1), 1);
    assert_eq!(packets(&e), vec![data_packet(2, b"567")]);
    assert!(next == Next::Receive);
    assert!(s.on_packet(&ack_packet(3), 1).0.is_empty());
    assert!(s.on_packet(&[0, 4, 0], 1).0.is_empty());
    assert!(s.on_packet(&data_packet(2, b"x"), 1).0.is_empty());
    let (e, next) = s.on_packet(&ack_packet(2), 3_500_000_000);
    assert!(next == Next::Stop);
    assert_eq!(
        lines(&e),
        vec![(
            LogLevel::Info,
            "<f>: sent 2 blks, 7 bytes in 3 s. 1 blk resent".to_string()
        )]
    );
    assert_eq!(reports(&e).len(), 2);
    assert!(!reports(&e)[0].done && reports(&e)[1].done);
    // an error packet ends the transfer
    let (mut s, _) = Sender::start(info("f"), 4, 5, None);
    s.on_chunk(b"1");
    let (e, next) = s.on_packet(&error_packet(0, "stop"), 1);
    assert!(next == Next::Stop);
    assert_eq!(reports(&e)[0].error.as_deref(), Some("timeout"));
}

#[test]
fn block_numbers_wrap() {
    assert!(is_behind(65535, 0));
    assert!(!is_behind(0, 65535));
    assert!(!is_behind(7, 7));
    assert!(is_behind(0, 0x8000));
    assert_eq!(data_packet(65536 + 5, b"")[2..], [0, 5]);
    assert!(classify(&[0, 4, 1, 2]) == Incoming::Ack(0x0102));
    assert!(classify(&[0, 3, 1, 2, 9]) == Incoming::Data(0x0102));
    assert!(classify(&[0, 5, 0, 0]) == Incoming::Error);
    assert!(classify(&[0, 6, 0, 0]) == Incoming::Other);
    assert!(classify(&[0, 4, 1]) == Incoming::Short);
}

#[test]
fn an_upload_would_be_received_block_by_block() {
    let (mut r, e, next) = Receiver::start(info("u"), 4, 1, false);
    assert_eq!(packets(&e), vec![ack_packet(0)]);
    assert!(next == Next::Receive);
    let (e, _) = r.on_packet(&data_packet(1, b"abcd"), 1);
    assert!(matches!(&e[0], TransferEffect::Store(d) if d == b"abcd"));
    assert_eq!(packets(&e), vec![ack_packet(1)]);
    let (e, _) = r.on_packet(&data_packet(1, b"abcd"), 1);
    assert!(matches!(&e[0], TransferEffect::Retransmit(p) if *p == ack_packet(1)));
    let (e, _) = r.on_packet(&data_packet(3, b"zzzz"), 1);
    assert!(packets(&e).is_empty() && reports(&e).len() == 1);
    let (e, _) = r.on_timeout(2);
    assert_eq!(packets(&e), vec![ack_packet(1)]);
    let (e, next) = r.on_packet(&data_packet(2, b"e"), 2_000_000_000);
    assert!(next == Next::Stop && r.over);
    assert_eq!(
        lines(&e)[0].1,
        "<u>: received 2 blks, 5 bytes in 2 s. 1 blk resent"
    );
    assert!(r.info.error.is_none() && r.info.done);
}

#[test]
fn an_upload_breaks_off_with_its_reason() {
    let (mut r, e, _) = Receiver::start(info("u"), 4, 0, true);
    assert!(e.is_empty());
    r.on_timeout(1);
    assert_eq!(r.info.error.as_deref(), Some("timeout"));
    let (mut r, _, _) = Receiver::start(info("u"), 4, 0, true);
    r.on_packet(&error_packet(0, ""), 1);
    assert_eq!(r.info.error.as_deref(), Some("client aborted"));
    let (mut r, _, _) = Receiver::start(info("u"), 4, 0, true);
    r.on_stop(1);
    assert_eq!(r.info.error.as_deref(), Some("server stopped"));
    let mut i = info("u");
    i.fail("disk full".to_string());
    assert!(i.done);
    assert_eq!(i.copy().error.as_deref(), Some("disk full"));
    assert_eq!(transfer_error_line("x"), "TFTP transfer error: x");
}

#[test]
fn the_test_client_checks_what_it_gets() {
    let mut c = Download::new();
    assert_eq!(c.on_first(&[0, 5]), Err("expected OACK".to_string()));
    assert_eq!(c.on_first(&[0]), Err("expected OACK".to_string()));
    assert!(matches!(c.on_packet(&ack_packet(1)), ClientReply::Ignore));
    match c.on_packet(&data_packet(2, b"")) {
        ClientReply::Fail(e) => assert_eq!(e, "block 2 != 1"),
        _ => panic!("a wrong block was taken"),
    }
    match c.on_packet(&error_packet(1, "x")) {
        ClientReply::Fail(e) => assert_eq!(e, "server ERROR"),
        _ => panic!("an error was taken"),
    }
}

#[test]
fn a_short_packet_is_read_with_what_the_buffer_held() {
    let failed = |r: ClientReply| match r {
        ClientReply::Fail(e) => e,
        _ => panic!("the packet was taken"),
    };
    let mut c = Download::new();
    assert!(matches!(c.on_packet(&[]), ClientReply::Ignore));
    assert_eq!(c.on_first(&[0]), Err("expected OACK".to_string()));
    assert!(c.on_first(&[0, 6, b'b']).is_ok());
    // the buffer still holds the option acknowledgement
    assert!(matches!(c.on_packet(&[]), ClientReply::Ignore));
    assert!(matches!(c.on_packet(&[0, 4, 0]), ClientReply::Ignore));
    assert_eq!(failed(c.on_packet(&[0, 5])), "server ERROR");
    assert!(!c.done && c.packets == 0);
    // the buffer holds the block before
    assert!(matches!(c.on_packet(&data_packet(1, &[7; 512])), ClientReply::Acknowledge(_)));
    assert_eq!(failed(c.on_packet(&[])), "block 1 != 2");
    assert_eq!(failed(c.on_packet(&[0, 3])), "block 1 != 2");
    assert_eq!(failed(c.on_packet(&[0, 3, 1])), "block 257 != 2");
    // a block number that an ignored packet left behind
    assert!(matches!(c.on_packet(&[0, 4, 0, 2]), ClientReply::Ignore));
    assert_eq!(failed(c.on_packet(&[0, 3])), "short DATA");
    assert_eq!((c.packets, c.block), (1, 2));
}
