use miwifi_repair::dhcp::{DhcpServer, Effect, Step};
use miwifi_repair::dhcp_wire::{build_reply, get_address, get_message_type, parse_options, Reply};
use miwifi_repair::leases::{from_file, to_file, LeaseFile, LeaseRecord};
use miwifi_repair::log::LogLevel;
use miwifi_repair::net::reply_destination;
use miwifi_repair::selftest::{
    build_dhcp, check_ack, check_nak, check_offer, get_opt, DhcpMove, DhcpTest,
};

const MAC1: [u8; 6] = [0x04, 0x67, 0x61, 0x9A, 0x3A, 0x3C];
const MAC2: [u8; 6] = [0x04, 0x67, 0x61, 0x9A, 0x3A, 0x3D];
const SERVER: u32 = 0xC0A8_1F01;
const FIRST: u32 = 0xC0A8_1F64;
const LOCAL: u32 = 0x7F00_0001;

fn server() -> DhcpServer {
    DhcpServer::with_bind(SERVER, FIRST, 100, LOCAL)
}

fn sent(step: &Step) -> Option<(Vec<u8>, u32, u16)> {
    step.effects.iter().find_map(|e| match e {
        Effect::Send { packet, ip, port } => Some((packet.clone(), *ip, *port)),
        _ => None,
    })
}

fn logged(step: &Step) -> Vec<(LogLevel, String)> {
    step.effects
        .iter()
        .filter_map(|e| match e {
            Effect::Log(l, s) => Some((*l, s.clone())),
            _ => None,
        })
        .collect()
}

fn discover(s: &mut DhcpServer, mac: &[u8; 6], now: u64) -> Step {
    s.handle_packet(&build_dhcp(1, mac, 1, None, None, 0), LOCAL, now)
}

fn sorted_leases(s: &DhcpServer) -> Vec<(String, u32, u64)> {
    let mut v = s.leases_snapshot();
    v.sort();
    v
}

#[test]
fn discover_offer_request_ack_nak_release() {
    let mut s = server();
    assert_eq!(s.bind_address(), LOCAL);
    assert_eq!(s.last_activity_unix(), 0);
    let step = s.handle_packet(&build_dhcp(0x12345678, &MAC1, 1, None, None, 0), LOCAL, 1000);
    assert_eq!(s.last_activity_unix(), 1000);
    let (offer, ip, port) = sent(&step).unwrap();
    assert_eq!((ip, port), (LOCAL, 68));
    assert_eq!(&offer[4..8], &[0x12, 0x34, 0x56, 0x78]);
    let yiaddr = check_offer(&offer).unwrap();
    assert_eq!(yiaddr, FIRST);
    assert_eq!(
        logged(&step),
        vec![
            (
                LogLevel::Debug,
                "Rcvd DHCP Discover Msg for IP 0.0.0.0, Mac 04:67:61:9A:3A:3C".to_string()
            ),
            (LogLevel::Info, "DHCP: proposed address 192.168.31.100".to_string()),
        ]
    );
    assert_eq!(
        sorted_leases(&s),
        vec![("04:67:61:9A:3A:3C".to_string(), FIRST, 1060)]
    );

    let step = s.handle_packet(
        &build_dhcp(0x12345678, &MAC1, 3, Some(yiaddr), Some(SERVER), 0),
        LOCAL,
        1001,
    );
    let (ack, _, _) = sent(&step).unwrap();
    assert!(check_ack(&ack, yiaddr).is_ok());
    assert_eq!(
        sorted_leases(&s),
        vec![("04:67:61:9A:3A:3C".to_string(), FIRST, 1001 + 172_800)]
    );

    let step = s.handle_packet(
        &build_dhcp(0xDEADBEEF, &MAC2, 3, Some(0xC0A8_1FFA), Some(SERVER), 0),
        LOCAL,
        1002,
    );
    let (nak, _, _) = sent(&step).unwrap();
    assert!(check_nak(&nak).is_ok());
    assert_eq!(logged(&step)[1], (LogLevel::Warn, "DHCP Nak".to_string()));

    let step = s.handle_packet(&build_dhcp(1, &MAC1, 7, None, None, yiaddr), LOCAL, 1003);
    assert_eq!(
        logged(&step),
        vec![
            (
                LogLevel::Debug,
                "Rcvd DHCP release Msg for IP 192.168.31.100, Mac 04:67:61:9A:3A:3C".to_string()
            ),
            (LogLevel::Debug, "item 04:67:61:9A:3A:3C released".to_string()),
        ]
    );
    assert!(sent(&step).is_none());
    assert!(s.leases_snapshot().is_empty());
}

#[test]
fn the_server_passes_its_own_test() {
    let mut s = server();
    let (mut test, mut message) = DhcpTest::start();
    assert_eq!(message, build_dhcp(0x12345678, &MAC1, 1, None, None, 0));
    let mut sent_messages = 0;
    loop {
        sent_messages += 1;
        let step = s.handle_packet(&message, LOCAL, 1000 + sent_messages);
        let reply = sent(&step).unwrap().0;
        match test.on_reply(&reply) {
            DhcpMove::Send(m) => message = m,
            DhcpMove::Pass(m) => {
                s.handle_packet(&m, LOCAL, 2000);
                break;
            }
            DhcpMove::Fail(e) => panic!("{e}"),
        }
    }
    assert_eq!(sent_messages, 3);
    assert!(s.leases_snapshot().is_empty());
}

#[test]
fn the_dhcp_test_tells_what_is_missing() {
    let fails = |test: &mut DhcpTest, reply: &[u8]| match test.on_reply(reply) {
        DhcpMove::Fail(e) => e,
        _ => panic!("the test went on"),
    };
    let reply = |kind: u8, addr: u32, server_ip: u32| {
        let r = Reply {
            xid: 1,
            flags: 0,
            giaddr: 0,
            addr,
            msg_type: kind,
            is_inform: false,
            server_ip,
            lease_seconds: 1,
        };
        build_reply(&r, &[0; 16])
    };
    let (mut t, _) = DhcpTest::start();
    assert_eq!(fails(&mut t, &[]), "no OFFER");
    assert_eq!(fails(&mut t, &reply(2, 0x0A00_0001, SERVER)), "yiaddr 0x0A000001");
    assert_eq!(fails(&mut t, &reply(5, FIRST, SERVER)), "option 53 != OFFER");
    assert_eq!(fails(&mut t, &reply(2, FIRST, 1)), "server id");
    assert!(matches!(t.on_reply(&reply(2, FIRST, SERVER)), DhcpMove::Send(_)));
    assert_eq!(fails(&mut t, &[]), "no ACK");
    assert_eq!(fails(&mut t, &reply(2, FIRST, SERVER)), "option 53 != ACK");
    assert_eq!(fails(&mut t, &reply(5, FIRST + 1, SERVER)), "ACK yiaddr differs");
    assert!(matches!(t.on_reply(&reply(5, FIRST, SERVER)), DhcpMove::Send(_)));
    assert_eq!(fails(&mut t, &[]), "no NAK");
    assert_eq!(fails(&mut t, &reply(5, 0, SERVER)), "option 53 != NAK");
    let mut no_mask = reply(2, FIRST, SERVER);
    let at = 240 + 3 + 6 * 4;
    assert_eq!(no_mask[at], 1);
    no_mask[at] = 200;
    assert_eq!(check_offer(&no_mask), Err("subnet mask".to_string()));
    let mut no_router = reply(2, FIRST, SERVER);
    no_router[at + 6] = 200;
    assert_eq!(check_offer(&no_router), Err("router option".to_string()));
}

#[test]
fn two_clients_get_two_addresses() {
    let mut s = server();
    let a = check_offer(&sent(&discover(&mut s, &MAC1, 1)).unwrap().0).unwrap();
    let b = check_offer(&sent(&discover(&mut s, &MAC2, 1)).unwrap().0).unwrap();
    assert_eq!((a, b), (FIRST, FIRST + 1));
    // an ended lease still keeps the address from others
    let mut s = server();
    discover(&mut s, &MAC1, 1);
    let b = check_offer(&sent(&discover(&mut s, &MAC2, 100_000)).unwrap().0).unwrap();
    assert_eq!(b, FIRST + 1);
}

#[test]
fn the_servers_own_address_is_passed_over() {
    let mut s = DhcpServer::new(SERVER, SERVER, 3);
    assert_eq!(s.bind_address(), 0);
    let (p, _, _) = sent(&discover(&mut s, &MAC1, 1)).unwrap();
    assert_eq!(p[16..20], [192, 168, 31, 2]);
}

#[test]
fn an_empty_pool_is_reported() {
    let mut s = DhcpServer::new(SERVER, SERVER, 1);
    let step = discover(&mut s, &MAC1, 1);
    assert_eq!(logged(&step)[1], (LogLevel::Error, "DHCP Pool is empty".to_string()));
    assert!(sent(&step).is_none());
}

#[test]
fn a_declined_address_is_not_offered_again() {
    let mut s = server();
    discover(&mut s, &MAC1, 1);
    let step = s.handle_packet(&build_dhcp(1, &MAC1, 4, Some(FIRST), None, 0), LOCAL, 2);
    assert_eq!(logged(&step), vec![(LogLevel::Debug, "DHCP decline".to_string())]);
    let b = check_offer(&sent(&discover(&mut s, &MAC1, 3)).unwrap().0).unwrap();
    assert_eq!(b, FIRST + 1);
    // a release that names it makes it usable again
    s.handle_packet(&build_dhcp(1, &MAC1, 7, None, None, FIRST), LOCAL, 4);
    let c = check_offer(&sent(&discover(&mut s, &MAC1, 5)).unwrap().0).unwrap();
    assert_eq!(c, FIRST);
}

#[test]
fn another_server_is_left_alone() {
    let mut s = server();
    let step = s.handle_packet(
        &build_dhcp(1, &MAC1, 3, Some(FIRST), Some(0x0A00_0001), 0),
        LOCAL,
        1,
    );
    assert_eq!(
        logged(&step)[1],
        (LogLevel::Warn, "DHCP Double Answer : ignored".to_string())
    );
    assert!(sent(&step).is_none());
    assert!(s.leases_snapshot().is_empty());
}

#[test]
fn renewing_needs_the_lease() {
    let mut s = server();
    let step = s.handle_packet(&build_dhcp(1, &MAC1, 3, None, None, FIRST), LOCAL, 1);
    assert!(check_nak(&sent(&step).unwrap().0).is_ok());
    discover(&mut s, &MAC1, 2);
    let step = s.handle_packet(&build_dhcp(1, &MAC1, 3, None, None, FIRST), LOCAL, 3);
    assert!(check_ack(&sent(&step).unwrap().0, FIRST).is_ok());
    assert_eq!(
        logged(&step)[1],
        (LogLevel::Debug, "Previously allocated address 192.168.31.100 acked".to_string())
    );
    // asked for what it cannot have, a client gets what it holds
    let step = s.handle_packet(&build_dhcp(1, &MAC1, 3, Some(0x0A00_0001), None, 0), LOCAL, 4);
    assert!(check_ack(&sent(&step).unwrap().0, FIRST).is_ok());
}

#[test]
fn a_held_address_is_not_given_to_another_client() {
    let mut s = server();
    discover(&mut s, &MAC1, 1);
    let step = s.handle_packet(&build_dhcp(1, &MAC2, 3, Some(FIRST), None, 0), LOCAL, 2);
    assert!(check_nak(&sent(&step).unwrap().0).is_ok());
    let step = s.handle_packet(&build_dhcp(1, &MAC2, 3, Some(FIRST + 7), None, 0), LOCAL, 3);
    assert!(check_ack(&sent(&step).unwrap().0, FIRST + 7).is_ok());
}

#[test]
fn inform_is_answered_without_an_address() {
    let mut s = server();
    let step = s.handle_packet(&build_dhcp(1, &MAC1, 8, None, None, 0x0A00_0005), LOCAL, 1);
    let (p, _, _) = sent(&step).unwrap();
    assert_eq!(p.len(), 240 + 3 + 6 + 1);
    assert_eq!(get_opt(&p, 53), Some(vec![2]));
    assert_eq!(get_opt(&p, 51), None);
    assert_eq!(p[16..20], [0, 0, 0, 0]);
}

#[test]
fn bad_packets_are_ignored() {
    let good = build_dhcp(1, &MAC1, 1, None, None, 0);
    let mut s = server();
    assert!(s.handle_packet(&good[..239], LOCAL, 5).effects.is_empty());
    for (at, v) in [(0usize, 2u8), (1, 6), (2, 5), (2, 17)] {
        let mut p = good.clone();
        p[at] = v;
        assert!(s.handle_packet(&p, LOCAL, 5).effects.is_empty());
    }
    assert_eq!(s.last_activity_unix(), 0);
    let mut p = good.clone();
    p[236] = 0;
    assert!(s.handle_packet(&p, LOCAL, 6).effects.is_empty());
    assert_eq!(s.last_activity_unix(), 0);
    // no message type, and one that no client sends
    let mut p = good.clone();
    p[240] = 255;
    assert!(s.handle_packet(&p, LOCAL, 7).effects.is_empty());
    assert_eq!(s.last_activity_unix(), 7);
    assert!(s
        .handle_packet(&build_dhcp(1, &MAC1, 5, None, None, 0), LOCAL, 8)
        .effects
        .is_empty());
    assert!(s.leases_snapshot().is_empty());
}

#[test]
fn used_addresses_are_suppressed_by_probing() {
    let mut s = server();
    s.set_probe(true);
    let step = discover(&mut s, &MAC1, 10);
    assert!(sent(&step).is_none());
    let pending = step.pending.unwrap();
    assert_eq!(pending.ip, FIRST);
    let step = s.resume(pending, true);
    assert_eq!(
        logged(&step),
        vec![(LogLevel::Debug, "Suppress used address 192.168.31.100".to_string())]
    );
    let pending = step.pending.unwrap();
    assert_eq!(pending.ip, FIRST + 1);
    let step = s.resume(pending, false);
    assert!(step.pending.is_none());
    assert_eq!(check_offer(&sent(&step).unwrap().0).unwrap(), FIRST + 1);
    assert_eq!(
        sorted_leases(&s),
        vec![("04:67:61:9A:3A:3C".to_string(), FIRST + 1, 70)]
    );
    // the address that it has is offered again without a probe
    assert!(discover(&mut s, &MAC1, 11).pending.is_none());
}

#[test]
fn probing_a_full_pool_ends() {
    let mut s = DhcpServer::new(SERVER, FIRST, 2);
    s.set_probe(true);
    let p = discover(&mut s, &MAC1, 1).pending.unwrap();
    let p = s.resume(p, true).pending.unwrap();
    let step = s.resume(p, true);
    assert!(step.pending.is_none());
    assert_eq!(logged(&step)[1], (LogLevel::Error, "DHCP Pool is empty".to_string()));
    assert!(s.leases_snapshot().is_empty());
}

#[test]
fn stored_leases_survive_a_restart() {
    let mut s = server();
    discover(&mut s, &MAC1, 1);
    discover(&mut s, &MAC2, 1);
    s.handle_packet(&build_dhcp(1, &MAC2, 3, Some(FIRST + 1), None, 0), LOCAL, 2);
    let file = to_file(&s.leases_snapshot());
    let mut next = server();
    next.seed_leases(from_file(&file), 1000);
    assert_eq!(
        sorted_leases(&next),
        vec![("04:67:61:9A:3A:3D".to_string(), FIRST + 1, 2 + 172_800)]
    );
    let ip = check_offer(&sent(&discover(&mut next, &MAC2, 2000)).unwrap().0).unwrap();
    assert_eq!(ip, FIRST + 1);
}

#[test]
fn seeding_stops_at_the_size_of_the_pool() {
    let mut s = DhcpServer::new(SERVER, FIRST, 2);
    let r = |n: u32, e: u64| (format!("m{n}"), FIRST + n, e);
    s.seed_leases(vec![r(0, 5), r(1, 20), r(2, 30), r(3, 40)], 10);
    assert_eq!(
        sorted_leases(&s),
        vec![("m1".to_string(), FIRST + 1, 20), ("m2".to_string(), FIRST + 2, 30)]
    );
}

#[test]
fn lease_files_drop_what_is_no_address() {
    let rec = |mac: &str, ip: &str| LeaseRecord {
        mac: mac.to_string(),
        ip: ip.to_string(),
        expires_unix: 9,
    };
    let file = LeaseFile { leases: vec![rec("a", "1.2.3.4"), rec("b", "1.2.3"), rec("c", "01.2.3.4")] };
    assert_eq!(from_file(&file), vec![("a".to_string(), 0x0102_0304, 9)]);
    assert!(LeaseFile::default().leases.is_empty());
    let f = to_file(&vec![("x".to_string(), 0xFFFF_FFFF, 7)]);
    assert_eq!(f.leases[0].ip, "255.255.255.255");
    assert_eq!(f.leases[0].mac, "x");
    assert_eq!(f.leases[0].expires_unix, 7);
}

#[test]
fn options_are_read_with_padding_and_repeats() {
    let p = [0u8, 0, 53, 1, 1, 0, 53, 1, 3, 50, 4, 1, 2, 3, 4, 54, 9, 1];
    let o = parse_options(&p, 2);
    assert_eq!(o.len(), 3);
    assert_eq!(get_message_type(&o), Some(3));
    assert_eq!(get_address(&o, 50), Some(0x0102_0304));
    assert_eq!(get_address(&o, 54), None);
    assert_eq!(parse_options(&[255, 53, 1, 1], 0).len(), 0);
    assert_eq!(parse_options(&[53], 0).len(), 0);
}

#[test]
fn replies_have_their_bytes_in_place() {
    let r = Reply {
        xid: 0x0102_0304,
        flags: 0x8000,
        giaddr: 0x0A0B_0C0D,
        addr: FIRST,
        msg_type: 5,
        is_inform: false,
        server_ip: SERVER,
        lease_seconds: 172_800,
    };
    let chaddr: Vec<u8> = (1..=16).collect();
    let p = build_reply(&r, &chaddr);
    assert_eq!(p.len(), 240 + 3 + 7 * 6 + 1);
    assert_eq!(p[..4], [2, 1, 6, 0]);
    assert_eq!(p[4..8], [1, 2, 3, 4]);
    assert_eq!(p[10..12], [0x80, 0]);
    assert_eq!(p[16..20], [192, 168, 31, 100]);
    assert_eq!(p[20..24], [192, 168, 31, 1]);
    assert_eq!(p[24..28], [10, 11, 12, 13]);
    assert_eq!(p[28..44], chaddr[..]);
    assert_eq!(p[236..240], [0x63, 0x82, 0x53, 0x63]);
    assert_eq!(get_opt(&p, 51), Some(vec![0, 2, 0xA3, 0]));
    assert_eq!(get_opt(&p, 58), Some(86_400u32.to_be_bytes().to_vec()));
    assert_eq!(get_opt(&p, 59), Some(151_200u32.to_be_bytes().to_vec()));
    assert_eq!(get_opt(&p, 1), Some(vec![255, 255, 255, 0]));
    assert_eq!(get_opt(&p, 3), Some(vec![192, 168, 31, 1]));
    assert_eq!(get_opt(&p, 6), Some(vec![192, 168, 31, 1]));
    assert_eq!(*p.last().unwrap(), 255);
}

#[test]
fn replies_find_their_way() {
    assert_eq!(reply_destination(5, 9, 0x8000), (9, 67));
    assert_eq!(reply_destination(5, 0, 0x8000), (0xFFFF_FFFF, 68));
    assert_eq!(reply_destination(0, 0, 0), (0xFFFF_FFFF, 68));
    assert_eq!(reply_destination(5, 0, 0x7FFF), (5, 68));
}

#[test]
fn a_declined_address_stays_out_until_it_is_released() {
    let mut s = DhcpServer::with_bind(SERVER, FIRST, 2, LOCAL);
    let offered = |step: &Step| sent(step).and_then(|(p, _, _)| check_offer(&p).ok());
    assert_eq!(offered(&discover(&mut s, &MAC1, 1)), Some(FIRST));
    s.handle_packet(&build_dhcp(1, &MAC1, 4, Some(FIRST), None, 0), LOCAL, 2);
    // other packets come in between, also one that releases another address
    discover(&mut s, &MAC2, 3);
    s.handle_packet(&build_dhcp(1, &MAC2, 3, Some(FIRST), None, 0), LOCAL, 4);
    s.handle_packet(&build_dhcp(1, &MAC1, 8, None, None, 0), LOCAL, 5);
    let before = sorted_leases(&s);
    let step = discover(&mut s, &MAC1, 6);
    assert!(sent(&step).is_none());
    assert!(!step.effects.iter().any(|e| matches!(e, Effect::LeaseChanged(_, _))));
    assert_eq!(logged(&step)[1], (LogLevel::Error, "DHCP Pool is empty".to_string()));
    assert_eq!(sorted_leases(&s), before);
    s.handle_packet(&build_dhcp(1, &MAC2, 7, None, None, FIRST + 1), LOCAL, 7);
    assert_eq!(offered(&discover(&mut s, &MAC1, 8)), Some(FIRST + 1));
    // given back, it can be had again
    s.handle_packet(&build_dhcp(1, &MAC1, 7, None, None, FIRST), LOCAL, 9);
    assert_eq!(offered(&discover(&mut s, &MAC2, 10)), Some(FIRST));
}

#[test]
fn no_request_takes_the_address_of_another_client() {
    let mut s = server();
    discover(&mut s, &MAC1, 1);
    s.handle_packet(&build_dhcp(1, &MAC1, 3, Some(FIRST), Some(SERVER), 0), LOCAL, 2);
    let step = s.handle_packet(&build_dhcp(1, &MAC2, 3, Some(FIRST), Some(SERVER), 0), LOCAL, 3);
    assert!(check_nak(&sent(&step).unwrap().0).is_ok());
    let step = s.handle_packet(&build_dhcp(1, &MAC2, 3, None, None, FIRST), LOCAL, 4);
    assert!(check_nak(&sent(&step).unwrap().0).is_ok());
    assert_eq!(
        sorted_leases(&s),
        vec![("04:67:61:9A:3A:3C".to_string(), FIRST, 2 + 172_800)]
    );
}
