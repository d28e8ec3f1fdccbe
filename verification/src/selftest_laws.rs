//! The self test passes on the servers of this library.

use vstd::prelude::*;

use crate::bytes;
use crate::config::{LEASE_SECONDS, POOL_SIZE, POOL_START_VALUE, STATIC_IP_VALUE};
use crate::dhcp;
use crate::dhcp::{EffectV, QueryV, ServerV};
use crate::dhcp_wire;
use crate::dhcp_wire::{
    Reply, MAGIC_COOKIE, MSG_ACK, MSG_DISCOVER, MSG_NAK, MSG_OFFER, MSG_RELEASE, MSG_REQUEST, OPT_END,
    OPT_MESSAGE_TYPE, OPT_REQUESTED_IP, OPT_ROUTER, OPT_SERVER_ID, OPT_SUBNET_MASK,
};
use crate::lease_table::Lease;
use crate::net;
use crate::selftest;
use crate::selftest::{ClientReplyV, DhcpMoveV, DhcpPhase, DownloadV};
use crate::tftp;
use crate::tftp::{SendPhase, SenderV};
use crate::tftp_laws;
use crate::tftp_wire;

verus! {

// ---------------------------------------------------------------- DHCP

/// What the server reads from a client message.
pub open spec fn client_query(xid: u32, mac: Seq<u8>, ciaddr: u32, src_ip: u32) -> QueryV {
    QueryV {
        xid,
        flags: 0,
        ciaddr,
        giaddr: 0,
        chaddr: mac + bytes::zeros(10),
        mac: net::mac_text(mac),
        src_ip,
    }
}

/// A client message passes the header checks and is read as it was written.
pub proof fn lemma_client_message(
    xid: u32,
    mac: Seq<u8>,
    msg_type: u8,
    requested: Option<u32>,
    server_id: Option<u32>,
    ciaddr: u32,
    src_ip: u32,
)
    requires
        mac.len() == 6,
    ensures
        ({
            let p = selftest::client_bytes(xid, mac, msg_type, requested, server_id, ciaddr);
            &&& dhcp::header_ok(p)
            &&& bytes::be32_at(p, 236) == MAGIC_COOKIE
            &&& dhcp::query_of(p, src_ip) == client_query(xid, mac, ciaddr, src_ip)
            &&& dhcp_wire::options_from(p, 240) == selftest::client_options(
                msg_type,
                requested,
                server_id,
            )
        }),
{
    let p = selftest::client_bytes(xid, mac, msg_type, requested, server_id, ciaddr);
    let head = selftest::client_head(xid, mac, ciaddr);
    let opts = selftest::client_options(msg_type, requested, server_id);
    assert(head.len() == 240);
    assert(p[0] == 1 && p[1] == 1 && p[2] == 6);
    assert(p.subrange(4, 8) =~= bytes::be32_bytes(xid));
    assert(p.subrange(12, 16) =~= bytes::be32_bytes(ciaddr));
    assert(p.subrange(236, 240) =~= bytes::be32_bytes(MAGIC_COOKIE));
    dhcp_wire::lemma_be32_in(p, 4, xid);
    dhcp_wire::lemma_be32_in(p, 12, ciaddr);
    dhcp_wire::lemma_be32_in(p, 236, MAGIC_COOKIE);
    assert(p[10] == 0 && p[11] == 0);
    assert(p[24] == 0 && p[25] == 0 && p[26] == 0 && p[27] == 0);
    assert(p.subrange(28, 44) =~= mac + bytes::zeros(10));
    assert(p.subrange(28, 34) =~= mac);
    assert(dhcp::query_of(p, src_ip) =~= client_query(xid, mac, ciaddr, src_ip));
    assert forall|k: int| 0 <= k < opts.len() implies dhcp_wire::writable(#[trigger] opts[k]) by {}
    dhcp_wire::lemma_options_round_trip(head, opts, Seq::<u8>::empty());
    assert(head + dhcp_wire::options_bytes(opts) + seq![OPT_END] + Seq::<u8>::empty() =~= p);
}

/// The server finds in the options of a client message what the client put there.
pub proof fn lemma_client_options(msg_type: u8, requested: Option<u32>, server_id: Option<u32>)
    ensures
        ({
            let opts = selftest::client_options(msg_type, requested, server_id);
            &&& dhcp_wire::message_type(opts) == Some(msg_type)
            &&& dhcp_wire::address_option(opts, OPT_REQUESTED_IP) == requested
            &&& dhcp_wire::address_option(opts, OPT_SERVER_ID) == server_id
        }),
{
    reveal_with_fuel(dhcp_wire::last_value, 4);
    let opts = selftest::client_options(msg_type, requested, server_id);
    if requested is Some {
        bytes::lemma_be32_round_trip(requested->0);
    }
    if server_id is Some {
        bytes::lemma_be32_round_trip(server_id->0);
    }
    let kind = seq![(OPT_MESSAGE_TYPE, seq![msg_type])];
    let none = kind.drop_last();
    assert(none.len() == 0);
    if requested is Some && server_id is Some {
        let two = kind.push((OPT_REQUESTED_IP, bytes::be32_bytes(requested->0)));
        assert(opts.drop_last() =~= two);
        assert(two.drop_last() =~= kind);
    } else if requested is Some || server_id is Some {
        assert(opts.drop_last() =~= kind);
    } else {
        assert(opts =~= kind);
    }
}

/// What a client reads from a reply that describes a lease.
proof fn lemma_reply_for_client(r: Reply, chaddr: Seq<u8>)
    requires
        chaddr.len() == 16,
        !r.is_inform,
    ensures
        ({
            let p = dhcp_wire::reply_bytes(r, chaddr);
            &&& p.len() > 240
            &&& bytes::be32_at(p, 16) == r.addr
            &&& selftest::reply_kind(p) == Some(r.msg_type)
            &&& selftest::reply_number(p, OPT_SERVER_ID) == Some(r.server_ip)
            &&& selftest::reply_number(p, OPT_SUBNET_MASK) == Some(0xFFFF_FF00u32)
            &&& selftest::reply_number(p, OPT_ROUTER) == Some(r.server_ip)
        }),
{
    let p = dhcp_wire::reply_bytes(r, chaddr);
    assert(p.len() > 240 && bytes::be32_at(p, 16) == r.addr) by {
        dhcp_wire::lemma_reply_round_trip(r, chaddr);
    }
    lemma_reply_option(r, chaddr, 0);
    lemma_reply_option(r, chaddr, 1);
    lemma_reply_option(r, chaddr, 5);
    lemma_reply_option(r, chaddr, 6);
    bytes::lemma_be32_round_trip(r.server_ip);
    bytes::lemma_be32_round_trip(0xFFFF_FF00);
}

proof fn lemma_reply_option(r: Reply, chaddr: Seq<u8>, k: int)
    requires
        chaddr.len() == 16,
        !r.is_inform,
        0 <= k < 8,
    ensures
        selftest::option_in(
            dhcp_wire::reply_bytes(r, chaddr),
            dhcp_wire::reply_options(r)[k].0,
        ) == Some(dhcp_wire::reply_options(r)[k].1),
{
    let o = dhcp_wire::reply_options(r);
    assert(dhcp_wire::options_from(dhcp_wire::reply_bytes(r, chaddr), 240) == o) by {
        dhcp_wire::lemma_reply_round_trip(r, chaddr);
    }
    lemma_first_value_at(o, o[k].0, k);
}

proof fn lemma_first_value_at(opts: Seq<(u8, Seq<u8>)>, code: u8, k: int)
    requires
        0 <= k < opts.len(),
        opts[k].0 == code,
        forall|j: int| 0 <= j < k ==> (#[trigger] opts[j]).0 != code,
    ensures
        dhcp_wire::first_value(opts, code) == Some(opts[k].1),
    decreases k,
{
    if k > 0 {
        let rest = opts.drop_first();
        assert forall|j: int| 0 <= j < k - 1 implies (#[trigger] rest[j]).0 != code by {
            assert(rest[j] == opts[j + 1]);
        }
        assert(opts[0].0 != code);
        lemma_first_value_at(rest, code, k - 1);
    }
}

/// The server acts on a client message as on its parts.
proof fn lemma_client_dispatch(
    st: ServerV,
    xid: u32,
    mac: Seq<u8>,
    msg_type: u8,
    requested: Option<u32>,
    server_id: Option<u32>,
    src_ip: u32,
    now: u64,
)
    requires
        mac.len() == 6,
    ensures
        dhcp::on_packet(
            st,
            selftest::client_bytes(xid, mac, msg_type, requested, server_id, 0),
            src_ip,
            now,
        ) == dhcp::dispatch(
            ServerV { last_activity: now, ..st },
            client_query(xid, mac, 0, src_ip),
            selftest::client_options(msg_type, requested, server_id),
            now,
        ),
{
    lemma_client_message(xid, mac, msg_type, requested, server_id, 0, src_ip);
}

/// The answer to a client that reached the server without a relay.
proof fn lemma_answer_passes(st: ServerV, q: QueryV, addr: u32, msg_type: u8)
    requires
        q.chaddr.len() == 16,
    ensures
        dhcp::answer(st, q, addr, msg_type, false) matches EffectV::Send(p, ip, port) && {
            &&& p.len() > 240
            &&& selftest::reply_kind(p) == Some(msg_type)
            &&& bytes::be32_at(p, 16) == addr
            &&& selftest::reply_number(p, OPT_SERVER_ID) == Some(st.server_ip)
            &&& selftest::reply_number(p, OPT_SUBNET_MASK) == Some(0xFFFF_FF00u32)
            &&& selftest::reply_number(p, OPT_ROUTER) == Some(st.server_ip)
        },
{
    let r = Reply {
        xid: q.xid,
        flags: q.flags,
        giaddr: q.giaddr,
        addr,
        msg_type,
        is_inform: false,
        server_ip: st.server_ip,
        lease_seconds: st.lease_seconds,
    };
    lemma_reply_for_client(r, q.chaddr);
}

/// The first client of a fresh server is offered the first address of the pool.
proof fn lemma_first_offer(st: ServerV, q: QueryV, now: u64)
    requires
        st == (ServerV { last_activity: st.last_activity, ..fresh_server() }),
    ensures
        dhcp::discover(st, q, now) == dhcp::offer(st, q, POOL_START_VALUE, now),
{
    assert(net::pool_address(st.pool_start, 0) == POOL_START_VALUE);
    assert(dhcp::free_for(st, q.mac, POOL_START_VALUE));
    assert(dhcp::first_free(st, q.mac, 0) == Some(0int));
}

/// A server as the program starts it, before the first packet and without probing.
pub open spec fn fresh_server() -> ServerV {
    ServerV {
        server_ip: STATIC_IP_VALUE,
        pool_start: POOL_START_VALUE,
        pool_size: POOL_SIZE,
        lease_seconds: LEASE_SECONDS,
        probing: false,
        leases: Map::empty(),
        bad: Set::empty(),
        last_activity: 0,
    }
}

/// The server after the DISCOVER of a first client.
pub open spec fn after_discover(xid: u32, mac: Seq<u8>, src_ip: u32, now: u64) -> dhcp::StepV {
    dhcp::on_packet(
        fresh_server(),
        selftest::client_bytes(xid, mac, MSG_DISCOVER, None, None, 0),
        src_ip,
        now,
    )
}

/// The server after the REQUEST of that client for the address that it was offered.
pub open spec fn after_request(
    xid: u32,
    mac: Seq<u8>,
    src_ip: u32,
    now: u64,
    later: u64,
) -> dhcp::StepV {
    dhcp::on_packet(
        after_discover(xid, mac, src_ip, now).state,
        selftest::client_bytes(
            xid,
            mac,
            MSG_REQUEST,
            Some(POOL_START_VALUE),
            Some(STATIC_IP_VALUE),
            0,
        ),
        src_ip,
        later,
    )
}

/// A DISCOVER of any client is answered with an offer that passes the check; it offers the first
/// address of the pool.
#[verifier::rlimit(50)]
#[verifier::spinoff_prover]
pub proof fn lemma_offer_passes(xid: u32, mac: Seq<u8>, src_ip: u32, now: u64)
    requires
        mac.len() == 6,
    ensures
        ({
            let s = after_discover(xid, mac, src_ip, now);
            &&& s.pending is None
            &&& s.effects.len() == 4
            &&& s.effects.last() matches EffectV::Send(p, ip, port) && selftest::offer_verdict(p)
                == Ok::<u32, Seq<char>>(POOL_START_VALUE)
            &&& s.state.leases == Map::<Seq<char>, Lease>::empty().insert(
                net::mac_text(mac),
                dhcp::offered_lease(POOL_START_VALUE, now),
            )
        }),
{
    let st = ServerV { last_activity: now, ..fresh_server() };
    let q = client_query(xid, mac, 0, src_ip);
    let opts = selftest::client_options(MSG_DISCOVER, None, None);
    let s = after_discover(xid, mac, src_ip, now);
    assert(s == dhcp::dispatch(st, q, opts, now)) by {
        lemma_client_dispatch(
            fresh_server(),
            xid,
            mac,
            MSG_DISCOVER,
            None,
            None,
            src_ip,
            now,
        );
    }
    assert(dhcp_wire::message_type(opts) == Some(MSG_DISCOVER)) by {
        lemma_client_options(MSG_DISCOVER, None, None);
    }
    lemma_first_offer(st, q, now);
    let o = dhcp::offer(st, q, POOL_START_VALUE, now);
    assert(s.effects.last() == o.effects[2]);
    assert(q.chaddr.len() == 16);
    lemma_answer_passes(st, q, POOL_START_VALUE, MSG_OFFER);
}

/// The REQUEST for the offered address is answered with a confirmation that passes the check.
#[verifier::rlimit(50)]
#[verifier::spinoff_prover]
pub proof fn lemma_ack_passes(xid: u32, mac: Seq<u8>, src_ip: u32, now: u64, later: u64)
    requires
        mac.len() == 6,
    ensures
        ({
            let s = after_request(xid, mac, src_ip, now, later);
            &&& s.effects.len() == 4
            &&& s.effects.last() matches EffectV::Send(p, ip, port) && selftest::ack_verdict(
                p,
                POOL_START_VALUE,
            ) == Ok::<(), Seq<char>>(())
            &&& s.state.leases.dom() == Set::<Seq<char>>::empty().insert(net::mac_text(mac))
            &&& s.state.server_ip == STATIC_IP_VALUE
            &&& s.state.pool_start == POOL_START_VALUE
            &&& s.state.pool_size == POOL_SIZE
            &&& s.state.lease_seconds == LEASE_SECONDS
        }),
{
    let before = after_discover(xid, mac, src_ip, now).state;
    let st = ServerV { last_activity: later, ..before };
    let q = client_query(xid, mac, 0, src_ip);
    let opts = selftest::client_options(
        MSG_REQUEST,
        Some(POOL_START_VALUE),
        Some(STATIC_IP_VALUE),
    );
    assert(before.leases == Map::<Seq<char>, Lease>::empty().insert(
        net::mac_text(mac),
        dhcp::offered_lease(POOL_START_VALUE, now),
    )) by {
        lemma_offer_passes(xid, mac, src_ip, now);
    }
    lemma_settings_stay(fresh_server(), xid, mac, src_ip, now);
    let s = after_request(xid, mac, src_ip, now, later);
    assert(s == dhcp::dispatch(st, q, opts, later)) by {
        lemma_client_dispatch(
            before,
            xid,
            mac,
            MSG_REQUEST,
            Some(POOL_START_VALUE),
            Some(STATIC_IP_VALUE),
            src_ip,
            later,
        );
    }
    lemma_client_options(MSG_REQUEST, Some(POOL_START_VALUE), Some(STATIC_IP_VALUE));
    assert(st.leases.contains_key(q.mac) && st.leases[q.mac].ip == POOL_START_VALUE);
    let o = dhcp::confirm(st, q, POOL_START_VALUE, later);
    assert(dhcp::request(st, q, opts, later) == o);
    assert(s.effects.last() == o.effects[2]);
    assert(q.chaddr.len() == 16);
    lemma_answer_passes(st, q, POOL_START_VALUE, MSG_ACK);
    assert(s.state.leases.dom() =~= Set::<Seq<char>>::empty().insert(net::mac_text(mac)));
}

/// A DISCOVER leaves the settings of the server as they are.
proof fn lemma_settings_stay(st: ServerV, xid: u32, mac: Seq<u8>, src_ip: u32, now: u64)
    ensures
        ({
            let s = dhcp::on_packet(
                st,
                selftest::client_bytes(xid, mac, MSG_DISCOVER, None, None, 0),
                src_ip,
                now,
            ).state;
            &&& s.server_ip == st.server_ip
            &&& s.pool_start == st.pool_start
            &&& s.pool_size == st.pool_size
            &&& s.lease_seconds == st.lease_seconds
        }),
{
}

/// A request for an address outside the pool by a client without a lease is refused.
proof fn lemma_outside_is_refused(
    st: ServerV,
    q: QueryV,
    opts: Seq<(u8, Seq<u8>)>,
    outside: u32,
    now: u64,
)
    requires
        q.ciaddr == 0,
        q.chaddr.len() == 16,
        !st.leases.contains_key(q.mac),
        !net::pool_holds(outside, st.pool_start, st.pool_size),
        dhcp_wire::message_type(opts) == Some(MSG_REQUEST),
        dhcp_wire::address_option(opts, OPT_REQUESTED_IP) == Some(outside),
        dhcp_wire::address_option(opts, OPT_SERVER_ID) == Some(st.server_ip),
    ensures
        ({
            let s = dhcp::dispatch(st, q, opts, now);
            &&& s.state == st
            &&& s.effects.len() == 3
            &&& s.effects.last() == dhcp::answer(st, q, 0, MSG_NAK, false)
        }),
{
    assert(dhcp::request(st, q, opts, now) == dhcp::refuse(st, q));
}

/// The REQUEST of another client for an address outside the pool is refused, and the refusal passes the
/// check.
#[verifier::rlimit(50)]
#[verifier::spinoff_prover]
pub proof fn lemma_nak_passes(
    st: ServerV,
    xid: u32,
    mac: Seq<u8>,
    outside: u32,
    src_ip: u32,
    now: u64,
)
    requires
        mac.len() == 6,
        !st.leases.contains_key(net::mac_text(mac)),
        !net::pool_holds(outside, st.pool_start, st.pool_size),
    ensures
        ({
            let s = dhcp::on_packet(
                st,
                selftest::client_bytes(
                    xid,
                    mac,
                    MSG_REQUEST,
                    Some(outside),
                    Some(st.server_ip),
                    0,
                ),
                src_ip,
                now,
            );
            &&& s.state == (ServerV { last_activity: now, ..st })
            &&& s.effects.len() == 3
            &&& s.effects.last() matches EffectV::Send(p, ip, port) && selftest::nak_verdict(p)
                == Ok::<(), Seq<char>>(())
        }),
{
    let seen = ServerV { last_activity: now, ..st };
    let q = client_query(xid, mac, 0, src_ip);
    let opts = selftest::client_options(MSG_REQUEST, Some(outside), Some(st.server_ip));
    let s = dhcp::on_packet(
        st,
        selftest::client_bytes(xid, mac, MSG_REQUEST, Some(outside), Some(st.server_ip), 0),
        src_ip,
        now,
    );
    assert(s == dhcp::dispatch(seen, q, opts, now)) by {
        lemma_client_dispatch(
            st,
            xid,
            mac,
            MSG_REQUEST,
            Some(outside),
            Some(st.server_ip),
            src_ip,
            now,
        );
    }
    lemma_client_options(MSG_REQUEST, Some(outside), Some(st.server_ip));
    assert(q.chaddr.len() == 16);
    lemma_outside_is_refused(seen, q, opts, outside, now);
    lemma_answer_passes(seen, q, 0, MSG_NAK);
}

/// The datagram that a step of the server ends with.
pub open spec fn reply_of(s: dhcp::StepV) -> Seq<u8> {
    s.effects.last()->Send_0
}

/// The four messages of the DHCP test at a fresh server, at four times.
pub open spec fn dhcp_run(src_ip: u32, times: (u64, u64, u64, u64)) -> (
    dhcp::StepV,
    dhcp::StepV,
    dhcp::StepV,
    dhcp::StepV,
) {
    let offer = dhcp::on_packet(fresh_server(), selftest::test_discover(), src_ip, times.0);
    let ack = dhcp::on_packet(
        offer.state,
        selftest::test_request_for(POOL_START_VALUE),
        src_ip,
        times.1,
    );
    let nak = dhcp::on_packet(ack.state, selftest::test_request_outside(), src_ip, times.2);
    let end = dhcp::on_packet(
        nak.state,
        selftest::test_release(POOL_START_VALUE),
        src_ip,
        times.3,
    );
    (offer, ack, nak, end)
}

/// A RELEASE takes the lease of its client away.
proof fn lemma_release_frees(
    st: ServerV,
    xid: u32,
    mac: Seq<u8>,
    addr: u32,
    src_ip: u32,
    now: u64,
)
    requires
        mac.len() == 6,
    ensures
        dhcp::on_packet(
            st,
            selftest::client_bytes(xid, mac, MSG_RELEASE, None, None, addr),
            src_ip,
            now,
        ).state.leases == st.leases.remove(net::mac_text(mac)),
{
    lemma_client_message(xid, mac, MSG_RELEASE, None, None, addr, src_ip);
    lemma_client_options(MSG_RELEASE, None, None);
}

/// What the replies of the server say in the DHCP test.
proof fn lemma_dhcp_replies(src_ip: u32, times: (u64, u64, u64, u64))
    ensures
        ({
            let (offer, ack, nak, end) = dhcp_run(src_ip, times);
            &&& selftest::offer_verdict(reply_of(offer)) == Ok::<u32, Seq<char>>(POOL_START_VALUE)
            &&& selftest::ack_verdict(reply_of(ack), POOL_START_VALUE) == Ok::<(), Seq<char>>(())
            &&& ack.state.leases.dom() == Set::<Seq<char>>::empty().insert(
                net::mac_text(selftest::first_mac()),
            )
            &&& ack.state.server_ip == STATIC_IP_VALUE
            &&& ack.state.pool_start == POOL_START_VALUE
            &&& ack.state.pool_size == POOL_SIZE
        }),
{
    selftest::lemma_two_macs();
    lemma_offer_passes(0x1234_5678, selftest::first_mac(), src_ip, times.0);
    lemma_ack_passes(0x1234_5678, selftest::first_mac(), src_ip, times.0, times.1);
}

/// The two clients of the DHCP test are told apart.
proof fn lemma_two_clients()
    ensures
        net::mac_text(selftest::first_mac()) != net::mac_text(selftest::second_mac()),
{
    let (one, two) = (selftest::first_mac(), selftest::second_mac());
    selftest::lemma_two_macs();
    if net::mac_text(one) == net::mac_text(two) {
        net::lemma_mac_text_injective(one, two);
    }
}

/// The second client of the DHCP test is refused.
proof fn lemma_test_refused(st: ServerV, src_ip: u32, now: u64)
    requires
        !st.leases.contains_key(net::mac_text(selftest::second_mac())),
        st.server_ip == STATIC_IP_VALUE,
        st.pool_start == POOL_START_VALUE,
        st.pool_size == POOL_SIZE,
    ensures
        ({
            let nak = dhcp::on_packet(st, selftest::test_request_outside(), src_ip, now);
            &&& selftest::nak_verdict(reply_of(nak)) == Ok::<(), Seq<char>>(())
            &&& nak.state.leases == st.leases
        }),
{
    selftest::lemma_two_macs();
    lemma_nak_passes(st, 0xDEAD_BEEF, selftest::second_mac(), 0xC0A8_1FFA, src_ip, now);
}

/// The last two messages of the DHCP test at a server that has given the first client its lease.
proof fn lemma_dhcp_end(st: ServerV, src_ip: u32, third: u64, fourth: u64)
    requires
        st.leases.dom() == Set::<Seq<char>>::empty().insert(net::mac_text(selftest::first_mac())),
        st.server_ip == STATIC_IP_VALUE,
        st.pool_start == POOL_START_VALUE,
        st.pool_size == POOL_SIZE,
    ensures
        ({
            let nak = dhcp::on_packet(st, selftest::test_request_outside(), src_ip, third);
            let end = dhcp::on_packet(
                nak.state,
                selftest::test_release(POOL_START_VALUE),
                src_ip,
                fourth,
            );
            &&& selftest::nak_verdict(reply_of(nak)) == Ok::<(), Seq<char>>(())
            &&& end.state.leases == Map::<Seq<char>, Lease>::empty()
        }),
{
    selftest::lemma_two_macs();
    lemma_two_clients();
    lemma_test_refused(st, src_ip, third);
    let nak = dhcp::on_packet(st, selftest::test_request_outside(), src_ip, third);
    let one = net::mac_text(selftest::first_mac());
    assert(st.leases.remove(one) =~= Map::<Seq<char>, Lease>::empty());
    lemma_release_frees(
        nak.state,
        0x1234_5678,
        selftest::first_mac(),
        POOL_START_VALUE,
        src_ip,
        fourth,
    );
}

/// A fresh server passes the DHCP test, at whatever times its messages come, and holds no lease
/// afterwards.
#[verifier::rlimit(50)]
#[verifier::spinoff_prover]
pub proof fn lemma_dhcp_test_passes(src_ip: u32, times: (u64, u64, u64, u64))
    ensures
        ({
            let (offer, ack, nak, end) = dhcp_run(src_ip, times);
            &&& selftest::dhcp_test_step(DhcpPhase::Offer, reply_of(offer)) == (
                DhcpPhase::Ack(POOL_START_VALUE),
                DhcpMoveV::Send(selftest::test_request_for(POOL_START_VALUE)),
            )
            &&& selftest::dhcp_test_step(DhcpPhase::Ack(POOL_START_VALUE), reply_of(ack)) == (
                DhcpPhase::Nak(POOL_START_VALUE),
                DhcpMoveV::Send(selftest::test_request_outside()),
            )
            &&& selftest::dhcp_test_step(DhcpPhase::Nak(POOL_START_VALUE), reply_of(nak)).1
                == DhcpMoveV::Pass(selftest::test_release(POOL_START_VALUE))
            &&& end.state.leases == Map::<Seq<char>, Lease>::empty()
        }),
{
    let (offer, ack, nak, end) = dhcp_run(src_ip, times);
    lemma_dhcp_replies(src_ip, times);
    lemma_dhcp_end(ack.state, src_ip, times.2, times.3);
}

// ---------------------------------------------------------------- TFTP

/// The server and the client of the self test without losses between them, until the last block.
pub open spec fn download(s: SenderV, c: DownloadV, rest: Seq<u8>, nanos: u64) -> (
    SenderV,
    DownloadV,
)
    decreases rest.len(),
    when s.block_size > 0
{
    let data = tftp_laws::next_chunk(rest, s.block_size);
    let out = tftp::send_chunk(s, data);
    let (taken, reply) = selftest::client_packet(c, out.state.packet);
    let back = tftp::send_packet(out.state, reply->Acknowledge_0, nanos);
    if data.len() < s.block_size {
        (back.state, taken)
    } else {
        download(back.state, taken, rest.skip(s.block_size as int), nanos)
    }
}

/// A download in blocks of 512 bytes gives the client the rest of the file in one block more than fit
/// into it whole, and both ends finish.
pub proof fn lemma_download_delivers(s: SenderV, c: DownloadV, rest: Seq<u8>, nanos: u64)
    requires
        s.block_size == 512,
        s.phase == SendPhase::Reading,
        s.info.error is None,
        c.block == s.block % 0x1_0000,
        s.block + rest.len() / 512 < u32::MAX,
        s.sent + rest.len() <= u64::MAX,
    ensures
        ({
            let (a, b) = download(s, c, rest, nanos);
            &&& b.received == c.received + rest
            &&& b.packets == c.packets + rest.len() / 512 + 1
            &&& b.done
            &&& a.phase == SendPhase::Finished
            &&& a.info.done && a.info.error is None
            &&& a.info.bytes_sent == s.sent + rest.len()
        }),
    decreases rest.len(),
{
    let data = tftp_laws::next_chunk(rest, s.block_size);
    let out = tftp::send_chunk(s, data);
    let number = (s.block % 0x1_0000) as u16;
    tftp_wire::lemma_packets_read_back(number, data, 0, Seq::empty());
    let p = tftp_wire::data_bytes(s.block as int, data);
    assert(p == tftp_wire::data_bytes(number as int, data));
    assert(bytes::be16_at(p, 0) == tftp_wire::OP_DATA) by {
        assert(p[0] == 0 && p[1] == 3);
    }
    assert(bytes::be16_at(p, 2) == number) by {
        bytes::lemma_be16_round_trip(number);
        assert(p[2] == bytes::be16_bytes(number)[0] && p[3] == bytes::be16_bytes(number)[1]);
    }
    let (taken, reply) = selftest::client_packet(c, p);
    assert(reply == ClientReplyV::Acknowledge(tftp_wire::ack_bytes(number)));
    let back = tftp::send_packet(out.state, tftp_wire::ack_bytes(number), nanos);
    assert(back == tftp::send_acked(out.state, nanos));
    if data.len() < 512 {
        assert(data == rest);
    } else {
        let tail = rest.skip(512);
        lemma_download_delivers(back.state, taken, tail, nanos);
        assert(c.received + data + tail =~= c.received + rest);
    }
}

/// A download that the server has just begun passes the check of the self test, with one packet more
/// than whole blocks fit into the file.
pub proof fn lemma_download_passes(info: tftp::TransferV, retries: u32, file: Seq<u8>, nanos: u64)
    requires
        info.error is None,
        file.len() / 512 < usize::MAX,
        1 + file.len() / 512 < u32::MAX,
    ensures
        ({
            let s = tftp::send_start(info, 512, retries, None).state;
            let (a, b) = download(s, selftest::new_download(), file, nanos);
            selftest::download_verdict(b, file, Some((file.len() / 512 + 1) as usize)) == Ok::<
                (),
                Seq<char>,
            >(())
        }),
{
    let s = tftp::send_start(info, 512, retries, None).state;
    lemma_download_delivers(s, selftest::new_download(), file, nanos);
    assert(Seq::<u8>::empty() + file =~= file);
}

/// The refusal of a write request passes the check where no file was created.
pub proof fn lemma_refusal_passes(
    file_name: Seq<char>,
    is_file: bool,
    client: tftp::Peer,
)
    ensures
        tftp::admission(
            selftest::plain_request(tftp_wire::OP_WRITE, file_name),
            is_file,
            client,
        ) matches tftp::AdmissionV::Reject(p, level, line) && selftest::refusal_verdict(
            p,
            false,
            false,
        ) == Ok::<(), Seq<char>>(()),
{
    tftp_laws::lemma_writes_are_refused(
        selftest::plain_request(tftp_wire::OP_WRITE, file_name),
        is_file,
        client,
    );
}

// ---------------------------------------------------------------- what passes

/// The value of an option, as a number of its first four bytes.
pub open spec fn number_is(p: Seq<u8>, code: u8, n: int) -> bool {
    dhcp_wire::first_value(dhcp_wire::options_from(p, 240), code) matches Some(v) && v.len() >= 4
        && v[0] * 0x100_0000 + v[1] * 0x1_0000 + v[2] * 0x100 + v[3] == n
}

/// The message type of a reply.
pub open spec fn type_is(p: Seq<u8>, t: u8) -> bool {
    dhcp_wire::first_value(dhcp_wire::options_from(p, 240), 53) matches Some(v) && v.len() > 0 && v[0]
        == t
}

/// An offer passes exactly where it is an OFFER of an address from 192.168.31.100 to 192.168.31.199 by
/// 192.168.31.1, with the mask 255.255.255.0 and that server as router.
pub proof fn lemma_offer_check(p: Seq<u8>, addr: u32)
    ensures
        selftest::offer_verdict(p) == Ok::<u32, Seq<char>>(addr) <==> {
            &&& p.len() >= 240
            &&& bytes::be32_at(p, 16) == addr
            &&& 0xC0A8_1F64 <= addr <= 0xC0A8_1FC7
            &&& type_is(p, 2)
            &&& number_is(p, 54, 0xC0A8_1F01)
            &&& number_is(p, 1, 0xFFFF_FF00)
            &&& number_is(p, 3, 0xC0A8_1F01)
        },
{
    if p.len() >= 240 {
        bytes::lemma_four(p[16] as int, p[17] as int, p[18] as int, p[19] as int);
    }
    lemma_number_read(p, 54);
    lemma_number_read(p, 1);
    lemma_number_read(p, 3);
}

proof fn lemma_number_read(p: Seq<u8>, code: u8)
    ensures
        forall|n: u32| #[trigger] number_is(p, code, n as int) <==> selftest::reply_number(p, code)
            == Some(n),
{
    match dhcp_wire::first_value(dhcp_wire::options_from(p, 240), code) {
        Some(v) => {
            if v.len() >= 4 {
                bytes::lemma_four(v[0] as int, v[1] as int, v[2] as int, v[3] as int);
            }
        },
        None => {},
    }
}

/// A confirmation passes exactly where it is an ACK of the address; a refusal exactly where it is a NAK.
pub proof fn lemma_ack_and_nak_check(p: Seq<u8>, addr: u32)
    ensures
        selftest::ack_verdict(p, addr) is Ok <==> p.len() >= 240 && type_is(p, 5) && bytes::be32_at(
            p,
            16,
        ) == addr,
        selftest::nak_verdict(p) is Ok <==> p.len() >= 240 && type_is(p, 6),
{
}

/// The test of the DHCP server asks for an address, confirms it, asks for one outside of the pool for
/// another client and gives the first back; it goes on exactly where the reply passes, and fails at the
/// first that does not.
pub proof fn lemma_dhcp_test_goes_on(addr: u32, p: Seq<u8>)
    ensures
        ({
            let s = selftest::dhcp_test_step(DhcpPhase::Offer, p);
            match selftest::offer_verdict(p) {
                Ok(a) => s.0 == DhcpPhase::Ack(a) && s.1 is Send,
                Err(e) => s.0 == DhcpPhase::Offer && s.1 == DhcpMoveV::Fail(e),
            }
        }),
        ({
            let s = selftest::dhcp_test_step(DhcpPhase::Ack(addr), p);
            match selftest::ack_verdict(p, addr) {
                Ok(_) => s.0 == DhcpPhase::Nak(addr) && s.1 is Send,
                Err(e) => s.1 == DhcpMoveV::Fail(e),
            }
        }),
        ({
            let s = selftest::dhcp_test_step(DhcpPhase::Nak(addr), p);
            match selftest::nak_verdict(p) {
                Ok(_) => s.1 is Pass,
                Err(e) => s.1 == DhcpMoveV::Fail(e),
            }
        }),
{
}

/// A download passes exactly where what came is what was expected, in as many packets as were expected
/// where their number was given.
pub proof fn lemma_download_check(c: DownloadV, expected: Seq<u8>, packets: Option<usize>)
    ensures
        selftest::download_verdict(c, expected, packets) is Ok <==> c.received == expected && (
        packets matches Some(n) ==> c.packets == n),
{
}

/// An upload passes the test exactly where it was refused with an access violation and no file was
/// created, neither at once nor later.
pub proof fn lemma_refusal_check(p: Seq<u8>, created: bool, created_later: bool)
    ensures
        selftest::refusal_verdict(p, created, created_later) is Ok <==> p.len() >= 4 && p[0] == 0
            && p[1] == 5 && p[2] == 0 && p[3] == 2 && !created && !created_later,
{
}

/// The client of the test takes a DATA packet with the number that comes next: it keeps what the packet
/// carries, acknowledges it and counts it; a packet of less than 512 bytes of data is the last.
pub proof fn lemma_client_takes(c: DownloadV, p: Seq<u8>)
    requires
        p.len() >= 4 && p[0] == 0 && p[1] == 3 && p[2] * 0x100 + p[3] == c.block,
    ensures
        ({
            let (d, r) = selftest::client_packet(c, p);
            &&& d.received == c.received + p.skip(4)
            &&& d.block == (c.block + 1) % 0x1_0000
            &&& d.packets == c.packets + 1
            &&& d.done == (p.len() < 516)
            &&& r == ClientReplyV::Acknowledge(tftp_wire::ack_bytes(c.block))
        }),
{
}

/// An ERROR packet and a DATA packet with another number end the download; any other packet is ignored.
pub proof fn lemma_client_refuses(c: DownloadV, p: Seq<u8>)
    requires
        p.len() >= 4,
    ensures
        ({
            let (d, r) = selftest::client_packet(c, p);
            &&& p[0] == 0 && p[1] == 5 ==> r is Fail
            &&& p[0] == 0 && p[1] == 3 && p[2] * 0x100 + p[3] != c.block ==> r is Fail
            &&& p[0] != 0 || (p[1] != 3 && p[1] != 5) ==> r is Ignore
            &&& !(r is Acknowledge) ==> d.received == c.received && d.block == c.block && d.packets
                == c.packets && d.done == c.done
        }),
        selftest::client_first(c, p).1 is Ok <==> p[0] == 0 && p[1] == 6,
{
}

/// The bytes of a test file are the high bytes of a linear congruential sequence that begins behind the
/// seed.
pub proof fn lemma_test_data(len: nat, seed: u32, i: int)
    requires
        0 <= i < len,
    ensures
        selftest::test_data(len, seed).len() == len,
        selftest::test_data(len, seed)[i] == selftest::generator(seed, (i + 1) as nat) / 0x100_0000,
        selftest::generator(seed, 0) == (seed * 1664525 + 1013904223) % 0x1_0000_0000,
        selftest::generator(seed, (i + 1) as nat) == (selftest::generator(seed, i as nat) * 1664525
            + 1013904223) % 0x1_0000_0000,
{
}

/// The self test ends with code 0 exactly where nothing failed.
pub proof fn lemma_exit_code(fails: u32)
    ensures
        selftest::summed(fails).1 == (if fails == 0 {
            0i32
        } else {
            1
        }),
{
}

/// The list of the test passes exactly where it has three records, the second an address with one scheme
/// only, the first of 16354096 bytes and with the name of its file.
pub proof fn lemma_list_check(list: Seq<crate::rom::RomV>)
    ensures
        selftest::list_verdict(list) is Ok <==> {
            &&& list.len() == 3
            &&& crate::rom::begins(list[1].url, "http://bigota.miwifi.com"@)
            &&& !crate::text::contains_text(crate::text::lower_all(list[1].url), "http://http://"@)
            &&& list[0].size == 16354096
            &&& selftest::ends(
                crate::text::lower_all(list[0].url),
                "miwifi_r4_firmware_f1bbb_2.26.145.bin"@,
            )
        },
{
}

/// The client of the test asks for the file as it is named, in blocks of 512 bytes and with a timeout of
/// five seconds.
pub proof fn lemma_test_request(name: Seq<char>)
    requires
        tftp_laws::fits_field(name),
    ensures
        ({
            let r = tftp_wire::request_of(
                tftp_wire::request_bytes(selftest::test_request(name)),
                1,
            );
            &&& r.file_name == name
            &&& r.options == seq![("blksize"@, "512"@), ("timeout"@, "5"@)]
        }),
{
    reveal_strlit("octet");
    reveal_strlit("blksize");
    reveal_strlit("512");
    reveal_strlit("timeout");
    reveal_strlit("5");
    tftp_laws::lemma_request_round_trip(selftest::test_request(name));
}

/// A download begins with nothing received and waits for block 1, and what it has read of no packet is
/// zero.
pub proof fn lemma_new_download(i: int)
    ensures
        ({
            let c = selftest::new_download();
            &&& c.received.len() == 0 && c.packets == 0 && !c.done
            &&& c.block == 1
            &&& c.head.len() == 4
            &&& 0 <= i < 4 ==> c.head[i] == 0
        }),
{
}

/// A packet overwrites what was read before, as far as it goes.
pub proof fn lemma_head_after(head: Seq<u8>, p: Seq<u8>, i: int)
    requires
        head.len() == 4,
        0 <= i < 4,
    ensures
        selftest::head_after(head, p).len() == 4,
        i < p.len() ==> selftest::head_after(head, p)[i] == p[i],
        i >= p.len() ==> selftest::head_after(head, p)[i] == head[i],
{
}

/// A reply that is too short for a header counts as none.
pub proof fn lemma_short_reply(p: Seq<u8>, addr: u32)
    ensures
        selftest::ack_verdict(p, addr) == Err::<(), Seq<char>>("no ACK"@) <==> p.len() < 240,
        selftest::nak_verdict(p) == Err::<(), Seq<char>>("no NAK"@) <==> p.len() < 240,
{
    reveal_strlit("no ACK");
    reveal_strlit("option 53 != ACK");
    reveal_strlit("ACK yiaddr differs");
    reveal_strlit("no NAK");
    reveal_strlit("option 53 != NAK");
    assert("no ACK"@.len() == 6 && "option 53 != ACK"@.len() == 16);
    assert("ACK yiaddr differs"@.len() == 18);
    assert("no NAK"@.len() == 6 && "option 53 != NAK"@.len() == 16);
}

/// A client message is a request of Ethernet with a hardware address of six bytes that no relay has passed
/// on; what it does not fill is zero.
pub proof fn lemma_client_header(xid: u32, mac: Seq<u8>, ciaddr: u32, i: int)
    requires
        mac.len() == 6,
    ensures
        ({
            let p = selftest::client_head(xid, mac, ciaddr);
            &&& p.len() == 240
            &&& p[0] == 1 && p[1] == 1 && p[2] == 6 && p[3] == 0
            &&& 8 <= i < 12 || 16 <= i < 28 || 34 <= i < 236 ==> p[i] == 0
            &&& 28 <= i < 34 ==> p[i] == mac[i - 28]
        }),
{
}

} // verus!
