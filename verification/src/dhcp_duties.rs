//! What the DHCP server owes its clients, in terms of the packets that come in and go out.

use vstd::prelude::*;

use crate::bytes;
use crate::dhcp;
use crate::dhcp::{EffectV, PendingV, ServerV, StepV};
use crate::dhcp_wire;
use crate::dhcp_wire::Reply;
use crate::lease_table;
use crate::lease_table::Lease;
use crate::net;
use crate::text;
use crate::text_laws;

verus! {

// ---------------------------------------------------------------- reading options

/// Reading goes on one byte further at a padding byte and two bytes and a value further at an option; it
/// ends at the end mark, at the end of the packet and at an option that does not fit into it.
pub proof fn lemma_options_read(p: Seq<u8>, i: int)
    requires
        0 <= i,
    ensures
        i >= p.len() ==> dhcp_wire::options_from(p, i) == Seq::<(u8, Seq<u8>)>::empty(),
        i < p.len() && p[i] == 255 ==> dhcp_wire::options_from(p, i) == Seq::<
            (u8, Seq<u8>),
        >::empty(),
        i < p.len() && p[i] == 0 ==> dhcp_wire::options_from(p, i) == dhcp_wire::options_from(
            p,
            i + 1,
        ),
        i < p.len() && p[i] != 255 && p[i] != 0 ==> dhcp_wire::options_from(p, i) == if i + 1
            < p.len() && i + 2 + p[i + 1] <= p.len() {
            seq![(p[i], p.subrange(i + 2, i + 2 + p[i + 1]))] + dhcp_wire::options_from(
                p,
                i + 2 + p[i + 1],
            )
        } else {
            Seq::empty()
        },
{
}

/// Of several options with one code the last counts, and where no option has the code there is no value.
pub proof fn lemma_last_counts(opts: Seq<(u8, Seq<u8>)>, code: u8, k: int)
    requires
        -1 <= k,
        forall|j: int| k < j < opts.len() ==> (#[trigger] opts[j]).0 != code,
    ensures
        0 <= k < opts.len() && opts[k].0 == code ==> dhcp_wire::last_value(opts, code) == Some(
            opts[k].1,
        ),
        k < 0 ==> dhcp_wire::last_value(opts, code) is None,
    decreases opts.len(),
{
    if opts.len() > 0 && k < opts.len() - 1 {
        let init = opts.drop_last();
        assert(opts[opts.len() - 1].0 != code);
        assert forall|j: int| k < j < init.len() implies (#[trigger] init[j]).0 != code by {
            assert(init[j] == opts[j]);
        }
        lemma_last_counts(init, code, k);
    }
}

/// Of several options with one code a client of the self-test takes the first, and where no option has
/// the code there is no value.
pub proof fn lemma_first_counts(opts: Seq<(u8, Seq<u8>)>, code: u8, k: int)
    requires
        0 <= k <= opts.len(),
        forall|j: int| 0 <= j < k ==> (#[trigger] opts[j]).0 != code,
    ensures
        k < opts.len() && opts[k].0 == code ==> dhcp_wire::first_value(opts, code) == Some(
            opts[k].1,
        ),
        k == opts.len() ==> dhcp_wire::first_value(opts, code) is None,
    decreases k,
{
    if k > 0 {
        let tail = opts.drop_first();
        assert(opts[0].0 != code);
        assert forall|j: int| 0 <= j < k - 1 implies (#[trigger] tail[j]).0 != code by {
            assert(tail[j] == opts[j + 1]);
        }
        lemma_first_counts(tail, code, k - 1);
        assert(k < opts.len() ==> tail[k - 1] == opts[k]);
    }
}

/// An option gives an address where its value has four bytes, and then the one whose bytes they are,
/// high byte first; the message type is the first byte of its option.
pub proof fn lemma_option_values(opts: Seq<(u8, Seq<u8>)>, code: u8)
    ensures
        dhcp_wire::address_option(opts, code) matches Some(ip) <==> (dhcp_wire::last_value(
            opts,
            code,
        ) matches Some(v) && v.len() == 4),
        dhcp_wire::address_option(opts, code) matches Some(ip) ==> ({
            let v = dhcp_wire::last_value(opts, code)->0;
            ip == v[0] * 0x100_0000 + v[1] * 0x1_0000 + v[2] * 0x100 + v[3]
        }),
        dhcp_wire::message_type(opts) matches Some(t) <==> (dhcp_wire::last_value(
            opts,
            53,
        ) matches Some(v) && v.len() > 0),
        dhcp_wire::message_type(opts) matches Some(t) ==> t == dhcp_wire::last_value(opts, 53)->0[0],
{
}

// ---------------------------------------------------------------- packets of clients

/// A packet that the server takes for one of a client: an Ethernet request of 240 bytes at least, with a
/// hardware address of 6 to 16 bytes and the DHCP cookie behind the fixed part.
pub open spec fn of_client(p: Seq<u8>) -> bool {
    &&& p.len() >= 240
    &&& p[0] == 1
    &&& p[1] == 1
    &&& 6 <= p[2] <= 16
    &&& p[236] == 0x63 && p[237] == 0x82 && p[238] == 0x53 && p[239] == 0x63
}

/// The message type of a packet.
pub open spec fn kind(p: Seq<u8>) -> Option<u8> {
    dhcp_wire::message_type(dhcp_wire::options_from(p, 240))
}

/// The hardware address of the client, as text.
pub open spec fn client(p: Seq<u8>) -> Seq<char> {
    net::mac_text(p.subrange(28, 28 + p[2]))
}

/// The address that the client says it has.
pub open spec fn has(p: Seq<u8>) -> int {
    p[12] * 0x100_0000 + p[13] * 0x1_0000 + p[14] * 0x100 + p[15]
}

/// The address that the client asks for.
pub open spec fn asks(p: Seq<u8>) -> Option<u32> {
    dhcp_wire::address_option(dhcp_wire::options_from(p, 240), 50)
}

/// The packet names this server, or none.
pub open spec fn addressed(st: ServerV, p: Seq<u8>) -> bool {
    let named = dhcp_wire::address_option(dhcp_wire::options_from(p, 240), 54);
    named is None || named == Some(st.server_ip)
}

/// What the server reads from the fixed part of a packet.
proof fn lemma_read(p: Seq<u8>, src_ip: u32)
    requires
        of_client(p),
    ensures
        dhcp::valid(p),
        0 <= has(p) <= u32::MAX,
        dhcp::query_of(p, src_ip).ciaddr == has(p),
        dhcp::query_of(p, src_ip).mac == client(p),
        dhcp::query_of(p, src_ip).chaddr == p.subrange(28, 44),
{
    bytes::lemma_four(p[12] as int, p[13] as int, p[14] as int, p[15] as int);
}

// ---------------------------------------------------------------- replies

/// The value of an option of a reply, as a number.
pub open spec fn number_in(p: Seq<u8>, code: u8) -> Option<int> {
    match dhcp_wire::last_value(dhcp_wire::options_from(p, 240), code) {
        Some(v) => if v.len() == 4 {
            Some(v[0] * 0x100_0000 + v[1] * 0x1_0000 + v[2] * 0x100 + v[3])
        } else {
            None
        },
        None => None,
    }
}

/// The datagram `e` answers the request `p` from `src_ip`: it has the message type `t`, hands out `addr`,
/// carries transaction, flags, relay and hardware address of the request, and goes to the relay, to
/// everyone, or back to the client.
#[verifier::opaque]
pub open spec fn answers(
    e: EffectV,
    server_ip: u32,
    p: Seq<u8>,
    src_ip: u32,
    t: u8,
    addr: u32,
) -> bool {
    e matches EffectV::Send(r, ip, port) && {
        let relay = p[24] * 0x100_0000 + p[25] * 0x1_0000 + p[26] * 0x100 + p[27];
        &&& r.len() > 240
        &&& r[0] == 2 && r[1] == 1 && r[2] == 6
        &&& r.subrange(4, 8) == p.subrange(4, 8)
        &&& r.subrange(10, 12) == p.subrange(10, 12)
        &&& bytes::be32_at(r, 16) == addr
        &&& bytes::be32_at(r, 20) == server_ip
        &&& r.subrange(24, 28) == p.subrange(24, 28)
        &&& r.subrange(28, 44) == p.subrange(28, 44)
        &&& r.subrange(236, 240) == p.subrange(236, 240)
        &&& kind(r) == Some(t)
        &&& number_in(r, 54) == Some(server_ip as int)
        &&& if relay != 0 {
            ip == relay && port == 67
        } else if p[10] >= 0x80 || src_ip == 0 {
            ip == 0xFFFF_FFFF && port == 68
        } else {
            ip == src_ip && port == 68
        }
    }
}

/// The reply describes the network and the lease: mask 255.255.255.0, the server as router and name
/// server, the time of the lease, half of it to the renewal and seven eighths to the rebinding.
#[verifier::opaque]
pub open spec fn describes(e: EffectV, server_ip: u32, lease_seconds: u32) -> bool {
    e matches EffectV::Send(r, _, _) && {
        &&& number_in(r, 1) == Some(0xFFFF_FF00int)
        &&& number_in(r, 3) == Some(server_ip as int)
        &&& number_in(r, 6) == Some(server_ip as int)
        &&& number_in(r, 51) == Some(lease_seconds as int)
        &&& number_in(r, 58) == Some(lease_seconds as int / 2)
        &&& number_in(r, 59) == Some(lease_seconds * 7 / 8)
    }
}

/// The only datagram of a step is its last effect, and it answers the request.
pub open spec fn only_answer(
    s: StepV,
    st: ServerV,
    p: Seq<u8>,
    src_ip: u32,
    t: u8,
    addr: u32,
) -> bool {
    &&& s.effects.len() > 0
    &&& answers(s.effects.last(), st.server_ip, p, src_ip, t, addr)
    &&& forall|k: int| 0 <= k < s.effects.len() - 1 ==> !((#[trigger] s.effects[k]) is Send)
}

/// The step tells the outside that `mac` has `ip`, and nothing else of the kind.
pub open spec fn announces_only(s: StepV, mac: Seq<char>, ip: u32) -> bool {
    &&& s.effects.contains(EffectV::LeaseChanged(mac, ip))
    &&& forall|k: int|
        0 <= k < s.effects.len() ==> ((#[trigger] s.effects[k]) is LeaseChanged ==> s.effects[k]
            == EffectV::LeaseChanged(mac, ip))
}

/// No datagram goes out and no lease is announced.
pub open spec fn silent(s: StepV) -> bool {
    forall|k: int| 0 <= k < s.effects.len() ==> (#[trigger] s.effects[k]) is Log
}

proof fn lemma_number_bytes(v: u32)
    ensures
        ({
            let b = bytes::be32_bytes(v);
            b[0] * 0x100_0000 + b[1] * 0x1_0000 + b[2] * 0x100 + b[3] == v
        }),
        bytes::be32_bytes(v).len() == 4,
{
    bytes::lemma_be32_round_trip(v);
}

proof fn lemma_seven_eighths(v: u32)
    by (nonlinear_arith)
    ensures
        v * 875 / 1000 == v * 7 / 8,
{
}

/// The value of an option of a list, as a number.
spec fn number_of(opts: Seq<(u8, Seq<u8>)>, code: u8) -> Option<int> {
    match dhcp_wire::last_value(opts, code) {
        Some(v) => if v.len() == 4 {
            Some(v[0] * 0x100_0000 + v[1] * 0x1_0000 + v[2] * 0x100 + v[3])
        } else {
            None
        },
        None => None,
    }
}

proof fn lemma_number_option(opts: Seq<(u8, Seq<u8>)>, code: u8, k: int, v: u32)
    requires
        0 <= k < opts.len(),
        opts[k] == (code, bytes::be32_bytes(v)),
        forall|j: int| k < j < opts.len() ==> (#[trigger] opts[j]).0 != code,
    ensures
        number_of(opts, code) == Some(v as int),
{
    lemma_last_counts(opts, code, k);
    lemma_number_bytes(v);
}

#[verifier::rlimit(40)]
proof fn lemma_reply_numbers(r: Reply)
    ensures
        ({
            let opts = dhcp_wire::reply_options(r);
            &&& dhcp_wire::message_type(opts) == Some(r.msg_type)
            &&& number_of(opts, 54) == Some(r.server_ip as int)
            &&& r.is_inform ==> opts.len() == 2
            &&& !r.is_inform ==> {
                &&& number_of(opts, 1) == Some(0xFFFF_FF00int)
                &&& number_of(opts, 3) == Some(r.server_ip as int)
                &&& number_of(opts, 6) == Some(r.server_ip as int)
                &&& number_of(opts, 51) == Some(r.lease_seconds as int)
                &&& number_of(opts, 58) == Some(r.lease_seconds as int / 2)
                &&& number_of(opts, 59) == Some(r.lease_seconds * 7 / 8)
            }
        }),
{
    let opts = dhcp_wire::reply_options(r);
    lemma_seven_eighths(r.lease_seconds);
    lemma_last_counts(opts, 53, 0);
    lemma_number_option(opts, 54, 1, r.server_ip);
    if !r.is_inform {
        assert(opts[2] == (51u8, bytes::be32_bytes(r.lease_seconds)));
        assert(opts[3] == (58u8, bytes::be32_bytes(r.lease_seconds / 2)));
        assert(opts[4] == (59u8, bytes::be32_bytes((r.lease_seconds * 875 / 1000) as u32)));
        assert(opts[5] == (1u8, bytes::be32_bytes(0xFFFF_FF00u32)));
        assert(opts[6] == (3u8, bytes::be32_bytes(r.server_ip)));
        assert(opts[7] == (6u8, bytes::be32_bytes(r.server_ip)));
        lemma_number_option(opts, 51, 2, r.lease_seconds);
        lemma_number_option(opts, 58, 3, r.lease_seconds / 2);
        lemma_number_option(opts, 59, 4, (r.lease_seconds * 875 / 1000) as u32);
        lemma_number_option(opts, 1, 5, 0xFFFF_FF00u32);
        lemma_number_option(opts, 3, 6, r.server_ip);
        lemma_number_option(opts, 6, 7, r.server_ip);
    }
}

/// The answer that the server writes for a request is one in the sense above.
#[verifier::rlimit(40)]
proof fn lemma_answer(st: ServerV, p: Seq<u8>, src_ip: u32, addr: u32, t: u8, is_inform: bool)
    requires
        of_client(p),
    ensures
        ({
            let e = dhcp::answer(st, dhcp::query_of(p, src_ip), addr, t, is_inform);
            &&& e is Send
            &&& answers(
                e,
                st.server_ip,
                p,
                src_ip,
                t,
                if is_inform {
                    0
                } else {
                    addr
                },
            )
            &&& !is_inform ==> describes(e, st.server_ip, st.lease_seconds)
            &&& is_inform ==> dhcp_wire::options_from(e->Send_0, 240).len() == 2
        }),
{
    reveal(answers);
    reveal(describes);
    let q = dhcp::query_of(p, src_ip);
    let r = Reply {
        xid: q.xid,
        flags: q.flags,
        giaddr: q.giaddr,
        addr,
        msg_type: t,
        is_inform,
        server_ip: st.server_ip,
        lease_seconds: st.lease_seconds,
    };
    let b = dhcp_wire::reply_bytes(r, q.chaddr);
    lemma_read(p, src_ip);
    assert(q.chaddr.len() == 16);
    dhcp_wire::lemma_reply_round_trip(r, q.chaddr);
    lemma_reply_numbers(r);
    lemma_header(b, p, q.xid, q.flags, q.giaddr);
    assert(b.subrange(28, 44) == p.subrange(28, 44));
}

proof fn lemma_header(b: Seq<u8>, p: Seq<u8>, xid: u32, flags: u16, giaddr: u32)
    requires
        of_client(p),
        b.len() > 240,
        bytes::be32_at(b, 4) == xid,
        bytes::be16_at(b, 10) == flags,
        bytes::be32_at(b, 24) == giaddr,
        bytes::be32_at(b, 236) == 0x6382_5363,
        xid == bytes::be32_at(p, 4) as u32,
        flags == bytes::be16_at(p, 10) as u16,
        giaddr == bytes::be32_at(p, 24) as u32,
    ensures
        b.subrange(4, 8) == p.subrange(4, 8),
        b.subrange(10, 12) == p.subrange(10, 12),
        b.subrange(24, 28) == p.subrange(24, 28),
        b.subrange(236, 240) == p.subrange(236, 240),
        giaddr == p[24] * 0x100_0000 + p[25] * 0x1_0000 + p[26] * 0x100 + p[27],
        flags >= 0x8000 <==> p[10] >= 0x80,
{
    bytes::lemma_four(p[24] as int, p[25] as int, p[26] as int, p[27] as int);
    bytes::lemma_four(p[4] as int, p[5] as int, p[6] as int, p[7] as int);
    lemma_same_four(b, p, 4);
    lemma_same_four(b, p, 24);
    lemma_same_four(b, p, 236);
    bytes::lemma_two_octets(b[10] as int, b[11] as int);
    bytes::lemma_two_octets(p[10] as int, p[11] as int);
    assert(b.subrange(10, 12) =~= p.subrange(10, 12));
}

proof fn lemma_same_four(a: Seq<u8>, b: Seq<u8>, o: int)
    requires
        0 <= o,
        o + 4 <= a.len(),
        o + 4 <= b.len(),
        bytes::be32_at(a, o) == bytes::be32_at(b, o),
    ensures
        a.subrange(o, o + 4) == b.subrange(o, o + 4),
{
    bytes::lemma_four(a[o] as int, a[o + 1] as int, a[o + 2] as int, a[o + 3] as int);
    bytes::lemma_four(b[o] as int, b[o + 1] as int, b[o + 2] as int, b[o + 3] as int);
    assert(a.subrange(o, o + 4) =~= b.subrange(o, o + 4));
}

// ---------------------------------------------------------------- REQUEST

/// `ip` is an address of the pool that nobody has declined.
pub open spec fn in_service(st: ServerV, ip: u32) -> bool {
    st.pool_start <= ip < st.pool_start + st.pool_size && !st.bad.contains(ip)
}

/// Some hardware address has a lease on `ip`.
pub open spec fn leased(st: ServerV, ip: u32) -> bool {
    exists|m: Seq<char>| #[trigger] st.leases.contains_key(m) && st.leases[m].ip == ip
}

/// The client of `p` has a lease on `ip`.
pub open spec fn leased_to(st: ServerV, p: Seq<u8>, ip: u32) -> bool {
    st.leases.contains_key(client(p)) && st.leases[client(p)].ip == ip
}

/// The client of `p` is given `ip` for the full time: it is told so, the outside is told so, and nothing
/// but its lease and the time of the last packet changes.
pub open spec fn grants(s: StepV, st: ServerV, p: Seq<u8>, src_ip: u32, now: u64, ip: u32) -> bool {
    &&& only_answer(s, st, p, src_ip, 5, ip)
    &&& describes(s.effects.last(), st.server_ip, st.lease_seconds)
    &&& announces_only(s, client(p), ip)
    &&& s.pending is None
    &&& s.state == ServerV {
        last_activity: now,
        leases: st.leases.insert(
            client(p),
            Lease { ip, expires_unix: (now + st.lease_seconds) as u64, acked: true },
        ),
        ..st
    }
}

/// The client of `p` is refused: it is told so, and no lease changes.
pub open spec fn refuses(s: StepV, st: ServerV, p: Seq<u8>, src_ip: u32, now: u64) -> bool {
    &&& only_answer(s, st, p, src_ip, 6, 0)
    &&& forall|k: int| 0 <= k < s.effects.len() ==> !((#[trigger] s.effects[k]) is LeaseChanged)
    &&& s.pending is None
    &&& s.state == ServerV { last_activity: now, ..st }
}

#[verifier::rlimit(40)]
proof fn lemma_confirm_grants(st: ServerV, p: Seq<u8>, src_ip: u32, now: u64, ip: u32, line: EffectV)
    requires
        of_client(p),
        line is Log,
    ensures
        ({
            let seen = ServerV { last_activity: now, ..st };
            grants(
                dhcp::after(line, dhcp::confirm(seen, dhcp::query_of(p, src_ip), ip, now)),
                st,
                p,
                src_ip,
                now,
                ip,
            )
        }),
{
    let seen = ServerV { last_activity: now, ..st };
    let s = dhcp::after(line, dhcp::confirm(seen, dhcp::query_of(p, src_ip), ip, now));
    lemma_answer(seen, p, src_ip, ip, 5, false);
    assert(s.effects.len() == 4);
    assert(s.effects[0] is Log && s.effects[1] is Log && s.effects[3] is Send);
    assert(s.effects[2] == EffectV::LeaseChanged(client(p), ip));
}

#[verifier::rlimit(40)]
proof fn lemma_refuse_refuses(st: ServerV, p: Seq<u8>, src_ip: u32, now: u64, line: EffectV)
    requires
        of_client(p),
        line is Log,
    ensures
        ({
            let seen = ServerV { last_activity: now, ..st };
            refuses(
                dhcp::after(line, dhcp::refuse(seen, dhcp::query_of(p, src_ip))),
                st,
                p,
                src_ip,
                now,
            )
        }),
{
    let seen = ServerV { last_activity: now, ..st };
    let s = dhcp::after(line, dhcp::refuse(seen, dhcp::query_of(p, src_ip)));
    lemma_answer(seen, p, src_ip, 0, 6, false);
    assert(s.effects.len() == 3);
    assert(s.effects[0] is Log && s.effects[1] is Log && s.effects[2] is Send);
}

/// A client without an address that asks for one of the pool gets it where nobody has declined it and
/// nobody else holds it, whatever else the state is; probing plays no part in it.
#[verifier::rlimit(40)]
pub proof fn lemma_free_address_is_granted(
    st: ServerV,
    p: Seq<u8>,
    src_ip: u32,
    now: u64,
    ip: u32,
)
    requires
        of_client(p),
        kind(p) == Some(3u8),
        addressed(st, p),
        has(p) == 0,
        asks(p) == Some(ip),
        st.pool_start + st.pool_size <= u32::MAX,
        in_service(st, ip),
        !leased(st, ip) || leased_to(st, p, ip),
    ensures
        grants(dhcp::on_packet(st, p, src_ip, now), st, p, src_ip, now, ip),
{
    let q = dhcp::query_of(p, src_ip);
    let seen = ServerV { last_activity: now, ..st };
    let opts = dhcp_wire::options_from(p, 240);
    let line = dhcp::received("Rqst"@, q);
    lemma_read(p, src_ip);
    lemma_selected(seen, client(p), opts, ip);
    assert(dhcp::request(seen, q, opts, now) == dhcp::confirm(seen, q, ip, now));
    lemma_confirm_grants(st, p, src_ip, now, ip, line);
    assert(dhcp::on_packet(st, p, src_ip, now) == dhcp::after(
        line,
        dhcp::confirm(seen, q, ip, now),
    ));
}

proof fn lemma_selected(st: ServerV, mac: Seq<char>, opts: Seq<(u8, Seq<u8>)>, ip: u32)
    requires
        st.pool_start + st.pool_size <= u32::MAX,
        dhcp_wire::address_option(opts, 50) == Some(ip),
    ensures
        dhcp::selected(st, mac, opts) == (if in_service(st, ip) && (!leased(st, ip) || (
        st.leases.contains_key(mac) && st.leases[mac].ip == ip)) {
            Some(ip)
        } else {
            None
        }),
{
    assert(lease_table::held(st.leases, ip) == leased(st, ip));
    text_laws::lemma_pool(ip, st.pool_start, st.pool_size);
}

/// A client without an address that asks for none that it may have is given the address of its lease, and
/// is refused where it has no lease.
#[verifier::rlimit(40)]
pub proof fn lemma_request_falls_back(st: ServerV, p: Seq<u8>, src_ip: u32, now: u64)
    requires
        of_client(p),
        kind(p) == Some(3u8),
        addressed(st, p),
        has(p) == 0,
        st.pool_start + st.pool_size <= u32::MAX,
        asks(p) matches Some(ip) ==> !in_service(st, ip) || (leased(st, ip) && !leased_to(st, p, ip)),
    ensures
        st.leases.contains_key(client(p)) ==> grants(
            dhcp::on_packet(st, p, src_ip, now),
            st,
            p,
            src_ip,
            now,
            st.leases[client(p)].ip,
        ),
        !st.leases.contains_key(client(p)) ==> refuses(
            dhcp::on_packet(st, p, src_ip, now),
            st,
            p,
            src_ip,
            now,
        ),
{
    let q = dhcp::query_of(p, src_ip);
    let seen = ServerV { last_activity: now, ..st };
    let opts = dhcp_wire::options_from(p, 240);
    let line = dhcp::received("Rqst"@, q);
    lemma_read(p, src_ip);
    if asks(p) is Some {
        lemma_selected(seen, client(p), opts, asks(p)->0);
    }
    assert(dhcp::selected(seen, client(p), opts) is None);
    if st.leases.contains_key(client(p)) {
        let ip = st.leases[client(p)].ip;
        assert(dhcp::request(seen, q, opts, now) == dhcp::confirm(seen, q, ip, now));
        lemma_confirm_grants(st, p, src_ip, now, ip, line);
    } else {
        assert(dhcp::request(seen, q, opts, now) == dhcp::refuse(seen, q));
        lemma_refuse_refuses(st, p, src_ip, now, line);
    }
    assert(dhcp::on_packet(st, p, src_ip, now) == dhcp::after(
        line,
        dhcp::request(seen, q, opts, now),
    ));
}

/// A client that goes on with an address is given it again where its lease is on that address, and is
/// refused otherwise.
#[verifier::rlimit(40)]
pub proof fn lemma_renewal(st: ServerV, p: Seq<u8>, src_ip: u32, now: u64)
    requires
        of_client(p),
        kind(p) == Some(3u8),
        addressed(st, p),
        has(p) != 0,
    ensures
        leased_to(st, p, has(p) as u32) ==> grants(
            dhcp::on_packet(st, p, src_ip, now),
            st,
            p,
            src_ip,
            now,
            has(p) as u32,
        ),
        !leased_to(st, p, has(p) as u32) ==> refuses(
            dhcp::on_packet(st, p, src_ip, now),
            st,
            p,
            src_ip,
            now,
        ),
{
    let q = dhcp::query_of(p, src_ip);
    let seen = ServerV { last_activity: now, ..st };
    let opts = dhcp_wire::options_from(p, 240);
    let line = dhcp::received("Rqst"@, q);
    lemma_read(p, src_ip);
    if leased_to(st, p, has(p) as u32) {
        assert(dhcp::request(seen, q, opts, now) == dhcp::confirm(seen, q, has(p) as u32, now));
        lemma_confirm_grants(st, p, src_ip, now, has(p) as u32, line);
    } else {
        assert(dhcp::request(seen, q, opts, now) == dhcp::refuse(seen, q));
        lemma_refuse_refuses(st, p, src_ip, now, line);
    }
    assert(dhcp::on_packet(st, p, src_ip, now) == dhcp::after(
        line,
        dhcp::request(seen, q, opts, now),
    ));
}

/// A request to another server moves nothing but the time of the last packet, and is not answered.
pub proof fn lemma_other_server(st: ServerV, p: Seq<u8>, src_ip: u32, now: u64)
    requires
        of_client(p),
        kind(p) == Some(3u8),
        !addressed(st, p),
    ensures
        ({
            let s = dhcp::on_packet(st, p, src_ip, now);
            &&& silent(s)
            &&& s.pending is None
            &&& s.state == ServerV { last_activity: now, ..st }
        }),
{
    lemma_read(p, src_ip);
}

// ---------------------------------------------------------------- DISCOVER

/// The client of `p` is offered `ip` and has a minute to ask for it.
pub open spec fn offers(s: StepV, st: ServerV, p: Seq<u8>, src_ip: u32, now: u64, ip: u32) -> bool {
    &&& only_answer(s, st, p, src_ip, 2, ip)
    &&& describes(s.effects.last(), st.server_ip, st.lease_seconds)
    &&& announces_only(s, client(p), ip)
    &&& s.pending is None
    &&& s.state == ServerV {
        leases: st.leases.insert(
            client(p),
            Lease { ip, expires_unix: (now + 60) as u64, acked: false },
        ),
        ..st
    }
}

/// The client of `p` has a lease that has not ended, on an address that nobody has declined.
pub open spec fn keeps(st: ServerV, p: Seq<u8>, now: u64) -> bool {
    &&& st.leases.contains_key(client(p))
    &&& st.leases[client(p)].expires_unix > now
    &&& !st.bad.contains(st.leases[client(p)].ip)
}

/// `ip` can be offered to the client of `p`: it is not the server's own, nobody has declined it, and no
/// other hardware address has a lease on it, not even one that has ended.
pub open spec fn available(st: ServerV, mac: Seq<char>, ip: u32) -> bool {
    &&& ip != st.server_ip
    &&& !st.bad.contains(ip)
    &&& forall|m: Seq<char>| #[trigger]
        st.leases.contains_key(m) && st.leases[m].ip == ip ==> text::same_letters(m, mac)
}

proof fn lemma_available(st: ServerV, mac: Seq<char>, ip: u32)
    ensures
        available(st, mac, ip) <==> dhcp::free_for(st, mac, ip),
{
    if dhcp::free_for(st, mac, ip) {
        assert forall|m: Seq<char>| #[trigger]
            st.leases.contains_key(m) && st.leases[m].ip == ip implies text::same_letters(
            m,
            mac,
        ) by {
            assert(!lease_table::held_elsewhere(st.leases, mac, ip));
        }
    }
}

#[verifier::rlimit(40)]
proof fn lemma_offer_offers(
    st: ServerV,
    seen: ServerV,
    p: Seq<u8>,
    src_ip: u32,
    now: u64,
    ip: u32,
    lines: Seq<EffectV>,
)
    requires
        of_client(p),
        seen.server_ip == st.server_ip,
        seen.lease_seconds == st.lease_seconds,
        lines.len() <= 1,
        lines.len() == 1 ==> lines[0] is Log,
    ensures
        ({
            let s = dhcp::offer(seen, dhcp::query_of(p, src_ip), ip, now);
            offers(StepV { effects: lines + s.effects, ..s }, seen, p, src_ip, now, ip)
        }),
{
    let o = dhcp::offer(seen, dhcp::query_of(p, src_ip), ip, now);
    let s = StepV { effects: lines + o.effects, ..o };
    lemma_answer(seen, p, src_ip, ip, 2, false);
    let n = lines.len() as int;
    assert(o.effects.len() == 3);
    assert(s.effects[n] is Log && s.effects[n + 2] is Send);
    assert(n == 1 ==> s.effects[0] is Log);
    assert(s.effects[n + 1] == EffectV::LeaseChanged(client(p), ip));
    assert(s.effects.last() == o.effects[2]);
}

/// A client that looks for an address and has one that it keeps is offered that one, without a probe.
#[verifier::rlimit(40)]
pub proof fn lemma_kept_address_is_offered(st: ServerV, p: Seq<u8>, src_ip: u32, now: u64)
    requires
        of_client(p),
        kind(p) == Some(1u8),
        keeps(st, p, now),
    ensures
        offers(
            dhcp::on_packet(st, p, src_ip, now),
            ServerV { last_activity: now, ..st },
            p,
            src_ip,
            now,
            st.leases[client(p)].ip,
        ),
{
    let q = dhcp::query_of(p, src_ip);
    let seen = ServerV { last_activity: now, ..st };
    lemma_read(p, src_ip);
    lemma_offer_offers(
        st,
        seen,
        p,
        src_ip,
        now,
        st.leases[client(p)].ip,
        seq![dhcp::received("Discover"@, q)],
    );
}

/// Address number `i` of the pool is the first that is available to `mac` from number `from` on.
pub open spec fn first_available(st: ServerV, mac: Seq<char>, from: int, i: int) -> bool {
    &&& from <= i < st.pool_size
    &&& available(st, mac, (st.pool_start + i) as u32)
    &&& forall|j: int|
        from <= j < i ==> !available(st, mac, #[trigger] ((st.pool_start + j) as u32))
}

proof fn lemma_first_is_found(st: ServerV, mac: Seq<char>, from: int, i: int)
    requires
        0 <= from,
        st.pool_start + st.pool_size <= u32::MAX,
        first_available(st, mac, from, i),
    ensures
        dhcp::first_free(st, mac, from) == Some(i),
        net::pool_address(st.pool_start, i) == st.pool_start + i,
    decreases i - from,
{
    lemma_available(st, mac, (st.pool_start + from) as u32);
    assert(net::pool_address(st.pool_start, from) == (st.pool_start + from) as u32);
    if from < i {
        assert(!available(st, mac, (st.pool_start + from) as u32));
        lemma_first_is_found(st, mac, from + 1, i);
    }
}

/// A client that keeps no address is offered the first of the pool that is available to it; where
/// addresses are probed it is this one that is probed first, and nothing else happens before.
#[verifier::rlimit(40)]
pub proof fn lemma_first_available_is_offered(
    st: ServerV,
    p: Seq<u8>,
    src_ip: u32,
    now: u64,
    i: int,
)
    requires
        of_client(p),
        kind(p) == Some(1u8),
        !keeps(st, p, now),
        st.pool_start + st.pool_size <= u32::MAX,
        first_available(st, client(p), 0, i),
    ensures
        ({
            let s = dhcp::on_packet(st, p, src_ip, now);
            let seen = ServerV { last_activity: now, ..st };
            if st.probing {
                &&& s.state == seen
                &&& silent(s)
                &&& s.pending == Some(
                    PendingV {
                        query: dhcp::query_of(p, src_ip),
                        index: i as u32,
                        ip: (st.pool_start + i) as u32,
                        now,
                    },
                )
            } else {
                offers(s, seen, p, src_ip, now, (st.pool_start + i) as u32)
            }
        }),
{
    let q = dhcp::query_of(p, src_ip);
    let seen = ServerV { last_activity: now, ..st };
    lemma_read(p, src_ip);
    assert(first_available(seen, client(p), 0, i)) by {
        assert forall|j: int| 0 <= j < i implies !available(
            seen,
            client(p),
            #[trigger] ((st.pool_start + j) as u32),
        ) by {
            assert(!available(st, client(p), (st.pool_start + j) as u32));
            lemma_available_same(st, seen, client(p), (st.pool_start + j) as u32);
        }
        lemma_available_same(st, seen, client(p), (st.pool_start + i) as u32);
    }
    lemma_first_is_found(seen, client(p), 0, i);
    lemma_offer_offers(
        st,
        seen,
        p,
        src_ip,
        now,
        (st.pool_start + i) as u32,
        seq![dhcp::received("Discover"@, q)],
    );
}

proof fn lemma_available_same(a: ServerV, b: ServerV, mac: Seq<char>, ip: u32)
    requires
        a.server_ip == b.server_ip,
        a.bad == b.bad,
        a.leases == b.leases,
    ensures
        available(a, mac, ip) == available(b, mac, ip),
{
    lemma_available(a, mac, ip);
    lemma_available(b, mac, ip);
}

/// A probed address that is not in use is offered to the client that it was probed for.
pub proof fn lemma_unused_is_offered(st: ServerV, p: Seq<u8>, src_ip: u32, w: PendingV)
    requires
        of_client(p),
        w.query == dhcp::query_of(p, src_ip),
    ensures
        offers(dhcp::after_probe(st, w, false), st, p, src_ip, w.now, w.ip),
{
    lemma_read(p, src_ip);
    lemma_offer_offers(st, st, p, src_ip, w.now, w.ip, Seq::empty());
    let o = dhcp::offer(st, w.query, w.ip, w.now);
    assert(Seq::<EffectV>::empty() + o.effects =~= o.effects);
}

/// A probed address that is in use is passed over: the next one that is available is probed, or offered
/// where nothing is probed; where there is none, no lease changes and nothing goes out.
#[verifier::rlimit(40)]
pub proof fn lemma_used_is_passed_over(st: ServerV, p: Seq<u8>, src_ip: u32, w: PendingV, i: int)
    requires
        of_client(p),
        w.query == dhcp::query_of(p, src_ip),
        st.pool_start + st.pool_size <= u32::MAX,
        first_available(st, client(p), w.index + 1, i) || (i == st.pool_size && forall|j: int|
            w.index < j < st.pool_size ==> !available(
                st,
                client(p),
                #[trigger] ((st.pool_start + j) as u32),
            )),
    ensures
        ({
            let s = dhcp::after_probe(st, w, true);
            if i == st.pool_size {
                s.state == st && s.pending is None && silent(s)
            } else if st.probing {
                &&& s.state == st
                &&& silent(s)
                &&& s.pending == Some(
                    PendingV { index: i as u32, ip: (st.pool_start + i) as u32, ..w },
                )
            } else {
                offers(s, st, p, src_ip, w.now, (st.pool_start + i) as u32)
            }
        }),
{
    let from = w.index + 1;
    lemma_read(p, src_ip);
    let line = EffectV::Log(
        crate::log::LogLevel::Debug,
        "Suppress used address "@ + net::ip_text(w.ip),
    );
    if i == st.pool_size {
        lemma_none_is_found(st, client(p), from);
    } else {
        lemma_first_is_found(st, client(p), from, i);
        lemma_offer_offers(st, st, p, src_ip, w.now, (st.pool_start + i) as u32, seq![line]);
    }
}

proof fn lemma_none_is_found(st: ServerV, mac: Seq<char>, from: int)
    requires
        0 <= from,
        st.pool_start + st.pool_size <= u32::MAX,
        forall|j: int|
            from <= j < st.pool_size ==> !available(
                st,
                mac,
                #[trigger] ((st.pool_start + j) as u32),
            ),
    ensures
        dhcp::first_free(st, mac, from) is None,
    decreases st.pool_size - from,
{
    if from < st.pool_size {
        assert(!available(st, mac, (st.pool_start + from) as u32));
        lemma_available(st, mac, (st.pool_start + from) as u32);
        assert(net::pool_address(st.pool_start, from) == (st.pool_start + from) as u32);
        lemma_none_is_found(st, mac, from + 1);
    }
}

/// Where a client keeps no address and none is available to it, nothing goes out and no lease changes.
pub proof fn lemma_empty_pool(st: ServerV, p: Seq<u8>, src_ip: u32, now: u64)
    requires
        of_client(p),
        kind(p) == Some(1u8),
        !keeps(st, p, now),
        st.pool_start + st.pool_size <= u32::MAX,
        forall|j: int|
            0 <= j < st.pool_size ==> !available(
                st,
                client(p),
                #[trigger] ((st.pool_start + j) as u32),
            ),
    ensures
        ({
            let s = dhcp::on_packet(st, p, src_ip, now);
            &&& silent(s)
            &&& s.pending is None
            &&& s.state == ServerV { last_activity: now, ..st }
        }),
{
    let seen = ServerV { last_activity: now, ..st };
    lemma_read(p, src_ip);
    assert forall|j: int| 0 <= j < st.pool_size implies !available(
        seen,
        client(p),
        #[trigger] ((st.pool_start + j) as u32),
    ) by {
        assert(!available(st, client(p), (st.pool_start + j) as u32));
        lemma_available_same(st, seen, client(p), (st.pool_start + j) as u32);
    }
    lemma_none_is_found(seen, client(p), 0);
}

// ---------------------------------------------------------------- other messages

/// A client that gives its address back loses its lease and no other loses one; the address that it
/// names may be offered again. Nothing goes out.
pub proof fn lemma_release(st: ServerV, p: Seq<u8>, src_ip: u32, now: u64)
    requires
        of_client(p),
        kind(p) == Some(7u8),
    ensures
        ({
            let s = dhcp::on_packet(st, p, src_ip, now);
            &&& silent(s)
            &&& s.pending is None
            &&& s.state.leases == st.leases.remove(client(p))
            &&& forall|ip: u32| #[trigger]
                s.state.bad.contains(ip) <==> st.bad.contains(ip) && (ip != has(p) || ip == 0)
            &&& s.state == ServerV {
                last_activity: now,
                leases: s.state.leases,
                bad: s.state.bad,
                ..st
            }
        }),
{
    lemma_read(p, src_ip);
}

/// A client that declines an address puts that address, and no other, out of service. No lease changes
/// and nothing goes out.
pub proof fn lemma_decline(st: ServerV, p: Seq<u8>, src_ip: u32, now: u64)
    requires
        of_client(p),
        kind(p) == Some(4u8),
    ensures
        ({
            let s = dhcp::on_packet(st, p, src_ip, now);
            &&& silent(s)
            &&& s.pending is None
            &&& forall|ip: u32| #[trigger]
                s.state.bad.contains(ip) <==> st.bad.contains(ip) || asks(p) == Some(ip)
            &&& s.state == ServerV { last_activity: now, bad: s.state.bad, ..st }
        }),
{
    lemma_read(p, src_ip);
}

/// A client that has an address of its own and asks for the settings is answered without an address and
/// without a lease, and no lease changes.
#[verifier::rlimit(40)]
pub proof fn lemma_inform(st: ServerV, p: Seq<u8>, src_ip: u32, now: u64)
    requires
        of_client(p),
        kind(p) == Some(8u8),
    ensures
        ({
            let s = dhcp::on_packet(st, p, src_ip, now);
            &&& only_answer(s, st, p, src_ip, 2, 0)
            &&& dhcp_wire::options_from(s.effects.last()->Send_0, 240).len() == 2
            &&& forall|k: int|
                0 <= k < s.effects.len() ==> !((#[trigger] s.effects[k]) is LeaseChanged)
            &&& s.pending is None
            &&& s.state == ServerV { last_activity: now, ..st }
        }),
{
    let seen = ServerV { last_activity: now, ..st };
    lemma_read(p, src_ip);
    let s = dhcp::on_packet(st, p, src_ip, now);
    lemma_answer(seen, p, src_ip, 0, 2, true);
    assert(s.effects.len() == 2);
    assert(s.effects[0] is Log && s.effects[1] is Send);
}

/// A packet of a client with another type, or with none, moves nothing but the time of the last packet.
pub proof fn lemma_other_types(st: ServerV, p: Seq<u8>, src_ip: u32, now: u64)
    requires
        of_client(p),
        kind(p) is None || kind(p)->0 == 0 || kind(p)->0 == 2 || kind(p)->0 == 5 || kind(p)->0 == 6
            || kind(p)->0 > 8,
    ensures
        dhcp::on_packet(st, p, src_ip, now) == (StepV {
            state: ServerV { last_activity: now, ..st },
            effects: Seq::empty(),
            pending: None,
        }),
{
    lemma_read(p, src_ip);
}

/// A packet that is not of a client changes nothing at all.
pub proof fn lemma_not_of_client(st: ServerV, p: Seq<u8>, src_ip: u32, now: u64)
    requires
        !of_client(p),
    ensures
        dhcp::on_packet(st, p, src_ip, now) == (StepV {
            state: st,
            effects: Seq::empty(),
            pending: None,
        }),
{
    if p.len() >= 240 && bytes::be32_at(p, 236) == 0x6382_5363 {
        bytes::lemma_four(p[236] as int, p[237] as int, p[238] as int, p[239] as int);
    }
}

// ---------------------------------------------------------------- stored leases

/// A stored lease is taken over where it has not ended and the table has room, and then with its address
/// and its end; otherwise the table stays as it is. Lists are taken over one after the other.
pub proof fn lemma_seed_each(
    t: Map<Seq<char>, Lease>,
    first: Seq<(Seq<char>, u32, u64)>,
    r: (Seq<char>, u32, u64),
    now: u64,
    pool_size: u32,
)
    ensures
        ({
            let before = dhcp::seed(t, first, now, pool_size);
            dhcp::seed(t, first.push(r), now, pool_size) == if r.2 > now && before.len() < pool_size {
                before.insert(r.0, Lease { ip: r.1, expires_unix: r.2, acked: false })
            } else {
                before
            }
        }),
        dhcp::seed(t, Seq::empty(), now, pool_size) == t,
{
    assert(first.push(r).drop_last() =~= first);
}

// ---------------------------------------------------------------- a new server

/// A new server serves the pool that it is told, for two days at a time, without probing; it has no
/// leases, nothing was declined, and nobody was heard.
pub proof fn lemma_fresh_server(server_ip: u32, pool_start: u32, pool_size: u32)
    ensures
        ({
            let st = dhcp::DhcpServer::fresh(server_ip, pool_start, pool_size);
            &&& st.server_ip == server_ip && st.pool_start == pool_start && st.pool_size == pool_size
            &&& st.lease_seconds == 172800 && !st.probing && st.last_activity == 0
            &&& forall|m: Seq<char>| !#[trigger] st.leases.contains_key(m)
            &&& forall|ip: u32| !#[trigger] st.bad.contains(ip)
        }),
{
}

} // verus!
