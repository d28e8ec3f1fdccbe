//! What holds of the DHCP server over several packets.

use vstd::prelude::*;

use crate::bytes;
use crate::dhcp;
use crate::dhcp::{EffectV, PendingV, QueryV, ServerV, StepV};
use crate::dhcp_wire;
use crate::dhcp_wire::{
    Reply, MSG_ACK, MSG_DECLINE, MSG_DISCOVER, MSG_INFORM, MSG_NAK, MSG_OFFER, MSG_RELEASE,
    OPT_MESSAGE_TYPE, OPT_REQUESTED_IP, OPT_SERVER_ID,
};
use crate::lease_table;
use crate::lease_table::Lease;
use crate::net;
use crate::text;

verus! {

// ---------------------------------------------------------------- one holder per address

/// No address is leased to two hardware addresses that differ in more than case.
pub open spec fn exclusive(t: Map<Seq<char>, Lease>) -> bool {
    forall|a: Seq<char>, b: Seq<char>|
        #![trigger t.contains_key(a), t.contains_key(b)]
        t.contains_key(a) && t.contains_key(b) && t[a].ip == t[b].ip ==> text::same_letters(a, b)
}

proof fn lemma_exclusive_insert(t: Map<Seq<char>, Lease>, mac: Seq<char>, l: Lease)
    requires
        exclusive(t),
        !lease_table::held_elsewhere(t, mac, l.ip),
    ensures
        exclusive(t.insert(mac, l)),
{
    let u = t.insert(mac, l);
    assert forall|a: Seq<char>, b: Seq<char>|
        #![trigger u.contains_key(a), u.contains_key(b)]
        u.contains_key(a) && u.contains_key(b) && u[a].ip == u[b].ip implies text::same_letters(
        a,
        b,
    ) by {
        if a != mac {
            assert(t.contains_key(a));
        }
        if b != mac {
            assert(t.contains_key(b));
        }
    }
}

proof fn lemma_own_address(t: Map<Seq<char>, Lease>, mac: Seq<char>)
    requires
        exclusive(t),
        t.contains_key(mac),
    ensures
        !lease_table::held_elsewhere(t, mac, t[mac].ip),
{
    if lease_table::held_elsewhere(t, mac, t[mac].ip) {
        let m = choose|m: Seq<char>|
            #![trigger t.contains_key(m)]
            t.contains_key(m) && t[m].ip == t[mac].ip && !text::same_letters(m, mac);
        assert(t.contains_key(m) && t.contains_key(mac));
    }
}

/// What the pool search finds is free, and nothing before it is.
pub proof fn lemma_first_free(st: ServerV, mac: Seq<char>, from: int)
    requires
        0 <= from,
    ensures
        match dhcp::first_free(st, mac, from) {
            Some(i) => {
                &&& from <= i < st.pool_size
                &&& dhcp::free_for(st, mac, net::pool_address(st.pool_start, i))
                &&& forall|j: int|
                    from <= j < i ==> !dhcp::free_for(
                        st,
                        mac,
                        #[trigger] net::pool_address(st.pool_start, j),
                    )
            },
            None => forall|j: int|
                from <= j < st.pool_size ==> !dhcp::free_for(
                    st,
                    mac,
                    #[trigger] net::pool_address(st.pool_start, j),
                ),
        },
    decreases st.pool_size - from,
{
    if from < st.pool_size && !dhcp::free_for(st, mac, net::pool_address(st.pool_start, from)) {
        lemma_first_free(st, mac, from + 1);
    }
}

proof fn lemma_exclusive_search(st: ServerV, q: QueryV, from: int, now: u64)
    requires
        exclusive(st.leases),
        0 <= from,
    ensures
        exclusive(dhcp::search(st, q, from, now).state.leases),
        dhcp::search(st, q, from, now).pending matches Some(p) ==> {
            &&& p.query == q
            &&& from <= p.index < st.pool_size
            &&& p.ip == net::pool_address(st.pool_start, p.index as int)
            &&& dhcp::free_for(st, q.mac, p.ip)
        },
{
    lemma_first_free(st, q.mac, from);
    match dhcp::first_free(st, q.mac, from) {
        Some(i) => {
            let ip = net::pool_address(st.pool_start, i);
            lemma_exclusive_insert(st.leases, q.mac, dhcp::offered_lease(ip, now));
        },
        None => {},
    }
}

proof fn lemma_exclusive_confirm(st: ServerV, q: QueryV, ip: u32, now: u64)
    requires
        exclusive(st.leases),
        !lease_table::held_elsewhere(st.leases, q.mac, ip),
    ensures
        exclusive(dhcp::confirm(st, q, ip, now).state.leases),
{
    lemma_exclusive_insert(
        st.leases,
        q.mac,
        Lease { ip, expires_unix: (now + st.lease_seconds) as u64, acked: true },
    );
}

proof fn lemma_exclusive_request(st: ServerV, q: QueryV, opts: Seq<(u8, Seq<u8>)>, now: u64)
    requires
        exclusive(st.leases),
    ensures
        exclusive(dhcp::request(st, q, opts, now).state.leases),
{
    if st.leases.contains_key(q.mac) {
        lemma_own_address(st.leases, q.mac);
        lemma_exclusive_confirm(st, q, st.leases[q.mac].ip, now);
    }
    match dhcp::selected(st, q.mac, opts) {
        Some(ip) => {
            if !lease_table::held(st.leases, ip) {
                assert(!lease_table::held_elsewhere(st.leases, q.mac, ip));
            }
            lemma_exclusive_confirm(st, q, ip, now);
        },
        None => {},
    }
}

/// Whatever packet comes in, an address keeps a single holder.
pub proof fn lemma_packet_keeps_exclusive(st: ServerV, p: Seq<u8>, src_ip: u32, now: u64)
    requires
        exclusive(st.leases),
    ensures
        exclusive(dhcp::on_packet(st, p, src_ip, now).state.leases),
{
    let seen = ServerV { last_activity: now, ..st };
    let q = dhcp::query_of(p, src_ip);
    lemma_exclusive_search(seen, q, 0, now);
    if seen.leases.contains_key(q.mac) {
        lemma_own_address(seen.leases, q.mac);
        lemma_exclusive_insert(
            seen.leases,
            q.mac,
            dhcp::offered_lease(seen.leases[q.mac].ip, now),
        );
    }
    lemma_exclusive_request(seen, q, dhcp_wire::options_from(p, 240), now);
    let t = seen.leases.remove(q.mac);
    assert forall|a: Seq<char>, b: Seq<char>|
        #![trigger t.contains_key(a), t.contains_key(b)]
        t.contains_key(a) && t.contains_key(b) && t[a].ip == t[b].ip implies text::same_letters(
        a,
        b,
    ) by {
        assert(seen.leases.contains_key(a) && seen.leases.contains_key(b));
    }
}

/// Different hardware addresses hold different addresses.
pub open spec fn distinct(t: Map<Seq<char>, Lease>) -> bool {
    forall|a: Seq<char>, b: Seq<char>|
        #![trigger t.contains_key(a), t.contains_key(b)]
        t.contains_key(a) && t.contains_key(b) && a != b ==> t[a].ip != t[b].ip
}

/// No lease but that of `mac` was added, removed or changed.
pub open spec fn others_kept(
    before: Map<Seq<char>, Lease>,
    now: Map<Seq<char>, Lease>,
    mac: Seq<char>,
) -> bool {
    forall|m: Seq<char>|
        #![trigger now.contains_key(m)]
        #![trigger before.contains_key(m)]
        m != mac ==> (now.contains_key(m) <==> before.contains_key(m)) && (before.contains_key(m)
            ==> now[m] == before[m])
}

proof fn lemma_distinct_insert(t: Map<Seq<char>, Lease>, mac: Seq<char>, l: Lease)
    requires
        distinct(t),
        (t.contains_key(mac) && t[mac].ip == l.ip) || !lease_table::held(t, l.ip),
    ensures
        distinct(t.insert(mac, l)),
{
    let u = t.insert(mac, l);
    assert forall|a: Seq<char>, b: Seq<char>|
        #![trigger u.contains_key(a), u.contains_key(b)]
        u.contains_key(a) && u.contains_key(b) && a != b implies u[a].ip != u[b].ip by {
        if a != mac {
            assert(t.contains_key(a));
        }
        if b != mac {
            assert(t.contains_key(b));
        }
        if t.contains_key(mac) && t[mac].ip == l.ip {
            assert(t.contains_key(mac));
        }
    }
}

/// No REQUEST lets one hardware address take an address that another one holds: different hardware
/// addresses keep different addresses, and no lease but that of the client is touched.
pub proof fn lemma_request_keeps_distinct(
    st: ServerV,
    q: QueryV,
    opts: Seq<(u8, Seq<u8>)>,
    now: u64,
)
    requires
        distinct(st.leases),
    ensures
        distinct(dhcp::request(st, q, opts, now).state.leases),
        others_kept(st.leases, dhcp::request(st, q, opts, now).state.leases, q.mac),
{
    let end = (now + st.lease_seconds) as u64;
    if st.leases.contains_key(q.mac) {
        lemma_distinct_insert(
            st.leases,
            q.mac,
            Lease { ip: st.leases[q.mac].ip, expires_unix: end, acked: true },
        );
    }
    match dhcp::selected(st, q.mac, opts) {
        Some(ip) => {
            lemma_distinct_insert(
                st.leases,
                q.mac,
                Lease { ip, expires_unix: end, acked: true },
            );
        },
        None => {},
    }
}

/// Whatever packet comes in, only the lease of its sender may change.
pub proof fn lemma_packet_touches_own(st: ServerV, p: Seq<u8>, src_ip: u32, now: u64)
    ensures
        others_kept(
            st.leases,
            dhcp::on_packet(st, p, src_ip, now).state.leases,
            dhcp::query_of(p, src_ip).mac,
        ),
{
}

/// An offer that waits for a probe names an address of the pool that is free for its client in the
/// state in which the offer was left.
pub proof fn lemma_pending_is_free(st: ServerV, p: Seq<u8>, src_ip: u32, now: u64)
    requires
        exclusive(st.leases),
    ensures
        dhcp::on_packet(st, p, src_ip, now).pending matches Some(w) ==> {
            &&& w.index < st.pool_size
            &&& w.ip == net::pool_address(st.pool_start, w.index as int)
            &&& dhcp::free_for(dhcp::on_packet(st, p, src_ip, now).state, w.query.mac, w.ip)
        },
{
    let seen = ServerV { last_activity: now, ..st };
    lemma_exclusive_search(seen, dhcp::query_of(p, src_ip), 0, now);
}

/// Going on after a probe keeps a single holder for each address, and leaves a waiting offer whose
/// address is free again.
pub proof fn lemma_probe_keeps_exclusive(st: ServerV, p: PendingV, used: bool)
    requires
        exclusive(st.leases),
        dhcp::free_for(st, p.query.mac, p.ip),
    ensures
        exclusive(dhcp::after_probe(st, p, used).state.leases),
        dhcp::after_probe(st, p, used).pending matches Some(w) ==> {
            &&& p.index < w.index < st.pool_size
            &&& dhcp::free_for(dhcp::after_probe(st, p, used).state, w.query.mac, w.ip)
        },
{
    lemma_exclusive_search(st, p.query, p.index + 1, p.now);
    lemma_exclusive_insert(st.leases, p.query.mac, dhcp::offered_lease(p.ip, p.now));
}

// ---------------------------------------------------------------- what is offered

/// The step tells the outside that `mac` has `ip`.
pub open spec fn announces(s: StepV, mac: Seq<char>, ip: u32) -> bool {
    s.effects.contains(EffectV::LeaseChanged(mac, ip))
}

/// A datagram that offers `ip`: an OFFER with this address.
pub open spec fn is_offer_of(e: EffectV, ip: u32) -> bool {
    e matches EffectV::Send(p, _, _) && dhcp_wire::message_type(dhcp_wire::options_from(p, 240))
        == Some(MSG_OFFER) && bytes::be32_at(p, 16) == ip
}

/// The step sends an OFFER of `ip`.
pub open spec fn offers(s: StepV, ip: u32) -> bool {
    exists|k: int| 0 <= k < s.effects.len() && is_offer_of(#[trigger] s.effects[k], ip)
}

/// The step sends a datagram.
pub open spec fn sends(s: StepV) -> bool {
    exists|k: int| 0 <= k < s.effects.len() && (#[trigger] s.effects[k]) is Send
}

proof fn lemma_only_value(opts: Seq<(u8, Seq<u8>)>, code: u8)
    requires
        opts.len() > 0,
        opts[0].0 == code,
        forall|i: int| 0 < i < opts.len() ==> (#[trigger] opts[i]).0 != code,
    ensures
        dhcp_wire::last_value(opts, code) == Some(opts[0].1),
    decreases opts.len(),
{
    if opts.len() > 1 {
        let init = opts.drop_last();
        assert(opts[opts.len() - 1].0 != code);
        assert forall|i: int| 0 < i < init.len() implies (#[trigger] init[i]).0 != code by {
            assert(init[i] == opts[i]);
        }
        lemma_only_value(init, code);
    }
}

proof fn lemma_reply_type(r: Reply)
    ensures
        dhcp_wire::message_type(dhcp_wire::reply_options(r)) == Some(r.msg_type),
{
    let opts = dhcp_wire::reply_options(r);
    assert(opts[0] == (OPT_MESSAGE_TYPE, seq![r.msg_type]));
    lemma_only_value(opts, OPT_MESSAGE_TYPE);
}

/// The type and the address of an answer.
proof fn lemma_answer_kind(st: ServerV, q: QueryV, addr: u32, msg_type: u8, is_inform: bool)
    requires
        q.chaddr.len() == 16,
    ensures
        dhcp::answer(st, q, addr, msg_type, is_inform) matches EffectV::Send(p, _, _) && {
            &&& dhcp_wire::message_type(dhcp_wire::options_from(p, 240)) == Some(msg_type)
            &&& bytes::be32_at(p, 16) == (if is_inform {
                0
            } else {
                addr
            })
        },
{
    let r = Reply {
        xid: q.xid,
        flags: q.flags,
        giaddr: q.giaddr,
        addr,
        msg_type,
        is_inform,
        server_ip: st.server_ip,
        lease_seconds: st.lease_seconds,
    };
    dhcp_wire::lemma_reply_round_trip(r, q.chaddr);
    lemma_reply_type(r);
}

/// An offer sends an OFFER of its address and of no other, and announces the same.
proof fn lemma_offer_effects(st: ServerV, q: QueryV, ip: u32, now: u64)
    requires
        q.chaddr.len() == 16,
    ensures
        forall|x: u32| #[trigger] offers(dhcp::offer(st, q, ip, now), x) <==> x == ip,
        forall|m: Seq<char>, x: u32| #[trigger]
            announces(dhcp::offer(st, q, ip, now), m, x) <==> m == q.mac && x == ip,
{
    let s = dhcp::offer(st, q, ip, now);
    let e = s.effects;
    lemma_answer_kind(st, q, ip, MSG_OFFER, false);
    assert(e.len() == 3);
    assert(is_offer_of(e[2], ip));
    assert(e[1] == EffectV::LeaseChanged(q.mac, ip));
    assert forall|x: u32| #[trigger] offers(s, x) implies x == ip by {
        let k = choose|k: int| 0 <= k < e.len() && is_offer_of(#[trigger] e[k], x);
        assert(k == 2);
    }
    assert forall|m: Seq<char>, x: u32| #[trigger] announces(s, m, x) implies m == q.mac && x
        == ip by {
        let k = choose|k: int| 0 <= k < e.len() && e[k] == EffectV::LeaseChanged(m, x);
        assert(k == 1);
    }
}

/// What a client that looks for an address is offered: its own unexpired address, or an address of the
/// pool that is free for it. Never a declined one; from the pool never the server's own.
pub proof fn lemma_discover_offers(st: ServerV, q: QueryV, now: u64, mac: Seq<char>, ip: u32)
    requires
        q.chaddr.len() == 16,
    ensures
        ({
            let s = dhcp::discover(st, q, now);
            let owed = !st.bad.contains(ip) && (dhcp::kept_address(st, q.mac, now) == Some(ip)
                || dhcp::free_for(st, q.mac, ip));
            &&& offers(s, ip) ==> owed
            &&& announces(s, mac, ip) ==> mac == q.mac && owed
            &&& s.pending matches Some(w) ==> dhcp::free_for(st, q.mac, w.ip)
        }),
{
    lemma_search_offers(st, q, 0, now, mac, ip);
    match dhcp::kept_address(st, q.mac, now) {
        Some(k) => {
            lemma_offer_effects(st, q, k, now);
        },
        None => {},
    }
}

proof fn lemma_search_offers(
    st: ServerV,
    q: QueryV,
    from: int,
    now: u64,
    mac: Seq<char>,
    ip: u32,
)
    requires
        q.chaddr.len() == 16,
        0 <= from,
    ensures
        ({
            let s = dhcp::search(st, q, from, now);
            &&& s.state.bad == st.bad
            &&& offers(s, ip) ==> dhcp::free_for(st, q.mac, ip)
            &&& announces(s, mac, ip) ==> mac == q.mac && dhcp::free_for(st, q.mac, ip)
            &&& s.pending matches Some(w) ==> w.query == q && dhcp::free_for(st, q.mac, w.ip)
        }),
{
    lemma_first_free(st, q.mac, from);
    let s = dhcp::search(st, q, from, now);
    match dhcp::first_free(st, q.mac, from) {
        Some(i) => {
            lemma_offer_effects(st, q, net::pool_address(st.pool_start, i), now);
        },
        None => {
            if announces(s, mac, ip) {
                let k = choose|k: int|
                    0 <= k < s.effects.len() && s.effects[k] == EffectV::LeaseChanged(mac, ip);
                assert(k == 0);
            }
        },
    }
}

/// Where a client keeps no address and none of the pool is free for it, nothing is sent, no lease
/// changes and none is announced.
pub proof fn lemma_nothing_free(st: ServerV, q: QueryV, now: u64, mac: Seq<char>, ip: u32)
    requires
        dhcp::kept_address(st, q.mac, now) is None,
        forall|j: int|
            0 <= j < st.pool_size ==> !dhcp::free_for(
                st,
                q.mac,
                #[trigger] net::pool_address(st.pool_start, j),
            ),
    ensures
        ({
            let s = dhcp::discover(st, q, now);
            &&& s.state == st
            &&& s.pending is None
            &&& !sends(s)
            &&& !announces(s, mac, ip)
        }),
{
    lemma_first_free(st, q.mac, 0);
    let s = dhcp::discover(st, q, now);
    assert(s.effects.len() == 1 && s.effects[0] is Log);
}

// ---------------------------------------------------------------- declined addresses

/// Something that the server has to deal with.
pub enum EventV {
    /// A packet with its sender and its time.
    Packet(Seq<u8>, u32, u64),
    /// The outcome of the probe that is waited for.
    Probe(bool),
}

/// The step that an event leads to after another step.
pub open spec fn next_step(s: StepV, e: EventV) -> StepV {
    match e {
        EventV::Packet(p, src_ip, now) => dhcp::on_packet(s.state, p, src_ip, now),
        EventV::Probe(used) => match s.pending {
            Some(w) => dhcp::after_probe(s.state, w, used),
            None => dhcp::done(s.state, Seq::empty()),
        },
    }
}

/// The last step after some events.
pub open spec fn play(st: ServerV, events: Seq<EventV>) -> StepV
    decreases events.len(),
{
    if events.len() == 0 {
        dhcp::done(st, Seq::empty())
    } else {
        next_step(play(st, events.drop_last()), events.last())
    }
}

/// The event is a valid packet of this type.
pub open spec fn is_message(e: EventV, msg_type: u8) -> bool {
    e matches EventV::Packet(p, _, _) && dhcp::valid(p) && dhcp_wire::message_type(
        dhcp_wire::options_from(p, 240),
    ) == Some(msg_type)
}

/// A client declines `ip`.
pub open spec fn declines(e: EventV, ip: u32) -> bool {
    is_message(e, MSG_DECLINE) && (e matches EventV::Packet(p, _, _) && dhcp_wire::address_option(
        dhcp_wire::options_from(p, 240),
        OPT_REQUESTED_IP,
    ) == Some(ip))
}

/// A client gives `ip` back.
pub open spec fn releases(e: EventV, ip: u32) -> bool {
    is_message(e, MSG_RELEASE) && (e matches EventV::Packet(p, src_ip, _) && dhcp::query_of(
        p,
        src_ip,
    ).ciaddr == ip)
}

/// A waiting offer is that of a packet, and not of a declined address.
spec fn pending_fine(s: StepV, ip: u32) -> bool {
    s.pending matches Some(w) ==> w.query.chaddr.len() == 16 && w.ip != ip
}

/// A step with one log line before it offers the same.
proof fn lemma_after_offers(line: EffectV, s: StepV, ip: u32)
    requires
        line is Log,
        !offers(s, ip),
    ensures
        !offers(dhcp::after(line, s), ip),
{
    let t = dhcp::after(line, s);
    if offers(t, ip) {
        let k = choose|k: int| 0 <= k < t.effects.len() && is_offer_of(#[trigger] t.effects[k], ip);
        assert(k > 0);
        assert(t.effects[k] == s.effects[k - 1]);
        assert(is_offer_of(s.effects[k - 1], ip));
    }
}

proof fn lemma_confirm_offers_nothing(st: ServerV, q: QueryV, addr: u32, now: u64, ip: u32)
    requires
        q.chaddr.len() == 16,
    ensures
        !offers(dhcp::confirm(st, q, addr, now), ip),
{
    let e = dhcp::confirm(st, q, addr, now).effects;
    lemma_answer_kind(st, q, addr, MSG_ACK, false);
    assert(e.len() == 3);
    assert(e[0] is Log && e[1] is LeaseChanged && !is_offer_of(e[2], ip));
}

proof fn lemma_refuse_offers_nothing(st: ServerV, q: QueryV, ip: u32)
    requires
        q.chaddr.len() == 16,
    ensures
        !offers(dhcp::refuse(st, q), ip),
{
    let e = dhcp::refuse(st, q).effects;
    lemma_answer_kind(st, q, 0, MSG_NAK, false);
    assert(e.len() == 2);
    assert(e[0] is Log && !is_offer_of(e[1], ip));
}

/// A REQUEST is never answered with an OFFER.
proof fn lemma_request_offers_nothing(
    st: ServerV,
    q: QueryV,
    opts: Seq<(u8, Seq<u8>)>,
    now: u64,
    ip: u32,
)
    requires
        q.chaddr.len() == 16,
    ensures
        !offers(dhcp::request(st, q, opts, now), ip),
        dhcp::request(st, q, opts, now).state.bad == st.bad,
        dhcp::request(st, q, opts, now).pending is None,
{
    lemma_refuse_offers_nothing(st, q, ip);
    lemma_confirm_offers_nothing(st, q, q.ciaddr, now, ip);
    if st.leases.contains_key(q.mac) {
        lemma_confirm_offers_nothing(st, q, st.leases[q.mac].ip, now, ip);
    }
    match dhcp::selected(st, q.mac, opts) {
        Some(x) => {
            lemma_confirm_offers_nothing(st, q, x, now, ip);
        },
        None => {},
    }
}

/// One event keeps a declined address declined and does not offer it, unless the address is given
/// back.
proof fn lemma_event_keeps_declined(s: StepV, e: EventV, ip: u32)
    requires
        s.state.bad.contains(ip),
        pending_fine(s, ip),
        !releases(e, ip),
    ensures
        next_step(s, e).state.bad.contains(ip),
        pending_fine(next_step(s, e), ip),
        !is_message(e, MSG_INFORM) ==> !offers(next_step(s, e), ip),
{
    match e {
        EventV::Packet(p, src_ip, now) => {
            if dhcp::valid(p) {
                let st = ServerV { last_activity: now, ..s.state };
                let q = dhcp::query_of(p, src_ip);
                let opts = dhcp_wire::options_from(p, 240);
                assert(q.chaddr.len() == 16);
                lemma_search_offers(st, q, 0, now, q.mac, ip);
                lemma_discover_offers(st, q, now, q.mac, ip);
                lemma_after_offers(dhcp::received("Discover"@, q), dhcp::discover(st, q, now), ip);
                lemma_request_offers_nothing(st, q, opts, now, ip);
                lemma_after_offers(dhcp::received("Rqst"@, q), dhcp::request(st, q, opts, now), ip);
                let t = next_step(s, e);
                assert(dhcp_wire::message_type(opts) != Some(MSG_DISCOVER)
                    && dhcp_wire::message_type(opts) != Some(MSG_INFORM)
                    && dhcp_wire::message_type(opts) != Some(dhcp_wire::MSG_REQUEST)
                    ==> forall|k: int| 0 <= k < t.effects.len() ==> (#[trigger] t.effects[k]) is Log);
            }
        },
        EventV::Probe(used) => match s.pending {
            Some(w) => {
                let line = EffectV::Log(
                    crate::log::LogLevel::Debug,
                    "Suppress used address "@ + net::ip_text(w.ip),
                );
                let rest = dhcp::search(s.state, w.query, w.index + 1, w.now);
                lemma_search_offers(s.state, w.query, w.index + 1, w.now, w.query.mac, ip);
                lemma_after_offers(line, rest, ip);
                lemma_offer_effects(s.state, w.query, w.ip, w.now);
            },
            None => {},
        },
    }
}

/// A declined address is not offered to anybody, not even to the client that holds a lease on it, and
/// is not probed for anybody, whatever comes in, until a client gives it back. (The answer to an INFORM,
/// which has the type of an OFFER too, offers no address.)
pub proof fn lemma_declined_not_offered(st: ServerV, events: Seq<EventV>, k: int, ip: u32)
    requires
        0 <= k < events.len(),
        declines(events[k], ip),
        forall|j: int| k < j < events.len() ==> !releases(#[trigger] events[j], ip),
    ensures
        ({
            let s = play(st, events);
            &&& s.state.bad.contains(ip)
            &&& s.pending matches Some(w) ==> w.ip != ip
            &&& !is_message(events.last(), MSG_INFORM) ==> !offers(s, ip)
        }),
{
    lemma_declined_after(st, events, k, ip);
}

proof fn lemma_declined_after(st: ServerV, events: Seq<EventV>, k: int, ip: u32)
    requires
        0 <= k < events.len(),
        declines(events[k], ip),
        forall|j: int| k < j < events.len() ==> !releases(#[trigger] events[j], ip),
    ensures
        play(st, events).state.bad.contains(ip),
        pending_fine(play(st, events), ip),
        !is_message(events.last(), MSG_INFORM) ==> !offers(play(st, events), ip),
    decreases events.len(),
{
    let init = events.drop_last();
    if k == events.len() - 1 {
        let s = play(st, events);
        assert(s.effects.len() == 1 && s.effects[0] is Log);
    } else {
        assert(init[k] == events[k]);
        assert forall|j: int| k < j < init.len() implies !releases(#[trigger] init[j], ip) by {
            assert(init[j] == events[j]);
        }
        lemma_declined_after(st, init, k, ip);
        lemma_event_keeps_declined(play(st, init), events.last(), ip);
    }
}

// ---------------------------------------------------------------- offers and requests

/// A client that asks for the address it was offered gets it, whatever came of the offer: the request
/// names this server or none, and names the offered address or none.
pub proof fn lemma_offer_then_request(
    st: ServerV,
    q: QueryV,
    ip: u32,
    now: u64,
    r: QueryV,
    opts: Seq<(u8, Seq<u8>)>,
    later: u64,
)
    requires
        r.mac == q.mac,
        r.ciaddr == 0,
        dhcp_wire::address_option(opts, OPT_SERVER_ID) is None || dhcp_wire::address_option(
            opts,
            OPT_SERVER_ID,
        ) == Some(st.server_ip),
        dhcp_wire::address_option(opts, OPT_REQUESTED_IP) is None || dhcp_wire::address_option(
            opts,
            OPT_REQUESTED_IP,
        ) == Some(ip),
    ensures
        ({
            let offered = dhcp::offer(st, q, ip, now).state;
            dhcp::request(offered, r, opts, later) == dhcp::confirm(offered, r, ip, later)
        }),
{
    let offered = dhcp::offer(st, q, ip, now).state;
    assert(offered.leases.contains_key(r.mac) && offered.leases[r.mac].ip == ip);
}

/// A client whose address was confirmed may renew it.
pub proof fn lemma_confirm_then_renew(
    st: ServerV,
    q: QueryV,
    ip: u32,
    now: u64,
    r: QueryV,
    opts: Seq<(u8, Seq<u8>)>,
    later: u64,
)
    requires
        ip != 0,
        r.mac == q.mac,
        r.ciaddr == ip,
        dhcp_wire::address_option(opts, OPT_SERVER_ID) is None || dhcp_wire::address_option(
            opts,
            OPT_SERVER_ID,
        ) == Some(st.server_ip),
    ensures
        ({
            let held = dhcp::confirm(st, q, ip, now).state;
            dhcp::request(held, r, opts, later) == dhcp::confirm(held, r, ip, later)
        }),
{
    let held = dhcp::confirm(st, q, ip, now).state;
    assert(held.leases.contains_key(r.mac) && held.leases[r.mac].ip == ip);
}

/// Once released, a lease is gone: a request to renew it is refused.
pub proof fn lemma_release_then_renew(
    st: ServerV,
    q: QueryV,
    r: QueryV,
    opts: Seq<(u8, Seq<u8>)>,
    now: u64,
)
    requires
        r.mac == q.mac,
        r.ciaddr != 0,
        dhcp_wire::address_option(opts, OPT_SERVER_ID) is None || dhcp_wire::address_option(
            opts,
            OPT_SERVER_ID,
        ) == Some(st.server_ip),
    ensures
        ({
            let gone = dhcp::release(st, q).state;
            &&& !gone.leases.contains_key(q.mac)
            &&& dhcp::request(gone, r, opts, now) == dhcp::refuse(gone, r)
        }),
{
}

/// A request that names another server changes no lease and is not answered.
pub proof fn lemma_other_server_is_silent(
    st: ServerV,
    q: QueryV,
    opts: Seq<(u8, Seq<u8>)>,
    now: u64,
    packet: Seq<u8>,
    ip: u32,
    port: u16,
)
    requires
        dhcp_wire::address_option(opts, OPT_SERVER_ID) matches Some(s) && s != st.server_ip,
    ensures
        dhcp::request(st, q, opts, now).state == st,
        !dhcp::request(st, q, opts, now).effects.contains(EffectV::Send(packet, ip, port)),
{
    let e = dhcp::request(st, q, opts, now).effects;
    if e.contains(EffectV::Send(packet, ip, port)) {
        let k = choose|k: int| 0 <= k < e.len() && e[k] == EffectV::Send(packet, ip, port);
        assert(k == 0);
    }
}

// ---------------------------------------------------------------- probing

/// Number of the first pool address from `from` on that is free for `mac` and not in use.
pub open spec fn first_unused(
    st: ServerV,
    mac: Seq<char>,
    from: int,
    in_use: spec_fn(u32) -> bool,
) -> Option<int>
    decreases st.pool_size - from,
{
    if from < 0 || from >= st.pool_size {
        None
    } else {
        let ip = net::pool_address(st.pool_start, from);
        if dhcp::free_for(st, mac, ip) && !in_use(ip) {
            Some(from)
        } else {
            first_unused(st, mac, from + 1, in_use)
        }
    }
}

/// The step after every probe that it waits for, with `in_use` as the outcome of the probes. `rounds`
/// bounds the number of probes.
pub open spec fn settle(s: StepV, in_use: spec_fn(u32) -> bool, rounds: nat) -> StepV
    decreases rounds,
{
    match s.pending {
        None => s,
        Some(p) => if rounds == 0 {
            s
        } else {
            settle(dhcp::after_probe(s.state, p, in_use(p.ip)), in_use, (rounds - 1) as nat)
        },
    }
}

/// `after` only adds an effect, so it makes no difference to how a step settles.
proof fn lemma_settle_after(e: EffectV, s: StepV, in_use: spec_fn(u32) -> bool, rounds: nat)
    ensures
        settle(dhcp::after(e, s), in_use, rounds).state == settle(s, in_use, rounds).state,
        settle(dhcp::after(e, s), in_use, rounds).pending == settle(s, in_use, rounds).pending,
        s.pending is Some && rounds > 0 ==> settle(dhcp::after(e, s), in_use, rounds) == settle(
            s,
            in_use,
            rounds,
        ),
{
}

/// With probing the first address that is free and not in use is offered; where there is none the
/// leases stay as they are. As many probes as the pool has addresses suffice.
pub proof fn lemma_probing_finds_first_unused(
    st: ServerV,
    q: QueryV,
    from: int,
    now: u64,
    in_use: spec_fn(u32) -> bool,
    rounds: nat,
)
    requires
        st.probing,
        0 <= from,
        rounds >= st.pool_size - from,
    ensures
        ({
            let s = settle(dhcp::search(st, q, from, now), in_use, rounds);
            &&& s.pending is None
            &&& match first_unused(st, q.mac, from, in_use) {
                Some(i) => s == dhcp::offer(
                    st,
                    q,
                    net::pool_address(st.pool_start, i),
                    now,
                ),
                None => s.state == st,
            }
        }),
    decreases st.pool_size - from,
{
    lemma_first_free(st, q.mac, from);
    match dhcp::first_free(st, q.mac, from) {
        None => {
            lemma_none_unused(st, q.mac, from, in_use);
        },
        Some(i) => {
            let s = dhcp::search(st, q, from, now);
            let p = s.pending->0;
            assert(i as u32 == i);
            lemma_skip_to(st, q.mac, from, i, in_use);
            let next = dhcp::after_probe(st, p, in_use(p.ip));
            assert(settle(s, in_use, rounds) == settle(next, in_use, (rounds - 1) as nat));
            if in_use(p.ip) {
                lemma_probing_finds_first_unused(st, q, i + 1, now, in_use, (rounds - 1) as nat);
                let rest = dhcp::search(st, q, i + 1, now);
                let e = EffectV::Log(
                    crate::log::LogLevel::Debug,
                    "Suppress used address "@ + net::ip_text(p.ip),
                );
                assert(next == dhcp::after(e, rest));
                lemma_settle_after(e, rest, in_use, (rounds - 1) as nat);
                lemma_first_free(st, q.mac, i + 1);
                if rest.pending is None {
                    lemma_none_unused(st, q.mac, i + 1, in_use);
                }
            }
        },
    }
}

proof fn lemma_none_unused(st: ServerV, mac: Seq<char>, from: int, in_use: spec_fn(u32) -> bool)
    requires
        0 <= from,
        dhcp::first_free(st, mac, from) is None,
    ensures
        first_unused(st, mac, from, in_use) is None,
    decreases st.pool_size - from,
{
    if from < st.pool_size {
        lemma_none_unused(st, mac, from + 1, in_use);
    }
}

proof fn lemma_skip_to(
    st: ServerV,
    mac: Seq<char>,
    from: int,
    i: int,
    in_use: spec_fn(u32) -> bool,
)
    requires
        0 <= from <= i,
        dhcp::first_free(st, mac, from) == Some(i),
    ensures
        first_unused(st, mac, from, in_use) == first_unused(st, mac, i, in_use),
    decreases i - from,
{
    if from < i {
        lemma_first_free(st, mac, from + 1);
        lemma_skip_to(st, mac, from + 1, i, in_use);
    }
}

// ---------------------------------------------------------------- stored leases

/// What the table holds after stored leases were taken over comes from the table before or from a
/// stored lease that has not ended, and the table has grown to the size of the pool at most.
pub proof fn lemma_seed_sources(
    t: Map<Seq<char>, Lease>,
    records: Seq<(Seq<char>, u32, u64)>,
    now: u64,
    pool_size: u32,
)
    requires
        t.dom().finite(),
    ensures
        ({
            let u = dhcp::seed(t, records, now, pool_size);
            &&& u.dom().finite()
            &&& u.len() <= t.len() || u.len() <= pool_size
            &&& forall|m: Seq<char>| #[trigger]
                u.contains_key(m) ==> (t.contains_key(m) && u[m] == t[m]) || exists|i: int|
                    0 <= i < records.len() && (#[trigger] records[i]).0 == m && records[i].1
                        == u[m].ip && records[i].2 == u[m].expires_unix && records[i].2 > now
        }),
    decreases records.len(),
{
    if records.len() > 0 {
        let init = records.drop_last();
        let r = records.last();
        lemma_seed_sources(t, init, now, pool_size);
        let v = dhcp::seed(t, init, now, pool_size);
        let u = dhcp::seed(t, records, now, pool_size);
        assert forall|m: Seq<char>| #[trigger] u.contains_key(m) implies (t.contains_key(m)
            && u[m] == t[m]) || exists|i: int|
            0 <= i < records.len() && (#[trigger] records[i]).0 == m && records[i].1 == u[m].ip
                && records[i].2 == u[m].expires_unix && records[i].2 > now by {
            if u == v.insert(
                r.0,
                Lease { ip: r.1, expires_unix: r.2, acked: false },
            ) && m == r.0 && r.2 > now {
                assert(records[records.len() - 1] == r);
            } else {
                assert(v.contains_key(m));
                if !(t.contains_key(m) && v[m] == t[m]) {
                    let i = choose|i: int|
                        0 <= i < init.len() && (#[trigger] init[i]).0 == m && init[i].1 == v[m].ip
                            && init[i].2 == v[m].expires_unix && init[i].2 > now;
                    assert(records[i] == init[i]);
                }
            }
        }
    }
}

/// Stored leases with different hardware addresses, no more than the pool has room for, are all taken
/// over, except those that have ended.
pub proof fn lemma_seed_keeps(
    records: Seq<(Seq<char>, u32, u64)>,
    now: u64,
    pool_size: u32,
    k: int,
)
    requires
        records.len() <= pool_size,
        forall|i: int, j: int|
            0 <= i < j < records.len() ==> (#[trigger] records[i]).0 != (#[trigger] records[j]).0,
        0 <= k < records.len(),
        records[k].2 > now,
    ensures
        ({
            let u = dhcp::seed(Map::empty(), records, now, pool_size);
            &&& u.contains_key(records[k].0)
            &&& u[records[k].0] == (Lease {
                ip: records[k].1,
                expires_unix: records[k].2,
                acked: false,
            })
        }),
    decreases records.len(),
{
    let init = records.drop_last();
    let v = dhcp::seed(Map::empty(), init, now, pool_size);
    lemma_seed_len(init, now, pool_size);
    assert(records.last() == records[records.len() - 1]);
    if k < records.len() - 1 {
        assert(init[k] == records[k]);
        assert forall|i: int, j: int| 0 <= i < j < init.len() implies (#[trigger] init[i]).0 != (
        #[trigger] init[j]).0 by {
            assert(records[i].0 != records[j].0);
        }
        lemma_seed_keeps(init, now, pool_size, k);
        assert(records[k].0 != records[records.len() - 1].0);
    }
}

proof fn lemma_seed_len(records: Seq<(Seq<char>, u32, u64)>, now: u64, pool_size: u32)
    ensures
        dhcp::seed(Map::empty(), records, now, pool_size).dom().finite(),
        dhcp::seed(Map::empty(), records, now, pool_size).len() <= records.len(),
    decreases records.len(),
{
    if records.len() > 0 {
        lemma_seed_len(records.drop_last(), now, pool_size);
    }
}

/// A hardware address keeps its address from one session to the next: a server that took over the
/// leases of an earlier one offers each client the address that it had, as long as the lease has not
/// ended.
pub proof fn lemma_address_survives_restart(
    fresh: ServerV,
    snap: Seq<(String, u32, u64)>,
    t: Map<Seq<char>, Lease>,
    seeded_at: u64,
    q: QueryV,
    now: u64,
)
    requires
        fresh.leases == Map::<Seq<char>, Lease>::empty(),
        fresh.bad == Set::<u32>::empty(),
        lease_table::lists(snap, t),
        t.len() <= fresh.pool_size,
        t.contains_key(q.mac),
        t[q.mac].expires_unix > seeded_at,
        t[q.mac].expires_unix > now,
    ensures
        ({
            let st = ServerV {
                leases: dhcp::seed(
                    fresh.leases,
                    dhcp::record_views(snap),
                    seeded_at,
                    fresh.pool_size,
                ),
                ..fresh
            };
            dhcp::discover(st, q, now) == dhcp::offer(st, q, t[q.mac].ip, now)
        }),
{
    let records = dhcp::record_views(snap);
    let k = choose|k: int| 0 <= k < snap.len() && (#[trigger] snap[k]).0@ == q.mac;
    assert(records[k] == (snap[k].0@, snap[k].1, snap[k].2));
    assert forall|i: int, j: int| 0 <= i < j < records.len() implies (#[trigger] records[i]).0 != (
    #[trigger] records[j]).0 by {
        assert(snap[i].0@ != snap[j].0@);
    }
    lemma_seed_keeps(records, seeded_at, fresh.pool_size, k);
}

/// Leases taken over from a table in which every address has one holder leave every address one
/// holder.
pub proof fn lemma_restart_keeps_exclusive(
    snap: Seq<(String, u32, u64)>,
    t: Map<Seq<char>, Lease>,
    now: u64,
    pool_size: u32,
)
    requires
        lease_table::lists(snap, t),
        exclusive(t),
    ensures
        exclusive(dhcp::seed(Map::empty(), dhcp::record_views(snap), now, pool_size)),
{
    let records = dhcp::record_views(snap);
    let u = dhcp::seed(Map::empty(), records, now, pool_size);
    lemma_seed_sources(Map::empty(), records, now, pool_size);
    assert forall|m: Seq<char>| #[trigger] u.contains_key(m) implies t.contains_key(m) && t[m].ip
        == u[m].ip by {
        let i = choose|i: int|
            0 <= i < records.len() && (#[trigger] records[i]).0 == m && records[i].1 == u[m].ip
                && records[i].2 == u[m].expires_unix && records[i].2 > now;
        assert(t.contains_key(snap[i].0@));
    }
    assert forall|a: Seq<char>, b: Seq<char>|
        #![trigger u.contains_key(a), u.contains_key(b)]
        u.contains_key(a) && u.contains_key(b) && u[a].ip == u[b].ip implies text::same_letters(
        a,
        b,
    ) by {
        assert(t.contains_key(a) && t.contains_key(b));
    }
}

} // verus!
