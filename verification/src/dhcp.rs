//! The DHCP server: what it remembers and how it answers.
//!
//! The server is a state and a set of transitions. A transition takes the bytes of a packet and the
//! time, and gives the effects that the packet has on the outside, in order. Where an address must be
//! probed before it is offered, the transition stops at a `PendingOffer`, and `resume` goes on with
//! the outcome of the probe.

use std::collections::HashSet;

use vstd::prelude::*;
use vstd::string::*;

use crate::bytes;
use crate::config::LEASE_SECONDS;
use crate::dhcp_wire;
use crate::dhcp_wire::{
    DhcpOption, Reply, MAGIC_COOKIE, MSG_ACK, MSG_DECLINE, MSG_DISCOVER, MSG_INFORM, MSG_NAK,
    MSG_OFFER, MSG_RELEASE, MSG_REQUEST, OPTIONS_START, OPT_REQUESTED_IP, OPT_SERVER_ID,
};
use crate::lease_table;
use crate::lease_table::{Lease, LeaseTable};
use crate::log::LogLevel;
use crate::net;

verus! {

broadcast use vstd::std_specs::hash::group_hash_axioms;

// ---------------------------------------------------------------- model

/// Something that a packet makes the server do.
pub enum Effect {
    /// A line for the log.
    Log(LogLevel, String),
    /// The lease of a hardware address was offered or confirmed.
    LeaseChanged(String, u32),
    /// A datagram to an address and UDP port.
    Send { packet: Vec<u8>, ip: u32, port: u16 },
}

/// What an effect says.
pub enum EffectV {
    Log(LogLevel, Seq<char>),
    LeaseChanged(Seq<char>, u32),
    Send(Seq<u8>, u32, u16),
}

impl View for Effect {
    type V = EffectV;

    open spec fn view(&self) -> EffectV {
        match *self {
            Effect::Log(l, s) => EffectV::Log(l, s@),
            Effect::LeaseChanged(m, ip) => EffectV::LeaseChanged(m@, ip),
            Effect::Send { packet, ip, port } => EffectV::Send(packet@, ip, port),
        }
    }
}

/// What a list of effects says.
pub open spec fn effect_views(v: Seq<Effect>) -> Seq<EffectV> {
    v.map_values(|e: Effect| e@)
}

/// The fixed part of a request.
pub struct Query {
    pub xid: u32,
    pub flags: u16,
    pub ciaddr: u32,
    pub giaddr: u32,
    /// The sixteen bytes of the hardware address field.
    pub chaddr: Vec<u8>,
    /// The hardware address as text.
    pub mac: String,
    /// Address that the datagram came from.
    pub src_ip: u32,
}

/// What a request says.
#[verifier::ext_equal]
pub struct QueryV {
    pub xid: u32,
    pub flags: u16,
    pub ciaddr: u32,
    pub giaddr: u32,
    pub chaddr: Seq<u8>,
    pub mac: Seq<char>,
    pub src_ip: u32,
}

impl View for Query {
    type V = QueryV;

    open spec fn view(&self) -> QueryV {
        QueryV {
            xid: self.xid,
            flags: self.flags,
            ciaddr: self.ciaddr,
            giaddr: self.giaddr,
            chaddr: self.chaddr@,
            mac: self.mac@,
            src_ip: self.src_ip,
        }
    }
}

/// An offer that waits for the probe of its address.
pub struct PendingOffer {
    pub query: Query,
    /// Number of the address in the pool.
    pub index: u32,
    /// The address to probe.
    pub ip: u32,
    /// Time at which the request came in.
    pub now: u64,
}

/// What a waiting offer says.
pub struct PendingV {
    pub query: QueryV,
    pub index: u32,
    pub ip: u32,
    pub now: u64,
}

impl View for PendingOffer {
    type V = PendingV;

    open spec fn view(&self) -> PendingV {
        PendingV { query: self.query@, index: self.index, ip: self.ip, now: self.now }
    }
}

/// Outcome of a transition: effects to perform now, and an offer that waits for a probe.
pub struct Step {
    pub effects: Vec<Effect>,
    pub pending: Option<PendingOffer>,
}

/// State of the server.
pub struct ServerV {
    pub server_ip: u32,
    pub pool_start: u32,
    pub pool_size: u32,
    pub lease_seconds: u32,
    /// Addresses are probed before they are offered to a new client.
    pub probing: bool,
    pub leases: Map<Seq<char>, Lease>,
    /// Addresses that clients have declined.
    pub bad: Set<u32>,
    /// Unix second of the last valid packet from a client; 0 before the first.
    pub last_activity: u64,
}

/// Outcome of a transition of the model.
pub struct StepV {
    pub state: ServerV,
    pub effects: Seq<EffectV>,
    pub pending: Option<PendingV>,
}

pub open spec fn pending_view(p: Option<PendingOffer>) -> Option<PendingV> {
    match p {
        Some(p) => Some(p@),
        None => None,
    }
}

/// Nothing happens but `effects`.
pub open spec fn done(state: ServerV, effects: Seq<EffectV>) -> StepV {
    StepV { state, effects, pending: None }
}

/// The same step with one effect before the others.
pub open spec fn after(e: EffectV, s: StepV) -> StepV {
    StepV { effects: seq![e] + s.effects, ..s }
}

/// The datagram that answers `q`.
pub open spec fn answer(st: ServerV, q: QueryV, addr: u32, msg_type: u8, is_inform: bool) -> EffectV {
    let r = Reply {
        xid: q.xid,
        flags: q.flags,
        giaddr: q.giaddr,
        addr,
        msg_type,
        is_inform,
        server_ip: st.server_ip,
        lease_seconds: st.lease_seconds,
    };
    let to = net::reply_target(q.src_ip, q.giaddr, q.flags);
    EffectV::Send(dhcp_wire::reply_bytes(r, q.chaddr), to.0, to.1)
}

/// The state after `mac` got the lease `l`.
pub open spec fn with_lease(st: ServerV, mac: Seq<char>, l: Lease) -> ServerV {
    ServerV { leases: st.leases.insert(mac, l), ..st }
}

// ---------------------------------------------------------------- DISCOVER

/// The address that `mac` keeps: that of its lease, where the lease has not ended and the address was
/// not declined.
pub open spec fn kept_address(st: ServerV, mac: Seq<char>, now: u64) -> Option<u32> {
    if st.leases.contains_key(mac) && st.leases[mac].expires_unix > now && !st.bad.contains(
        st.leases[mac].ip,
    ) {
        Some(st.leases[mac].ip)
    } else {
        None
    }
}

/// `ip` may be offered to `mac`: it is not the server's own, not declined, and no other hardware
/// address holds it, not even one whose lease has ended.
pub open spec fn free_for(st: ServerV, mac: Seq<char>, ip: u32) -> bool {
    ip != st.server_ip && !st.bad.contains(ip) && !lease_table::held_elsewhere(st.leases, mac, ip)
}

/// Number of the first pool address from `from` on that may be offered to `mac`.
pub open spec fn first_free(st: ServerV, mac: Seq<char>, from: int) -> Option<int>
    decreases st.pool_size - from,
{
    if from < 0 || from >= st.pool_size {
        None
    } else if free_for(st, mac, net::pool_address(st.pool_start, from)) {
        Some(from)
    } else {
        first_free(st, mac, from + 1)
    }
}

/// A lease that waits 60 seconds for the client to confirm it.
pub open spec fn offered_lease(ip: u32, now: u64) -> Lease {
    Lease { ip, expires_unix: (now + 60) as u64, acked: false }
}

/// `ip` is offered to the client.
pub open spec fn offer(st: ServerV, q: QueryV, ip: u32, now: u64) -> StepV {
    done(
        with_lease(st, q.mac, offered_lease(ip, now)),
        seq![
            EffectV::Log(LogLevel::Info, "DHCP: proposed address "@ + net::ip_text(ip)),
            EffectV::LeaseChanged(q.mac, ip),
            answer(st, q, ip, MSG_OFFER, false),
        ],
    )
}

/// The pool is searched from address number `from` on. With probing the search stops at the first
/// address that may be offered.
pub open spec fn search(st: ServerV, q: QueryV, from: int, now: u64) -> StepV {
    match first_free(st, q.mac, from) {
        None => done(st, seq![EffectV::Log(LogLevel::Error, "DHCP Pool is empty"@)]),
        Some(i) => {
            let ip = net::pool_address(st.pool_start, i);
            if st.probing {
                StepV {
                    state: st,
                    effects: Seq::empty(),
                    pending: Some(PendingV { query: q, index: i as u32, ip, now }),
                }
            } else {
                offer(st, q, ip, now)
            }
        },
    }
}

/// A client looks for an address: it keeps the one it has, or gets the first free one.
pub open spec fn discover(st: ServerV, q: QueryV, now: u64) -> StepV {
    match kept_address(st, q.mac, now) {
        Some(ip) => offer(st, q, ip, now),
        None => search(st, q, 0, now),
    }
}

/// The probe of a waiting offer came back: a used address is passed over.
pub open spec fn after_probe(st: ServerV, p: PendingV, used: bool) -> StepV {
    if used {
        after(
            EffectV::Log(LogLevel::Debug, "Suppress used address "@ + net::ip_text(p.ip)),
            search(st, p.query, p.index + 1, p.now),
        )
    } else {
        offer(st, p.query, p.ip, p.now)
    }
}

// ---------------------------------------------------------------- REQUEST

/// The lease of `q.mac` on `ip` is confirmed for the full lease time.
pub open spec fn confirm(st: ServerV, q: QueryV, ip: u32, now: u64) -> StepV {
    done(
        with_lease(
            st,
            q.mac,
            Lease { ip, expires_unix: (now + st.lease_seconds) as u64, acked: true },
        ),
        seq![
            EffectV::Log(
                LogLevel::Debug,
                "Previously allocated address "@ + net::ip_text(ip) + " acked"@,
            ),
            EffectV::LeaseChanged(q.mac, ip),
            answer(st, q, ip, MSG_ACK, false),
        ],
    )
}

/// The request is refused.
pub open spec fn refuse(st: ServerV, q: QueryV) -> StepV {
    done(
        st,
        seq![EffectV::Log(LogLevel::Warn, "DHCP Nak"@), answer(st, q, 0, MSG_NAK, false)],
    )
}

/// The address that the client selects, where it may have it: in the pool, not declined, and its own
/// or held by nobody.
pub open spec fn selected(st: ServerV, mac: Seq<char>, opts: Seq<(u8, Seq<u8>)>) -> Option<u32> {
    match dhcp_wire::address_option(opts, OPT_REQUESTED_IP) {
        Some(ip) => {
            let ours = st.leases.contains_key(mac) && st.leases[mac].ip == ip;
            if net::pool_holds(ip, st.pool_start, st.pool_size) && !st.bad.contains(ip) && (ours
                || !lease_table::held(st.leases, ip)) {
                Some(ip)
            } else {
                None
            }
        },
        None => None,
    }
}

/// A client asks for an address, or to go on with the one it has.
pub open spec fn request(
    st: ServerV,
    q: QueryV,
    opts: Seq<(u8, Seq<u8>)>,
    now: u64,
) -> StepV {
    let named = dhcp_wire::address_option(opts, OPT_SERVER_ID);
    if named is Some && named != Some(st.server_ip) {
        done(st, seq![EffectV::Log(LogLevel::Warn, "DHCP Double Answer : ignored"@)])
    } else if q.ciaddr != 0 {
        if st.leases.contains_key(q.mac) && st.leases[q.mac].ip == q.ciaddr {
            confirm(st, q, q.ciaddr, now)
        } else {
            refuse(st, q)
        }
    } else {
        match selected(st, q.mac, opts) {
            Some(ip) => confirm(st, q, ip, now),
            None => if st.leases.contains_key(q.mac) {
                confirm(st, q, st.leases[q.mac].ip, now)
            } else {
                refuse(st, q)
            },
        }
    }
}

// ---------------------------------------------------------------- RELEASE, DECLINE, INFORM

/// A client gives its lease back; an address that it names is no longer counted as declined.
pub open spec fn release(st: ServerV, q: QueryV) -> StepV {
    done(
        ServerV {
            leases: st.leases.remove(q.mac),
            bad: if q.ciaddr != 0 {
                st.bad.remove(q.ciaddr)
            } else {
                st.bad
            },
            ..st
        },
        if st.leases.contains_key(q.mac) {
            seq![EffectV::Log(LogLevel::Debug, "item "@ + q.mac + " released"@)]
        } else {
            Seq::empty()
        },
    )
}

/// A client found its address in use: the address is not offered any more.
pub open spec fn decline(st: ServerV, opts: Seq<(u8, Seq<u8>)>) -> StepV {
    done(
        match dhcp_wire::address_option(opts, OPT_REQUESTED_IP) {
            Some(ip) => ServerV { bad: st.bad.insert(ip), ..st },
            None => st,
        },
        Seq::empty(),
    )
}

/// A client with an address of its own asks for the settings.
pub open spec fn inform(st: ServerV, q: QueryV) -> StepV {
    done(st, seq![answer(st, q, 0, MSG_OFFER, true)])
}

// ---------------------------------------------------------------- packets

/// An Ethernet BOOTREQUEST whose hardware address length is 6 to 16.
pub open spec fn header_ok(p: Seq<u8>) -> bool {
    p.len() >= 240 && p[0] == 1 && p[1] == 1 && 6 <= p[2] <= 16
}

/// The fixed part of the request `p`.
pub open spec fn query_of(p: Seq<u8>, src_ip: u32) -> QueryV {
    QueryV {
        xid: bytes::be32_at(p, 4) as u32,
        flags: bytes::be16_at(p, 10) as u16,
        ciaddr: bytes::be32_at(p, 12) as u32,
        giaddr: bytes::be32_at(p, 24) as u32,
        chaddr: p.subrange(28, 44),
        mac: net::mac_text(p.subrange(28, 28 + p[2])),
        src_ip,
    }
}

/// A line that says which request came in.
pub open spec fn received(what: Seq<char>, q: QueryV) -> EffectV {
    EffectV::Log(
        LogLevel::Debug,
        "Rcvd DHCP "@ + what + " Msg for IP "@ + net::ip_text(q.ciaddr) + ", Mac "@ + q.mac,
    )
}

/// What the message type of a request leads to.
pub open spec fn dispatch(
    st: ServerV,
    q: QueryV,
    opts: Seq<(u8, Seq<u8>)>,
    now: u64,
) -> StepV {
    match dhcp_wire::message_type(opts) {
        None => done(st, Seq::empty()),
        Some(t) => if t == MSG_DISCOVER {
            after(received("Discover"@, q), discover(st, q, now))
        } else if t == MSG_REQUEST {
            after(received("Rqst"@, q), request(st, q, opts, now))
        } else if t == MSG_RELEASE {
            after(received("release"@, q), release(st, q))
        } else if t == MSG_DECLINE {
            after(EffectV::Log(LogLevel::Debug, "DHCP decline"@), decline(st, opts))
        } else if t == MSG_INFORM {
            after(EffectV::Log(LogLevel::Debug, "DHCP inform"@), inform(st, q))
        } else {
            done(st, Seq::empty())
        },
    }
}

/// A packet that passes validation: the header is in order and the DHCP cookie follows it.
pub open spec fn valid(p: Seq<u8>) -> bool {
    header_ok(p) && bytes::be32_at(p, 236) == MAGIC_COOKIE
}

/// What a packet leads to. Only a packet that passes validation moves the time of the last activity, so
/// that other traffic on the port does not pass for a router; anything else changes nothing. A valid
/// packet without a message type, or with one that the server does not handle, moves the time and does
/// nothing else.
pub open spec fn on_packet(st: ServerV, p: Seq<u8>, src_ip: u32, now: u64) -> StepV {
    if !valid(p) {
        done(st, Seq::empty())
    } else {
        let seen = ServerV { last_activity: now, ..st };
        dispatch(seen, query_of(p, src_ip), dhcp_wire::options_from(p, 240), now)
    }
}

/// The clock leaves room for the end of a lease.
pub open spec fn clock_ok(now: u64) -> bool {
    now <= u64::MAX - u32::MAX
}

// ---------------------------------------------------------------- stored leases

/// One stored lease is taken over unless it has ended or the table holds as many leases as the pool
/// has addresses.
pub open spec fn seed_one(
    t: Map<Seq<char>, Lease>,
    r: (Seq<char>, u32, u64),
    now: u64,
    pool_size: u32,
) -> Map<Seq<char>, Lease> {
    if r.2 > now && t.len() < pool_size {
        t.insert(r.0, Lease { ip: r.1, expires_unix: r.2, acked: false })
    } else {
        t
    }
}

/// Stored leases are taken over one after the other.
pub open spec fn seed(
    t: Map<Seq<char>, Lease>,
    records: Seq<(Seq<char>, u32, u64)>,
    now: u64,
    pool_size: u32,
) -> Map<Seq<char>, Lease>
    decreases records.len(),
{
    if records.len() == 0 {
        t
    } else {
        seed_one(seed(t, records.drop_last(), now, pool_size), records.last(), now, pool_size)
    }
}

/// What stored leases say.
pub open spec fn record_views(v: Seq<(String, u32, u64)>) -> Seq<(Seq<char>, u32, u64)> {
    v.map_values(|r: (String, u32, u64)| (r.0@, r.1, r.2))
}

// ---------------------------------------------------------------- the server

/// The DHCP server.
pub struct DhcpServer {
    server_ip: u32,
    pool_start: u32,
    pool_size: u32,
    lease_seconds: u32,
    bind: u32,
    probing: bool,
    leases: LeaseTable,
    bad_ips: HashSet<u32>,
    last_activity: u64,
}

impl View for DhcpServer {
    type V = ServerV;

    closed spec fn view(&self) -> ServerV {
        ServerV {
            server_ip: self.server_ip,
            pool_start: self.pool_start,
            pool_size: self.pool_size,
            lease_seconds: self.lease_seconds,
            probing: self.probing,
            leases: self.leases@,
            bad: self.bad_ips@,
            last_activity: self.last_activity,
        }
    }
}

fn note(effects: &mut Vec<Effect>, level: LogLevel, line: String)
    ensures
        effect_views(final(effects)@) == effect_views(old(effects)@).push(EffectV::Log(level, line@)),
{
    effects.push(Effect::Log(level, line));
    assert(effect_views(effects@) =~= effect_views(old(effects)@).push(EffectV::Log(level, line@)));
}

fn note_changed(effects: &mut Vec<Effect>, mac: &String, ip: u32)
    ensures
        effect_views(final(effects)@) == effect_views(old(effects)@).push(
            EffectV::LeaseChanged(mac@, ip),
        ),
{
    effects.push(Effect::LeaseChanged(mac.clone(), ip));
    assert(effect_views(effects@) =~= effect_views(old(effects)@).push(
        EffectV::LeaseChanged(mac@, ip),
    ));
}

fn address_line(head: &str, ip: u32, tail: &str) -> (r: String)
    ensures
        r@ == head@ + net::ip_text(ip) + tail@,
{
    let mut line: String = head.to_owned();
    let addr: String = net::ip_string(ip);
    line.append(addr.as_str());
    line.append(tail);
    line
}

fn received_line(what: &str, q: &Query) -> (r: String)
    ensures
        received(what@, q@) == EffectV::Log(LogLevel::Debug, r@),
{
    let mut line: String = "Rcvd DHCP ".to_owned();
    line.append(what);
    line.append(" Msg for IP ");
    let addr: String = net::ip_string(q.ciaddr);
    line.append(addr.as_str());
    line.append(", Mac ");
    line.append(q.mac.as_str());
    line
}

impl DhcpServer {
    /// The table of leases is in order.
    pub closed spec fn wf(&self) -> bool {
        self.leases.wf()
    }

    /// Address that the server listens on.
    pub closed spec fn bound_to(&self) -> u32 {
        self.bind
    }

    /// A server without leases that listens on every address and does not probe.
    pub fn new(server_ip: u32, pool_start: u32, pool_size: u32) -> (r: Self)
        ensures
            r.wf(),
            r.bound_to() == 0,
            r@ == (ServerV {
                server_ip,
                pool_start,
                pool_size,
                lease_seconds: LEASE_SECONDS,
                probing: false,
                leases: Map::empty(),
                bad: Set::empty(),
                last_activity: 0,
            }),
            r@ == Self::fresh(server_ip, pool_start, pool_size),
    {
        Self::with_bind(server_ip, pool_start, pool_size, 0)
    }

    /// The state of a server that has not heard of any client.
    pub open spec fn fresh(server_ip: u32, pool_start: u32, pool_size: u32) -> ServerV {
        ServerV {
            server_ip,
            pool_start,
            pool_size,
            lease_seconds: LEASE_SECONDS,
            probing: false,
            leases: Map::empty(),
            bad: Set::empty(),
            last_activity: 0,
        }
    }

    /// A server without leases that listens on `bind` and does not probe.
    pub fn with_bind(server_ip: u32, pool_start: u32, pool_size: u32, bind: u32) -> (r: Self)
        ensures
            r.wf(),
            r.bound_to() == bind,
            r@ == (ServerV {
                server_ip,
                pool_start,
                pool_size,
                lease_seconds: LEASE_SECONDS,
                probing: false,
                leases: Map::empty(),
                bad: Set::empty(),
                last_activity: 0,
            }),
            r@ == Self::fresh(server_ip, pool_start, pool_size),
    {
        DhcpServer {
            server_ip,
            pool_start,
            pool_size,
            lease_seconds: LEASE_SECONDS,
            bind,
            probing: false,
            leases: LeaseTable::new(),
            bad_ips: HashSet::new(),
            last_activity: 0,
        }
    }

    /// Address that the server listens on.
    pub fn bind_address(&self) -> (r: u32)
        ensures
            r == self.bound_to(),
    {
        self.bind
    }

    /// Whether addresses are probed before they are offered to a new client.
    pub fn set_probe(&mut self, on: bool)
        ensures
            final(self)@ == (ServerV { probing: on, ..old(self)@ }),
            final(self).wf() == old(self).wf(),
            final(self).bound_to() == old(self).bound_to(),
    {
        self.probing = on;
    }

    /// All leases: hardware address, address, end.
    pub fn leases_snapshot(&self) -> (r: Vec<(String, u32, u64)>)
        requires
            self.wf(),
        ensures
            lease_table::lists(r@, self@.leases),
    {
        self.leases.snapshot()
    }

    /// Unix second of the last valid packet from a client; 0 before the first.
    pub fn last_activity_unix(&self) -> (r: u64)
        ensures
            r == self@.last_activity,
    {
        self.last_activity
    }

    /// Takes over stored leases. Ended ones are left out, and so is what comes once the table holds as
    /// many leases as the pool has addresses.
    pub fn seed_leases(&mut self, records: Vec<(String, u32, u64)>, now: u64)
        requires
            old(self).wf(),
        ensures
            final(self).wf(),
            final(self).bound_to() == old(self).bound_to(),
            final(self)@ == (ServerV {
                leases: seed(
                    old(self)@.leases,
                    record_views(records@),
                    now,
                    old(self)@.pool_size,
                ),
                ..old(self)@
            }),
    {
        let ghost rv = record_views(records@);
        let mut i: usize = 0;
        assert(rv.take(0) =~= Seq::empty());
        while i < records.len()
            invariant
                i <= records@.len(),
                rv == record_views(records@),
                self.wf(),
                self.bound_to() == old(self).bound_to(),
                self@ == (ServerV {
                    leases: seed(old(self)@.leases, rv.take(i as int), now, old(self)@.pool_size),
                    ..old(self)@
                }),
            decreases records@.len() - i,
        {
            let r: &(String, u32, u64) = &records[i];
            proof {
                assert(rv.take(i + 1).drop_last() == rv.take(i as int));
                assert(rv.take(i + 1).last() == (r.0@, r.1, r.2));
            }
            if r.2 > now && self.leases.len() < self.pool_size as usize {
                self.leases.put(
                    r.0.as_str(),
                    Lease { ip: r.1, expires_unix: r.2, acked: false },
                );
            }
            i = i + 1;
        }
        assert(rv.take(i as int) == rv);
    }

    /// Appends the datagram that answers `q`.
    fn note_answer(
        &self,
        effects: &mut Vec<Effect>,
        q: &Query,
        addr: u32,
        msg_type: u8,
        is_inform: bool,
    )
        ensures
            effect_views(final(effects)@) == effect_views(old(effects)@).push(
                answer(self@, q@, addr, msg_type, is_inform),
            ),
    {
        let r = Reply {
            xid: q.xid,
            flags: q.flags,
            giaddr: q.giaddr,
            addr,
            msg_type,
            is_inform,
            server_ip: self.server_ip,
            lease_seconds: self.lease_seconds,
        };
        let packet: Vec<u8> = dhcp_wire::build_reply(&r, q.chaddr.as_slice());
        let to: (u32, u16) = net::reply_destination(q.src_ip, q.giaddr, q.flags);
        effects.push(Effect::Send { packet, ip: to.0, port: to.1 });
        assert(effect_views(effects@) =~= effect_views(old(effects)@).push(
            answer(self@, q@, addr, msg_type, is_inform),
        ));
    }

    /// Offers `ip` to the client.
    fn make_offer(&mut self, effects: &mut Vec<Effect>, q: &Query, ip: u32, now: u64)
        requires
            old(self).wf(),
            clock_ok(now),
        ensures
            final(self).wf(),
            final(self).bound_to() == old(self).bound_to(),
            final(self)@ == offer(old(self)@, q@, ip, now).state,
            effect_views(final(effects)@) == effect_views(old(effects)@) + offer(
                old(self)@,
                q@,
                ip,
                now,
            ).effects,
    {
        let ghost before = effect_views(effects@);
        self.leases.put(q.mac.as_str(), Lease { ip, expires_unix: now + 60, acked: false });
        let line: String = address_line("DHCP: proposed address ", ip, "");
        proof {
            reveal_strlit("");
            assert(line@ =~= "DHCP: proposed address "@ + net::ip_text(ip));
        }
        note(effects, LogLevel::Info, line);
        note_changed(effects, &q.mac, ip);
        self.note_answer(effects, q, ip, MSG_OFFER, false);
        assert(answer(self@, q@, ip, MSG_OFFER, false) == answer(old(self)@, q@, ip, MSG_OFFER, false));
        assert(effect_views(effects@) =~= before + offer(old(self)@, q@, ip, now).effects);
    }

    /// Number of the first pool address from `from` on that may be offered to `mac`.
    fn find_free(&self, mac: &str, from: u32) -> (r: Option<u32>)
        requires
            self.wf(),
        ensures
            match r {
                Some(i) => first_free(self@, mac@, from as int) == Some(i as int),
                None => first_free(self@, mac@, from as int) is None,
            },
    {
        let mut i: u32 = from;
        while i < self.pool_size
            invariant
                self.wf(),
                first_free(self@, mac@, from as int) == first_free(self@, mac@, i as int),
            decreases self.pool_size - i,
        {
            let raw: u32 = self.pool_start.wrapping_add(i);
            assert(raw == net::pool_address(self.pool_start, i as int));
            if raw != self.server_ip && !self.bad_ips.contains(&raw) && !self.leases.held_by_other(
                mac,
                raw,
            ) {
                return Some(i);
            }
            i = i + 1;
        }
        None
    }

    /// Searches the pool from address number `from` on.
    fn allocate_free(&mut self, mut effects: Vec<Effect>, q: Query, from: u32, now: u64) -> (r: Step)
        requires
            old(self).wf(),
            clock_ok(now),
        ensures
            final(self).wf(),
            final(self).bound_to() == old(self).bound_to(),
            final(self)@ == search(old(self)@, q@, from as int, now).state,
            effect_views(r.effects@) == effect_views(effects@) + search(
                old(self)@,
                q@,
                from as int,
                now,
            ).effects,
            pending_view(r.pending) == search(old(self)@, q@, from as int, now).pending,
    {
        let ghost before = effect_views(effects@);
        match self.find_free(q.mac.as_str(), from) {
            Some(i) => {
                let ip: u32 = self.pool_start.wrapping_add(i);
                assert(ip == net::pool_address(self.pool_start, i as int));
                if self.probing {
                    assert(before =~= before + Seq::<EffectV>::empty());
                    return Step {
                        effects,
                        pending: Some(PendingOffer { query: q, index: i, ip, now }),
                    };
                }
                self.make_offer(&mut effects, &q, ip, now);
            },
            None => {
                note(&mut effects, LogLevel::Error, "DHCP Pool is empty".to_owned());
                assert(effect_views(effects@) =~= before + search(
                    old(self)@,
                    q@,
                    from as int,
                    now,
                ).effects);
            },
        }
        Step { effects, pending: None }
    }

    /// Answers a DISCOVER.
    pub fn handle_discover(&mut self, mut effects: Vec<Effect>, q: Query, now: u64) -> (r: Step)
        requires
            old(self).wf(),
            clock_ok(now),
        ensures
            final(self).wf(),
            final(self).bound_to() == old(self).bound_to(),
            final(self)@ == discover(old(self)@, q@, now).state,
            effect_views(r.effects@) == effect_views(effects@) + discover(
                old(self)@,
                q@,
                now,
            ).effects,
            pending_view(r.pending) == discover(old(self)@, q@, now).pending,
    {
        match self.leases.get(q.mac.as_str()) {
            Some(l) => {
                if l.expires_unix > now && !self.bad_ips.contains(&l.ip) {
                    self.make_offer(&mut effects, &q, l.ip, now);
                    return Step { effects, pending: None };
                }
            },
            None => {},
        }
        self.allocate_free(effects, q, 0, now)
    }

    /// Goes on with a waiting offer: `used` tells whether the probed address is taken.
    pub fn resume(&mut self, pending: PendingOffer, used: bool) -> (r: Step)
        requires
            old(self).wf(),
            clock_ok(pending.now),
        ensures
            final(self).wf(),
            final(self).bound_to() == old(self).bound_to(),
            final(self)@ == after_probe(old(self)@, pending@, used).state,
            effect_views(r.effects@) == after_probe(old(self)@, pending@, used).effects,
            pending_view(r.pending) == after_probe(old(self)@, pending@, used).pending,
    {
        let mut effects: Vec<Effect> = Vec::new();
        assert(effect_views(effects@) =~= Seq::<EffectV>::empty());
        if used {
            let line: String = address_line("Suppress used address ", pending.ip, "");
            proof {
                reveal_strlit("");
                assert(line@ =~= "Suppress used address "@ + net::ip_text(pending.ip));
            }
            note(&mut effects, LogLevel::Debug, line);
            if pending.index == u32::MAX {
                // the pool ends before this number
                note(&mut effects, LogLevel::Error, "DHCP Pool is empty".to_owned());
                assert(effect_views(effects@) =~= after_probe(self@, pending@, used).effects);
                return Step { effects, pending: None };
            }
            let next: u32 = pending.index + 1;
            let ghost whole = after_probe(self@, pending@, used);
            let r = self.allocate_free(effects, pending.query, next, pending.now);
            assert(effect_views(r.effects@) =~= whole.effects);
            r
        } else {
            self.make_offer(&mut effects, &pending.query, pending.ip, pending.now);
            assert(effect_views(effects@) =~= offer(
                old(self)@,
                pending@.query,
                pending.ip,
                pending.now,
            ).effects);
            Step { effects, pending: None }
        }
    }

    /// Confirms the lease of the client on `ip`.
    fn make_ack(&mut self, effects: &mut Vec<Effect>, q: &Query, ip: u32, now: u64)
        requires
            old(self).wf(),
            clock_ok(now),
        ensures
            final(self).wf(),
            final(self).bound_to() == old(self).bound_to(),
            final(self)@ == confirm(old(self)@, q@, ip, now).state,
            effect_views(final(effects)@) == effect_views(old(effects)@) + confirm(
                old(self)@,
                q@,
                ip,
                now,
            ).effects,
    {
        let ghost before = effect_views(effects@);
        self.leases.put(
            q.mac.as_str(),
            Lease { ip, expires_unix: now + self.lease_seconds as u64, acked: true },
        );
        let line: String = address_line("Previously allocated address ", ip, " acked");
        note(effects, LogLevel::Debug, line);
        note_changed(effects, &q.mac, ip);
        self.note_answer(effects, q, ip, MSG_ACK, false);
        assert(answer(self@, q@, ip, MSG_ACK, false) == answer(old(self)@, q@, ip, MSG_ACK, false));
        assert(effect_views(effects@) =~= before + confirm(old(self)@, q@, ip, now).effects);
    }

    /// Refuses a request.
    fn send_nak(&self, effects: &mut Vec<Effect>, q: &Query)
        ensures
            effect_views(final(effects)@) == effect_views(old(effects)@) + refuse(
                self@,
                q@,
            ).effects,
    {
        let ghost before = effect_views(effects@);
        note(effects, LogLevel::Warn, "DHCP Nak".to_owned());
        self.note_answer(effects, q, 0, MSG_NAK, false);
        assert(effect_views(effects@) =~= before + refuse(self@, q@).effects);
    }

    /// Answers a REQUEST.
    pub fn handle_request(
        &mut self,
        effects: &mut Vec<Effect>,
        q: &Query,
        opts: &Vec<DhcpOption>,
        now: u64,
    )
        requires
            old(self).wf(),
            clock_ok(now),
        ensures
            final(self).wf(),
            final(self).bound_to() == old(self).bound_to(),
            final(self)@ == request(
                old(self)@,
                q@,
                dhcp_wire::option_views(opts@),
                now,
            ).state,
            effect_views(final(effects)@) == effect_views(old(effects)@) + request(
                old(self)@,
                q@,
                dhcp_wire::option_views(opts@),
                now,
            ).effects,
    {
        let ghost before = effect_views(effects@);
        let ghost ov = dhcp_wire::option_views(opts@);
        match dhcp_wire::get_address(opts, OPT_SERVER_ID) {
            Some(sid) => {
                if sid != self.server_ip {
                    // the client speaks to another server
                    note(effects, LogLevel::Warn, "DHCP Double Answer : ignored".to_owned());
                    assert(effect_views(effects@) =~= before + request(self@, q@, ov, now).effects);
                    return ;
                }
            },
            None => {},
        }
        let own: Option<Lease> = self.leases.get(q.mac.as_str());
        if q.ciaddr != 0 {
            // renewing or rebinding
            match own {
                Some(l) => if l.ip == q.ciaddr {
                    self.make_ack(effects, q, q.ciaddr, now);
                } else {
                    self.send_nak(effects, q);
                },
                None => {
                    self.send_nak(effects, q);
                },
            }
            return ;
        }
        match dhcp_wire::get_address(opts, OPT_REQUESTED_IP) {
            Some(ip) => {
                if net::in_pool(ip, self.pool_start, self.pool_size) && !self.bad_ips.contains(&ip) {
                    let ours: bool = match own {
                        Some(l) => l.ip == ip,
                        None => false,
                    };
                    if ours || !self.leases.holds(ip) {
                        self.make_ack(effects, q, ip, now);
                        return ;
                    }
                }
            },
            None => {},
        }
        // what the client asks for cannot be had: fall back to its lease
        match own {
            Some(l) => {
                self.make_ack(effects, q, l.ip, now);
            },
            None => {
                self.send_nak(effects, q);
            },
        }
    }

    /// Handles one packet that came from `src_ip` at the time `now`.
    pub fn handle_packet(&mut self, pkt: &[u8], src_ip: u32, now: u64) -> (r: Step)
        requires
            old(self).wf(),
            clock_ok(now),
        ensures
            final(self).wf(),
            final(self).bound_to() == old(self).bound_to(),
            final(self)@ == on_packet(old(self)@, pkt@, src_ip, now).state,
            effect_views(r.effects@) == on_packet(old(self)@, pkt@, src_ip, now).effects,
            pending_view(r.pending) == on_packet(old(self)@, pkt@, src_ip, now).pending,
    {
        let mut effects: Vec<Effect> = Vec::new();
        assert(effect_views(effects@) =~= Seq::<EffectV>::empty());
        let ghost want = on_packet(self@, pkt@, src_ip, now);
        if pkt.len() < 240 || pkt[0] != 1 || pkt[1] != 1 || pkt[2] < 6 || pkt[2] > 16 {
            return Step { effects, pending: None };
        }
        if bytes::be32(pkt, 236) != MAGIC_COOKIE {
            return Step { effects, pending: None };
        }
        self.last_activity = now;
        let ghost seen = self@;
        assert(seen == ServerV { last_activity: now, ..old(self)@ });
        let hlen: usize = pkt[2] as usize;
        let q = Query {
            xid: bytes::be32(pkt, 4),
            flags: bytes::be16(pkt, 10),
            ciaddr: bytes::be32(pkt, 12),
            giaddr: bytes::be32(pkt, 24),
            chaddr: bytes::slice_copy(pkt, 28, 44),
            mac: net::mac_string(vstd::slice::slice_subrange(pkt, 28, 28 + hlen)),
            src_ip,
        };
        let ghost qv = q@;
        assert(qv =~= query_of(pkt@, src_ip));
        let opts: Vec<DhcpOption> = dhcp_wire::parse_options(pkt, OPTIONS_START);
        let ghost ov = dhcp_wire::option_views(opts@);
        assert(want == dispatch(seen, qv, ov, now));
        let kind: u8 = match dhcp_wire::get_message_type(&opts) {
            Some(t) => t,
            None => {
                return Step { effects, pending: None };
            },
        };
        if kind == MSG_DISCOVER {
            let line: String = received_line("Discover", &q);
            note(&mut effects, LogLevel::Debug, line);
            let r = self.handle_discover(effects, q, now);
            assert(effect_views(r.effects@) =~= want.effects);
            return r;
        }
        if kind == MSG_REQUEST {
            let line: String = received_line("Rqst", &q);
            note(&mut effects, LogLevel::Debug, line);
            self.handle_request(&mut effects, &q, &opts, now);
        } else if kind == MSG_RELEASE {
            let line: String = received_line("release", &q);
            note(&mut effects, LogLevel::Debug, line);
            if self.leases.remove(q.mac.as_str()) {
                let mut gone: String = "item ".to_owned();
                gone.append(q.mac.as_str());
                gone.append(" released");
                note(&mut effects, LogLevel::Debug, gone);
            }
            if q.ciaddr != 0 {
                self.bad_ips.remove(&q.ciaddr);
            }
        } else if kind == MSG_DECLINE {
            note(&mut effects, LogLevel::Debug, "DHCP decline".to_owned());
            match dhcp_wire::get_address(&opts, OPT_REQUESTED_IP) {
                Some(ip) => {
                    self.bad_ips.insert(ip);
                },
                None => {},
            }
        } else if kind == MSG_INFORM {
            note(&mut effects, LogLevel::Debug, "DHCP inform".to_owned());
            self.note_answer(&mut effects, &q, 0, MSG_OFFER, true);
        }
        assert(effect_views(effects@) =~= want.effects);
        Step { effects, pending: None }
    }
}

} // verus!
