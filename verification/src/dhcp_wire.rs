//! DHCP messages as bytes: the options of a request and the layout of a reply.

use vstd::prelude::*;

use crate::bytes;
use crate::net;

verus! {

/// Marks the begin of the options.
pub const MAGIC_COOKIE: u32 = 0x6382_5363;

pub const MSG_DISCOVER: u8 = 1;

pub const MSG_OFFER: u8 = 2;

pub const MSG_REQUEST: u8 = 3;

pub const MSG_DECLINE: u8 = 4;

pub const MSG_ACK: u8 = 5;

pub const MSG_NAK: u8 = 6;

pub const MSG_RELEASE: u8 = 7;

pub const MSG_INFORM: u8 = 8;

/// Option codes.
pub const OPT_SUBNET_MASK: u8 = 1;

pub const OPT_ROUTER: u8 = 3;

pub const OPT_DNS: u8 = 6;

pub const OPT_REQUESTED_IP: u8 = 50;

pub const OPT_LEASE_TIME: u8 = 51;

pub const OPT_MESSAGE_TYPE: u8 = 53;

pub const OPT_SERVER_ID: u8 = 54;

pub const OPT_RENEWAL_TIME: u8 = 58;

pub const OPT_REBINDING_TIME: u8 = 59;

pub const OPT_PAD: u8 = 0;

pub const OPT_END: u8 = 255;

/// Offset of the first option.
pub const OPTIONS_START: usize = 240;

// ---------------------------------------------------------------- reading options

/// An option: its code and the bytes of its value.
pub struct DhcpOption {
    pub code: u8,
    pub value: Vec<u8>,
}

impl View for DhcpOption {
    type V = (u8, Seq<u8>);

    open spec fn view(&self) -> (u8, Seq<u8>) {
        (self.code, self.value@)
    }
}

/// What a list of options holds.
pub open spec fn option_views(v: Seq<DhcpOption>) -> Seq<(u8, Seq<u8>)> {
    v.map_values(|o: DhcpOption| o@)
}

/// The options of `p` from position `i` on. Padding is skipped; the end mark, the end of the packet
/// and an option that does not fit end the list.
pub open spec fn options_from(p: Seq<u8>, i: int) -> Seq<(u8, Seq<u8>)>
    decreases p.len() - i,
{
    if i < 0 || i >= p.len() || p[i] == OPT_END {
        Seq::empty()
    } else if p[i] == OPT_PAD {
        options_from(p, i + 1)
    } else if i + 1 >= p.len() || i + 2 + p[i + 1] > p.len() {
        Seq::empty()
    } else {
        seq![(p[i], p.subrange(i + 2, i + 2 + p[i + 1]))] + options_from(p, i + 2 + p[i + 1])
    }
}

/// Value of the last option with this code.
pub open spec fn last_value(opts: Seq<(u8, Seq<u8>)>, code: u8) -> Option<Seq<u8>>
    decreases opts.len(),
{
    if opts.len() == 0 {
        None
    } else if opts.last().0 == code {
        Some(opts.last().1)
    } else {
        last_value(opts.drop_last(), code)
    }
}

/// Value of the first option with this code.
pub open spec fn first_value(opts: Seq<(u8, Seq<u8>)>, code: u8) -> Option<Seq<u8>>
    decreases opts.len(),
{
    if opts.len() == 0 {
        None
    } else if opts[0].0 == code {
        Some(opts[0].1)
    } else {
        first_value(opts.drop_first(), code)
    }
}

/// The address in the last option with this code, where that option has four bytes.
pub open spec fn address_option(opts: Seq<(u8, Seq<u8>)>, code: u8) -> Option<u32> {
    match last_value(opts, code) {
        Some(v) => if v.len() == 4 {
            Some(bytes::be32_at(v, 0) as u32)
        } else {
            None
        },
        None => None,
    }
}

/// The message type: first byte of the last option 53.
pub open spec fn message_type(opts: Seq<(u8, Seq<u8>)>) -> Option<u8> {
    match last_value(opts, OPT_MESSAGE_TYPE) {
        Some(v) => if v.len() > 0 {
            Some(v[0])
        } else {
            None
        },
        None => None,
    }
}

/// Reads the options of `pkt` from `start` on.
pub fn parse_options(pkt: &[u8], start: usize) -> (out: Vec<DhcpOption>)
    ensures
        option_views(out@) == options_from(pkt@, start as int),
{
    let n: usize = pkt.len();
    let mut out: Vec<DhcpOption> = Vec::new();
    let mut i: usize = start;
    assert(option_views(out@) + options_from(pkt@, i as int) == options_from(pkt@, start as int));
    while i < n && pkt[i] != OPT_END
        invariant_except_break
            n == pkt@.len(),
            option_views(out@) + options_from(pkt@, i as int) == options_from(pkt@, start as int),
        ensures
            option_views(out@) == options_from(pkt@, start as int),
        decreases n - i,
    {
        let code: u8 = pkt[i];
        if code == OPT_PAD {
            i = i + 1;
            continue;
        }
        if i + 1 >= n {
            assert(option_views(out@) + options_from(pkt@, i as int) == option_views(out@));
            break;
        }
        let len: usize = pkt[i + 1] as usize;
        if len > n - i - 2 {
            assert(option_views(out@) + options_from(pkt@, i as int) == option_views(out@));
            break;
        }
        let value: Vec<u8> = bytes::slice_copy(pkt, i + 2, i + 2 + len);
        let ghost before = option_views(out@);
        out.push(DhcpOption { code, value });
        assert(option_views(out@) == before + seq![(code, value@)]);
        i = i + 2 + len;
        assert(option_views(out@) + options_from(pkt@, i as int) == options_from(
            pkt@,
            start as int,
        ));
    }
    out
}

/// Position of the last option with this code.
fn last_position(opts: &Vec<DhcpOption>, code: u8) -> (r: Option<usize>)
    ensures
        match r {
            Some(i) => i < opts@.len() && last_value(option_views(opts@), code) == Some(
                opts@[i as int].value@,
            ),
            None => last_value(option_views(opts@), code) is None,
        },
{
    let ghost all = option_views(opts@);
    let mut i: usize = opts.len();
    assert(all.take(i as int) == all);
    while i > 0
        invariant
            i <= opts@.len(),
            all == option_views(opts@),
            last_value(all, code) == last_value(all.take(i as int), code),
        decreases i,
    {
        assert(all.take(i as int).last() == opts@[i - 1]@);
        assert(all.take(i as int).drop_last() == all.take(i - 1));
        if opts[i - 1].code == code {
            return Some(i - 1);
        }
        i = i - 1;
    }
    None
}

/// The message type of a request.
pub fn get_message_type(opts: &Vec<DhcpOption>) -> (r: Option<u8>)
    ensures
        r == message_type(option_views(opts@)),
{
    match last_position(opts, OPT_MESSAGE_TYPE) {
        Some(i) => if opts[i].value.len() > 0 {
            Some(opts[i].value[0])
        } else {
            None
        },
        None => None,
    }
}

/// The address in an option.
pub fn get_address(opts: &Vec<DhcpOption>, code: u8) -> (r: Option<u32>)
    ensures
        r == address_option(option_views(opts@), code),
{
    match last_position(opts, code) {
        Some(i) => if opts[i].value.len() == 4 {
            Some(bytes::be32(opts[i].value.as_slice(), 0))
        } else {
            None
        },
        None => None,
    }
}

// ---------------------------------------------------------------- writing options

/// Bytes of one option.
pub open spec fn option_bytes(o: (u8, Seq<u8>)) -> Seq<u8> {
    seq![o.0, o.1.len() as u8] + o.1
}

/// Bytes of a list of options, without an end mark.
pub open spec fn options_bytes(opts: Seq<(u8, Seq<u8>)>) -> Seq<u8>
    decreases opts.len(),
{
    if opts.len() == 0 {
        Seq::empty()
    } else {
        options_bytes(opts.drop_last()) + option_bytes(opts.last())
    }
}

/// The option can be written down: a code of its own and a length of one byte.
pub open spec fn writable(o: (u8, Seq<u8>)) -> bool {
    o.0 != OPT_PAD && o.0 != OPT_END && o.1.len() <= 255
}

/// Appends one option.
pub fn add_opt(out: &mut Vec<u8>, code: u8, value: &[u8])
    requires
        value@.len() <= 255,
    ensures
        final(out)@ == old(out)@ + option_bytes((code, value@)),
{
    out.push(code);
    out.push(value.len() as u8);
    bytes::put_all(out, value);
    assert(out@ =~= old(out)@ + option_bytes((code, value@)));
}

/// Appends one option that holds a 32-bit number.
pub fn add_opt32(out: &mut Vec<u8>, code: u8, value: u32)
    ensures
        final(out)@ == old(out)@ + option_bytes((code, bytes::be32_bytes(value))),
{
    let mut v: Vec<u8> = Vec::new();
    bytes::put_be32(&mut v, value);
    assert(v@ =~= bytes::be32_bytes(value));
    add_opt(out, code, v.as_slice());
}

proof fn lemma_options_step(p: Seq<u8>, i: int, o: (u8, Seq<u8>))
    requires
        0 <= i,
        i + option_bytes(o).len() <= p.len(),
        writable(o),
        p.subrange(i, i + option_bytes(o).len()) == option_bytes(o),
    ensures
        options_from(p, i) == seq![o] + options_from(p, i + option_bytes(o).len()),
{
    let b = option_bytes(o);
    let piece = p.subrange(i, i + b.len());
    assert(piece[0] == p[i] && b[0] == o.0);
    assert(piece[1] == p[i + 1] && b[1] == o.1.len() as u8);
    assert(p.subrange(i + 2, i + 2 + p[i + 1]) =~= o.1) by {
        assert forall|k: int| 0 <= k < o.1.len() implies p[i + 2 + k] == o.1[k] by {
            assert(piece[2 + k] == p[i + 2 + k]);
            assert(b[2 + k] == o.1[k]);
        }
    }
}

proof fn lemma_options_prefix(p: Seq<u8>, i: int, opts: Seq<(u8, Seq<u8>)>)
    requires
        0 <= i,
        i + options_bytes(opts).len() <= p.len(),
        forall|k: int| 0 <= k < opts.len() ==> writable(#[trigger] opts[k]),
        p.subrange(i, i + options_bytes(opts).len()) == options_bytes(opts),
    ensures
        options_from(p, i) == opts + options_from(p, i + options_bytes(opts).len()),
    decreases opts.len(),
{
    if opts.len() > 0 {
        let init = opts.drop_last();
        let b = options_bytes(init);
        let o = opts.last();
        let whole = options_bytes(opts);
        assert(whole == b + option_bytes(o));
        assert(p.subrange(i, i + b.len()) =~= b) by {
            assert forall|k: int| 0 <= k < b.len() implies p[i + k] == b[k] by {
                assert(p.subrange(i, i + whole.len())[k] == whole[k]);
            }
        }
        assert(p.subrange(i + b.len(), i + b.len() + option_bytes(o).len()) =~= option_bytes(o)) by {
            assert forall|k: int| 0 <= k < option_bytes(o).len() implies p[i + b.len() + k]
                == option_bytes(o)[k] by {
                assert(p.subrange(i, i + whole.len())[b.len() + k] == whole[b.len() + k]);
            }
        }
        lemma_options_prefix(p, i, init);
        lemma_options_step(p, i + b.len(), o);
        assert(init + seq![o] =~= opts);
        assert(options_from(p, i) =~= opts + options_from(p, i + whole.len()));
    } else {
        assert(opts + options_from(p, i) =~= options_from(p, i));
    }
}

/// Options that were written behind any head and closed with the end mark are read back as they were,
/// whatever follows the mark.
pub proof fn lemma_options_round_trip(
    head: Seq<u8>,
    opts: Seq<(u8, Seq<u8>)>,
    tail: Seq<u8>,
)
    requires
        forall|k: int| 0 <= k < opts.len() ==> writable(#[trigger] opts[k]),
    ensures
        options_from(head + options_bytes(opts) + seq![OPT_END] + tail, head.len() as int) == opts,
{
    let p = head + options_bytes(opts) + seq![OPT_END] + tail;
    let n = options_bytes(opts).len() as int;
    assert(p.subrange(head.len() as int, head.len() + n) =~= options_bytes(opts));
    lemma_options_prefix(p, head.len() as int, opts);
    assert(p[head.len() + n] == OPT_END);
    assert(opts + Seq::<(u8, Seq<u8>)>::empty() =~= opts);
}

// ---------------------------------------------------------------- replies

/// What a reply says: the fields that vary from one reply to the next.
pub struct Reply {
    pub xid: u32,
    pub flags: u16,
    pub giaddr: u32,
    /// The address handed out, or that of the client where the reply answers an INFORM.
    pub addr: u32,
    pub msg_type: u8,
    /// Answers an INFORM: the address goes to the client field and no lease is described.
    pub is_inform: bool,
    pub server_ip: u32,
    pub lease_seconds: u32,
}

/// The options of a reply, in order.
pub open spec fn reply_options(r: Reply) -> Seq<(u8, Seq<u8>)> {
    let named = seq![
        (OPT_MESSAGE_TYPE, seq![r.msg_type]),
        (OPT_SERVER_ID, bytes::be32_bytes(r.server_ip)),
    ];
    if r.is_inform {
        named
    } else {
        named + seq![
            (OPT_LEASE_TIME, bytes::be32_bytes(r.lease_seconds)),
            (OPT_RENEWAL_TIME, bytes::be32_bytes(r.lease_seconds / 2)),
            (OPT_REBINDING_TIME, bytes::be32_bytes((r.lease_seconds * 875 / 1000) as u32)),
            (OPT_SUBNET_MASK, bytes::be32_bytes(0xFFFF_FF00)),
            (OPT_ROUTER, bytes::be32_bytes(r.server_ip)),
            (OPT_DNS, bytes::be32_bytes(r.server_ip)),
        ]
    }
}

/// The fixed part of a reply, up to the options.
pub open spec fn reply_head(r: Reply, chaddr: Seq<u8>) -> Seq<u8> {
    seq![2u8, 1, 6, 0] + bytes::be32_bytes(r.xid) + bytes::zeros(2) + bytes::be16_bytes(r.flags)
        + bytes::be32_bytes(
        if r.is_inform {
            r.addr
        } else {
            0
        },
    ) + bytes::be32_bytes(
        if r.is_inform {
            0
        } else {
            r.addr
        },
    ) + bytes::be32_bytes(r.server_ip) + bytes::be32_bytes(r.giaddr) + chaddr + bytes::zeros(192)
        + bytes::be32_bytes(MAGIC_COOKIE)
}

/// All bytes of a reply.
pub open spec fn reply_bytes(r: Reply, chaddr: Seq<u8>) -> Seq<u8> {
    reply_head(r, chaddr) + options_bytes(reply_options(r)) + seq![OPT_END]
}

/// Writes the fixed part of a reply.
fn build_reply_head(r: &Reply, chaddr: &[u8]) -> (b: Vec<u8>)
    ensures
        b@ == reply_head(*r, chaddr@),
{
    let mut b: Vec<u8> = Vec::new();
    b.push(2);
    b.push(1);
    b.push(6);
    b.push(0);
    assert(b@ =~= seq![2u8, 1, 6, 0]);
    bytes::put_be32(&mut b, r.xid);
    bytes::put_zeros(&mut b, 2);
    bytes::put_be16(&mut b, r.flags);
    bytes::put_be32(&mut b, if r.is_inform { r.addr } else { 0 });
    bytes::put_be32(&mut b, if r.is_inform { 0 } else { r.addr });
    bytes::put_be32(&mut b, r.server_ip);
    bytes::put_be32(&mut b, r.giaddr);
    bytes::put_all(&mut b, chaddr);
    bytes::put_zeros(&mut b, 192);
    bytes::put_be32(&mut b, MAGIC_COOKIE);
    b
}

/// Appends the options of a reply.
fn put_reply_options(b: &mut Vec<u8>, r: &Reply)
    ensures
        final(b)@ == old(b)@ + options_bytes(reply_options(*r)),
{
    let ghost head = b@;
    let ghost opts = reply_options(*r);
    let mut kind: Vec<u8> = Vec::new();
    kind.push(r.msg_type);
    assert(kind@ =~= seq![r.msg_type]);
    assert(options_bytes(opts.take(0)) =~= Seq::<u8>::empty());
    assert(head =~= head + options_bytes(opts.take(0)));
    add_opt(b, OPT_MESSAGE_TYPE, kind.as_slice());
    proof {
        assert(opts[0] == (OPT_MESSAGE_TYPE, seq![r.msg_type]));
        lemma_options_grow(head, opts, 0);
    }
    add_opt32(b, OPT_SERVER_ID, r.server_ip);
    proof {
        lemma_options_grow(head, opts, 1);
    }
    if !r.is_inform {
        let rebind: u64 = r.lease_seconds as u64 * 875 / 1000;
        add_opt32(b, OPT_LEASE_TIME, r.lease_seconds);
        add_opt32(b, OPT_RENEWAL_TIME, r.lease_seconds / 2);
        add_opt32(b, OPT_REBINDING_TIME, rebind as u32);
        add_opt32(b, OPT_SUBNET_MASK, net::mask_for(r.server_ip));
        add_opt32(b, OPT_ROUTER, r.server_ip);
        add_opt32(b, OPT_DNS, r.server_ip);
        proof {
            lemma_options_grow(head, opts, 2);
            lemma_options_grow(head, opts, 3);
            lemma_options_grow(head, opts, 4);
            lemma_options_grow(head, opts, 5);
            lemma_options_grow(head, opts, 6);
            lemma_options_grow(head, opts, 7);
        }
    }
    assert(opts.take(opts.len() as int) == opts);
}

/// One more option behind the first `k`.
pub proof fn lemma_options_grow(head: Seq<u8>, opts: Seq<(u8, Seq<u8>)>, k: int)
    requires
        0 <= k < opts.len(),
    ensures
        head + options_bytes(opts.take(k)) + option_bytes(opts[k]) == head + options_bytes(
            opts.take(k + 1),
        ),
{
    assert(opts.take(k + 1).drop_last() == opts.take(k));
    assert(opts.take(k + 1).last() == opts[k]);
    assert(head + options_bytes(opts.take(k)) + option_bytes(opts[k]) =~= head + options_bytes(
        opts.take(k + 1),
    ));
}

/// Writes a reply.
pub fn build_reply(r: &Reply, chaddr: &[u8]) -> (b: Vec<u8>)
    ensures
        b@ == reply_bytes(*r, chaddr@),
{
    let mut b: Vec<u8> = build_reply_head(r, chaddr);
    put_reply_options(&mut b, r);
    b.push(OPT_END);
    assert(b@ =~= reply_bytes(*r, chaddr@));
    b
}

/// What a client reads from a reply: transaction, addresses, hardware address, cookie and options are
/// those that were written.
pub proof fn lemma_reply_round_trip(r: Reply, chaddr: Seq<u8>)
    requires
        chaddr.len() == 16,
    ensures
        ({
            let p = reply_bytes(r, chaddr);
            &&& p.len() > 240
            &&& p[0] == 2 && p[1] == 1 && p[2] == 6
            &&& bytes::be32_at(p, 4) == r.xid
            &&& bytes::be16_at(p, 10) == r.flags
            &&& bytes::be32_at(p, 12) == (if r.is_inform { r.addr } else { 0 })
            &&& bytes::be32_at(p, 16) == (if r.is_inform { 0 } else { r.addr })
            &&& bytes::be32_at(p, 20) == r.server_ip
            &&& bytes::be32_at(p, 24) == r.giaddr
            &&& p.subrange(28, 44) == chaddr
            &&& bytes::be32_at(p, 236) == MAGIC_COOKIE
            &&& options_from(p, 240) == reply_options(r)
        }),
{
    let p = reply_bytes(r, chaddr);
    let head = reply_head(r, chaddr);
    assert(head.len() == 240);
    assert(p.len() > 240);
    bytes::lemma_be32_round_trip(r.xid);
    bytes::lemma_be16_round_trip(r.flags);
    let ci: u32 = if r.is_inform { r.addr } else { 0 };
    let yi: u32 = if r.is_inform { 0 } else { r.addr };
    assert(p.subrange(4, 8) =~= bytes::be32_bytes(r.xid));
    assert(p.subrange(10, 12) =~= bytes::be16_bytes(r.flags));
    assert(p.subrange(12, 16) =~= bytes::be32_bytes(ci));
    assert(p.subrange(16, 20) =~= bytes::be32_bytes(yi));
    assert(p.subrange(20, 24) =~= bytes::be32_bytes(r.server_ip));
    assert(p.subrange(24, 28) =~= bytes::be32_bytes(r.giaddr));
    assert(p.subrange(28, 44) =~= chaddr);
    assert(p.subrange(236, 240) =~= bytes::be32_bytes(MAGIC_COOKIE));
    lemma_be32_in(p, 4, r.xid);
    lemma_be32_in(p, 12, ci);
    lemma_be32_in(p, 16, yi);
    lemma_be32_in(p, 20, r.server_ip);
    lemma_be32_in(p, 24, r.giaddr);
    lemma_be32_in(p, 236, MAGIC_COOKIE);
    assert(p.subrange(10, 12)[0] == p[10] && p.subrange(10, 12)[1] == p[11]);
    let opts = reply_options(r);
    assert forall|k: int| 0 <= k < opts.len() implies writable(#[trigger] opts[k]) by {}
    lemma_options_round_trip(head, opts, Seq::<u8>::empty());
    assert(head + options_bytes(opts) + seq![OPT_END] + Seq::<u8>::empty() =~= p);
}

/// A number that was written somewhere in a packet is read back from there.
pub proof fn lemma_be32_in(p: Seq<u8>, o: int, v: u32)
    requires
        0 <= o && o + 4 <= p.len(),
        p.subrange(o, o + 4) == bytes::be32_bytes(v),
    ensures
        bytes::be32_at(p, o) == v,
{
    let s = p.subrange(o, o + 4);
    assert(s[0] == p[o] && s[1] == p[o + 1] && s[2] == p[o + 2] && s[3] == p[o + 3]);
    bytes::lemma_be32_round_trip(v);
}

/// A reply has passed no relay and waited no time, names no address of the client's own where it grants or
/// refuses one, and no server name and no boot file; the end of the options ends it.
pub proof fn lemma_reply_blank(r: Reply, chaddr: Seq<u8>, i: int)
    requires
        chaddr.len() == 16,
    ensures
        ({
            let p = reply_bytes(r, chaddr);
            &&& p[3] == 0 && p[8] == 0 && p[9] == 0
            &&& !r.is_inform && 12 <= i < 16 ==> p[i] == 0
            &&& r.is_inform && 16 <= i < 20 ==> p[i] == 0
            &&& 44 <= i < 236 ==> p[i] == 0
            &&& p.last() == 255
        }),
{
    let p = reply_bytes(r, chaddr);
    let head = reply_head(r, chaddr);
    let none = bytes::be32_bytes(0);
    assert(none =~= seq![0u8, 0, 0, 0]);
    assert(head.len() == 240);
    assert(0 <= i < 240 ==> p[i] == head[i]);
    assert(head.subrange(44, 236) =~= bytes::zeros(192));
    assert(44 <= i < 236 ==> head[i] == head.subrange(44, 236)[i - 44]);
    if r.is_inform {
        assert(head.subrange(16, 20) =~= none);
        assert(16 <= i < 20 ==> head[i] == head.subrange(16, 20)[i - 16]);
    } else {
        assert(head.subrange(12, 16) =~= none);
        assert(12 <= i < 16 ==> head[i] == head.subrange(12, 16)[i - 12]);
    }
}

} // verus!
