//! The self test: a client for each server, and what it expects of the replies.

use vstd::prelude::*;
use vstd::string::*;

use crate::bytes;
use crate::config::STATIC_IP_VALUE;
use crate::dhcp_wire;
use crate::dhcp_wire::{
    DhcpOption, MAGIC_COOKIE, MSG_ACK, MSG_DISCOVER, MSG_NAK, MSG_OFFER, MSG_RELEASE, MSG_REQUEST,
    OPTIONS_START, OPT_END, OPT_MESSAGE_TYPE, OPT_REQUESTED_IP, OPT_ROUTER, OPT_SERVER_ID,
    OPT_SUBNET_MASK,
};
use crate::net;
use crate::rom;
use crate::rom::RomInfo;
use crate::text;
use crate::tftp_wire;
use crate::tftp_wire::{Request, RequestV, OP_DATA, OP_ERROR, OP_OACK, OP_READ, OP_WRITE};

verus! {

// ---------------------------------------------------------------- DHCP client

/// The options of a client message.
pub open spec fn client_options(
    msg_type: u8,
    requested: Option<u32>,
    server_id: Option<u32>,
) -> Seq<(u8, Seq<u8>)> {
    let kind = seq![(OPT_MESSAGE_TYPE, seq![msg_type])];
    let asked = match requested {
        Some(ip) => kind.push((OPT_REQUESTED_IP, bytes::be32_bytes(ip))),
        None => kind,
    };
    match server_id {
        Some(ip) => asked.push((OPT_SERVER_ID, bytes::be32_bytes(ip))),
        None => asked,
    }
}

/// The fixed part of a client message.
pub open spec fn client_head(xid: u32, mac: Seq<u8>, ciaddr: u32) -> Seq<u8> {
    seq![1u8, 1, 6, 0] + bytes::be32_bytes(xid) + bytes::zeros(4) + bytes::be32_bytes(ciaddr)
        + bytes::zeros(12) + mac + bytes::zeros(202) + bytes::be32_bytes(MAGIC_COOKIE)
}

/// All bytes of a client message.
pub open spec fn client_bytes(
    xid: u32,
    mac: Seq<u8>,
    msg_type: u8,
    requested: Option<u32>,
    server_id: Option<u32>,
    ciaddr: u32,
) -> Seq<u8> {
    client_head(xid, mac, ciaddr) + dhcp_wire::options_bytes(
        client_options(msg_type, requested, server_id),
    ) + seq![OPT_END]
}

fn put_client_options(
    b: &mut Vec<u8>,
    msg_type: u8,
    requested: Option<u32>,
    server_id: Option<u32>,
)
    ensures
        final(b)@ == old(b)@ + dhcp_wire::options_bytes(
            client_options(msg_type, requested, server_id),
        ),
{
    let ghost head = b@;
    let ghost opts = client_options(msg_type, requested, server_id);
    let mut kind: Vec<u8> = Vec::new();
    kind.push(msg_type);
    assert(kind@ =~= seq![msg_type]);
    assert(head =~= head + dhcp_wire::options_bytes(opts.take(0)));
    dhcp_wire::add_opt(b, OPT_MESSAGE_TYPE, kind.as_slice());
    proof {
        assert(opts[0] == (OPT_MESSAGE_TYPE, seq![msg_type]));
        dhcp_wire::lemma_options_grow(head, opts, 0);
    }
    let ghost mut done: int = 1;
    match requested {
        Some(ip) => {
            dhcp_wire::add_opt32(b, OPT_REQUESTED_IP, ip);
            proof {
                assert(opts[1] == (OPT_REQUESTED_IP, bytes::be32_bytes(ip)));
                dhcp_wire::lemma_options_grow(head, opts, 1);
                done = 2;
            }
        },
        None => {},
    }
    match server_id {
        Some(ip) => {
            dhcp_wire::add_opt32(b, OPT_SERVER_ID, ip);
            proof {
                assert(opts[done] == (OPT_SERVER_ID, bytes::be32_bytes(ip)));
                dhcp_wire::lemma_options_grow(head, opts, done);
            }
        },
        None => {},
    }
    assert(opts.take(opts.len() as int) =~= opts);
}

/// Writes a client message.
pub fn build_dhcp(
    xid: u32,
    mac: &[u8; 6],
    msg_type: u8,
    requested: Option<u32>,
    server_id: Option<u32>,
    ciaddr: u32,
) -> (r: Vec<u8>)
    ensures
        r@ == client_bytes(xid, mac@, msg_type, requested, server_id, ciaddr),
{
    let mut b: Vec<u8> = Vec::new();
    b.push(1);
    b.push(1);
    b.push(6);
    b.push(0);
    assert(b@ =~= seq![1u8, 1, 6, 0]);
    bytes::put_be32(&mut b, xid);
    bytes::put_zeros(&mut b, 4);
    bytes::put_be32(&mut b, ciaddr);
    bytes::put_zeros(&mut b, 12);
    bytes::put_all(&mut b, mac.as_slice());
    bytes::put_zeros(&mut b, 202);
    bytes::put_be32(&mut b, MAGIC_COOKIE);
    assert(b@ == client_head(xid, mac@, ciaddr));
    put_client_options(&mut b, msg_type, requested, server_id);
    b.push(OPT_END);
    assert(b@ =~= client_bytes(xid, mac@, msg_type, requested, server_id, ciaddr));
    b
}

/// Value of the first option with this code in a message.
pub open spec fn option_in(p: Seq<u8>, code: u8) -> Option<Seq<u8>> {
    dhcp_wire::first_value(dhcp_wire::options_from(p, 240), code)
}

/// Value of the first option with this code in a message.
pub fn get_opt(pkt: &[u8], code: u8) -> (r: Option<Vec<u8>>)
    ensures
        match r {
            Some(v) => option_in(pkt@, code) == Some(v@),
            None => option_in(pkt@, code) is None,
        },
{
    let opts: Vec<DhcpOption> = dhcp_wire::parse_options(pkt, OPTIONS_START);
    let ghost ov = dhcp_wire::option_views(opts@);
    let mut i: usize = 0;
    assert(ov.skip(0) =~= ov);
    while i < opts.len()
        invariant
            i <= opts@.len(),
            ov == dhcp_wire::option_views(opts@),
            ov == dhcp_wire::options_from(pkt@, 240),
            dhcp_wire::first_value(ov, code) == dhcp_wire::first_value(ov.skip(i as int), code),
        decreases opts@.len() - i,
    {
        let o: &DhcpOption = &opts[i];
        assert(ov.skip(i as int)[0] == o@);
        if o.code == code {
            return Some(bytes::copy_all(o.value.as_slice()));
        }
        assert(ov.skip(i as int).drop_first() =~= ov.skip(i + 1));
        i = i + 1;
    }
    None
}

/// The message type of a reply.
pub open spec fn reply_kind(p: Seq<u8>) -> Option<u8> {
    match option_in(p, OPT_MESSAGE_TYPE) {
        Some(v) => if v.len() > 0 {
            Some(v[0])
        } else {
            None
        },
        None => None,
    }
}

/// The number in the first four bytes of an option.
pub open spec fn reply_number(p: Seq<u8>, code: u8) -> Option<u32> {
    match option_in(p, code) {
        Some(v) => if v.len() >= 4 {
            Some(bytes::be32_at(v, 0) as u32)
        } else {
            None
        },
        None => None,
    }
}

fn kind_is(pkt: &[u8], kind: u8) -> (r: bool)
    ensures
        r == (reply_kind(pkt@) == Some(kind)),
{
    match get_opt(pkt, OPT_MESSAGE_TYPE) {
        Some(v) => v.len() > 0 && v[0] == kind,
        None => false,
    }
}

fn number_is(pkt: &[u8], code: u8, number: u32) -> (r: bool)
    ensures
        r == (reply_number(pkt@, code) == Some(number)),
{
    match get_opt(pkt, code) {
        Some(v) => v.len() >= 4 && bytes::be32(v.as_slice(), 0) == number,
        None => false,
    }
}

/// What is wrong with an offer, or the address that it offers.
pub open spec fn offer_verdict(p: Seq<u8>) -> Result<u32, Seq<char>> {
    if p.len() < 240 {
        Err("no OFFER"@)
    } else {
        let addr = bytes::be32_at(p, 16) as u32;
        if !(0xC0A8_1F64 <= addr <= 0xC0A8_1FC7) {
            Err("yiaddr 0x"@ + net::hex8(addr))
        } else if reply_kind(p) != Some(MSG_OFFER) {
            Err("option 53 != OFFER"@)
        } else if reply_number(p, OPT_SERVER_ID) != Some(0xC0A8_1F01u32) {
            Err("server id"@)
        } else if reply_number(p, OPT_SUBNET_MASK) != Some(0xFFFF_FF00u32) {
            Err("subnet mask"@)
        } else if reply_number(p, OPT_ROUTER) != Some(0xC0A8_1F01u32) {
            Err("router option"@)
        } else {
            Ok(addr)
        }
    }
}

/// What an outcome says.
pub open spec fn verdict_view<T>(r: Result<T, String>) -> Result<T, Seq<char>> {
    match r {
        Ok(v) => Ok(v),
        Err(e) => Err(e@),
    }
}

/// Checks the reply to a DISCOVER.
pub fn check_offer(pkt: &[u8]) -> (r: Result<u32, String>)
    ensures
        verdict_view(r) == offer_verdict(pkt@),
{
    if pkt.len() < 240 {
        return Err("no OFFER".to_owned());
    }
    let addr: u32 = bytes::be32(pkt, 16);
    if addr < 0xC0A8_1F64 || addr > 0xC0A8_1FC7 {
        let mut s: String = "yiaddr 0x".to_owned();
        let digits: String = net::hex8_string(addr);
        s.append(digits.as_str());
        return Err(s);
    }
    if !kind_is(pkt, MSG_OFFER) {
        return Err("option 53 != OFFER".to_owned());
    }
    if !number_is(pkt, OPT_SERVER_ID, 0xC0A8_1F01) {
        return Err("server id".to_owned());
    }
    if !number_is(pkt, OPT_SUBNET_MASK, 0xFFFF_FF00) {
        return Err("subnet mask".to_owned());
    }
    if !number_is(pkt, OPT_ROUTER, 0xC0A8_1F01) {
        return Err("router option".to_owned());
    }
    Ok(addr)
}

/// What is wrong with the confirmation of `addr`.
pub open spec fn ack_verdict(p: Seq<u8>, addr: u32) -> Result<(), Seq<char>> {
    if p.len() < 240 {
        Err("no ACK"@)
    } else if reply_kind(p) != Some(MSG_ACK) {
        Err("option 53 != ACK"@)
    } else if bytes::be32_at(p, 16) != addr {
        Err("ACK yiaddr differs"@)
    } else {
        Ok(())
    }
}

/// Checks the reply to a REQUEST for `addr`.
pub fn check_ack(pkt: &[u8], addr: u32) -> (r: Result<(), String>)
    ensures
        verdict_view(r) == ack_verdict(pkt@, addr),
{
    if pkt.len() < 240 {
        return Err("no ACK".to_owned());
    }
    if !kind_is(pkt, MSG_ACK) {
        return Err("option 53 != ACK".to_owned());
    }
    if bytes::be32(pkt, 16) != addr {
        return Err("ACK yiaddr differs".to_owned());
    }
    Ok(())
}

/// What is wrong with a refusal.
pub open spec fn nak_verdict(p: Seq<u8>) -> Result<(), Seq<char>> {
    if p.len() < 240 {
        Err("no NAK"@)
    } else if reply_kind(p) != Some(MSG_NAK) {
        Err("option 53 != NAK"@)
    } else {
        Ok(())
    }
}

/// Checks the reply to a REQUEST that must be refused.
pub fn check_nak(pkt: &[u8]) -> (r: Result<(), String>)
    ensures
        verdict_view(r) == nak_verdict(pkt@),
{
    if pkt.len() < 240 {
        return Err("no NAK".to_owned());
    }
    if !kind_is(pkt, MSG_NAK) {
        return Err("option 53 != NAK".to_owned());
    }
    Ok(())
}

/// What the DHCP test waits for.
#[derive(Clone, Copy, PartialEq, Eq, Structural)]
pub enum DhcpPhase {
    Offer,
    /// The confirmation of the offered address.
    Ack(u32),
    /// The refusal of an address outside the pool; the first client holds the one given here.
    Nak(u32),
}

/// What the DHCP test does next.
pub enum DhcpMove {
    /// Sends a message and waits for the reply.
    Send(Vec<u8>),
    /// Sends a last message, which has no reply: the test has passed.
    Pass(Vec<u8>),
    /// Ends with the reason.
    Fail(String),
}

/// What the DHCP test does next.
pub enum DhcpMoveV {
    Send(Seq<u8>),
    Pass(Seq<u8>),
    Fail(Seq<char>),
}

impl View for DhcpMove {
    type V = DhcpMoveV;

    open spec fn view(&self) -> DhcpMoveV {
        match *self {
            DhcpMove::Send(p) => DhcpMoveV::Send(p@),
            DhcpMove::Pass(p) => DhcpMoveV::Pass(p@),
            DhcpMove::Fail(e) => DhcpMoveV::Fail(e@),
        }
    }
}

/// Hardware address of the client that gets a lease.
#[verifier::opaque]
pub open spec fn first_mac() -> Seq<u8> {
    seq![0x04u8, 0x67, 0x61, 0x9A, 0x3A, 0x3C]
}

/// Hardware address of the client that is refused.
#[verifier::opaque]
pub open spec fn second_mac() -> Seq<u8> {
    seq![0x04u8, 0x67, 0x61, 0x9A, 0x3A, 0x3D]
}

/// The two hardware addresses differ.
pub(crate) proof fn lemma_two_macs()
    ensures
        first_mac().len() == 6,
        second_mac().len() == 6,
        first_mac() != second_mac(),
{
    reveal(first_mac);
    reveal(second_mac);
    assert(first_mac()[5] != second_mac()[5]);
}

/// The DISCOVER that the DHCP test begins with.
pub open spec fn test_discover() -> Seq<u8> {
    client_bytes(0x1234_5678, first_mac(), MSG_DISCOVER, None, None, 0)
}

/// The REQUEST for the offered address.
pub open spec fn test_request_for(addr: u32) -> Seq<u8> {
    client_bytes(0x1234_5678, first_mac(), MSG_REQUEST, Some(addr), Some(STATIC_IP_VALUE), 0)
}

/// The REQUEST of another client for 192.168.31.250, which lies outside the pool.
pub open spec fn test_request_outside() -> Seq<u8> {
    client_bytes(
        0xDEAD_BEEF,
        second_mac(),
        MSG_REQUEST,
        Some(0xC0A8_1FFAu32),
        Some(STATIC_IP_VALUE),
        0,
    )
}

/// The RELEASE that ends the DHCP test.
pub open spec fn test_release(addr: u32) -> Seq<u8> {
    client_bytes(0x1234_5678, first_mac(), MSG_RELEASE, None, None, addr)
}

/// The DHCP test after a reply: an offer is taken, its confirmation is awaited, a request of another
/// client must be refused, and the lease is released. The test ends where it passes or fails.
pub open spec fn dhcp_test_step(phase: DhcpPhase, reply: Seq<u8>) -> (DhcpPhase, DhcpMoveV) {
    match phase {
        DhcpPhase::Offer => match offer_verdict(reply) {
            Ok(addr) => (DhcpPhase::Ack(addr), DhcpMoveV::Send(test_request_for(addr))),
            Err(e) => (phase, DhcpMoveV::Fail(e)),
        },
        DhcpPhase::Ack(addr) => match ack_verdict(reply, addr) {
            Ok(_) => (DhcpPhase::Nak(addr), DhcpMoveV::Send(test_request_outside())),
            Err(e) => (phase, DhcpMoveV::Fail(e)),
        },
        DhcpPhase::Nak(addr) => match nak_verdict(reply) {
            Ok(_) => (phase, DhcpMoveV::Pass(test_release(addr))),
            Err(e) => (phase, DhcpMoveV::Fail(e)),
        },
    }
}

/// The DHCP test.
pub struct DhcpTest {
    pub phase: DhcpPhase,
}

impl DhcpTest {
    /// Begins the test with a DISCOVER.
    pub fn start() -> (r: (Self, Vec<u8>))
        ensures
            r.0.phase == DhcpPhase::Offer,
            r.1@ == test_discover(),
    {
        let mac: [u8; 6] = [0x04, 0x67, 0x61, 0x9A, 0x3A, 0x3C];
        proof {
            reveal(first_mac);
            assert(mac@ =~= first_mac());
        }
        let p: Vec<u8> = build_dhcp(0x1234_5678, &mac, MSG_DISCOVER, None, None, 0);
        (DhcpTest { phase: DhcpPhase::Offer }, p)
    }

    /// A reply arrives; one that did not come in time is empty.
    pub fn on_reply(&mut self, reply: &[u8]) -> (r: DhcpMove)
        ensures
            (final(self).phase, r@) == dhcp_test_step(old(self).phase, reply@),
    {
        let one: [u8; 6] = [0x04, 0x67, 0x61, 0x9A, 0x3A, 0x3C];
        let two: [u8; 6] = [0x04, 0x67, 0x61, 0x9A, 0x3A, 0x3D];
        proof {
            reveal(first_mac);
            reveal(second_mac);
            assert(one@ =~= first_mac() && two@ =~= second_mac());
        }
        match self.phase {
            DhcpPhase::Offer => match check_offer(reply) {
                Ok(addr) => {
                    self.phase = DhcpPhase::Ack(addr);
                    DhcpMove::Send(
                        build_dhcp(
                            0x1234_5678,
                            &one,
                            MSG_REQUEST,
                            Some(addr),
                            Some(STATIC_IP_VALUE),
                            0,
                        ),
                    )
                },
                Err(e) => DhcpMove::Fail(e),
            },
            DhcpPhase::Ack(addr) => match check_ack(reply, addr) {
                Ok(_) => {
                    self.phase = DhcpPhase::Nak(addr);
                    DhcpMove::Send(
                        build_dhcp(
                            0xDEAD_BEEF,
                            &two,
                            MSG_REQUEST,
                            Some(0xC0A8_1FFA),
                            Some(STATIC_IP_VALUE),
                            0,
                        ),
                    )
                },
                Err(e) => DhcpMove::Fail(e),
            },
            DhcpPhase::Nak(addr) => match check_nak(reply) {
                Ok(_) => DhcpMove::Pass(
                    build_dhcp(0x1234_5678, &one, MSG_RELEASE, None, None, addr),
                ),
                Err(e) => DhcpMove::Fail(e),
            },
        }
    }
}

// ---------------------------------------------------------------- TFTP client

/// State of the generator behind the test data after `n` steps.
pub open spec fn generator(seed: u32, n: nat) -> u32
    decreases n,
{
    let before: int = if n == 0 {
        seed as int
    } else {
        generator(seed, (n - 1) as nat) as int
    };
    ((before * 1664525 + 1013904223) % 0x1_0000_0000) as u32
}

/// Test data: the top byte of every state behind the first.
pub open spec fn test_data(len: nat, seed: u32) -> Seq<u8> {
    Seq::new(len, |i: int| (generator(seed, (i + 1) as nat) / 0x100_0000) as u8)
}

fn advance(state: u32) -> (r: u32)
    ensures
        r == (state * 1664525 + 1013904223) % 0x1_0000_0000,
{
    ((state as u64 * 1664525 + 1013904223) % 0x1_0000_0000) as u32
}

/// Test data that looks random and is the same every time.
pub fn pseudo_random(len: usize, seed: u32) -> (r: Vec<u8>)
    ensures
        r@ == test_data(len as nat, seed),
{
    let mut out: Vec<u8> = Vec::new();
    let mut state: u32 = advance(seed);
    let mut i: usize = 0;
    while i < len
        invariant
            i <= len,
            state == generator(seed, i as nat),
            out@ == test_data(i as nat, seed),
        decreases len - i,
    {
        state = advance(state);
        out.push((state / 0x100_0000) as u8);
        i = i + 1;
        assert(out@ =~= test_data(i as nat, seed));
    }
    out
}

/// A request in binary mode without options.
pub open spec fn plain_request(op: u16, file_name: Seq<char>) -> RequestV {
    RequestV { op, file_name, mode: "octet"@, options: Seq::empty() }
}

/// The read request that the self test sends: blocks of 512 bytes, 5 seconds to a retransmission.
pub open spec fn test_request(file_name: Seq<char>) -> RequestV {
    RequestV {
        options: seq![("blksize"@, "512"@), ("timeout"@, "5"@)],
        ..plain_request(OP_READ, file_name)
    }
}

/// Writes the read request that the self test sends.
pub fn download_request(file_name: &str) -> (r: Vec<u8>)
    ensures
        r@ == tftp_wire::request_bytes(test_request(file_name@)),
{
    let mut options: Vec<(String, String)> = Vec::new();
    options.push(("blksize".to_owned(), "512".to_owned()));
    options.push(("timeout".to_owned(), "5".to_owned()));
    let req = Request {
        op: OP_READ,
        file_name: file_name.to_owned(),
        mode: "octet".to_owned(),
        options,
    };
    assert(req@.options =~= test_request(file_name@).options);
    tftp_wire::build_request(&req)
}

/// Writes a request in binary mode without options.
pub fn bare_request(op: u16, file_name: &str) -> (r: Vec<u8>)
    ensures
        r@ == tftp_wire::request_bytes(plain_request(op, file_name@)),
{
    let req = Request {
        op,
        file_name: file_name.to_owned(),
        mode: "octet".to_owned(),
        options: Vec::new(),
    };
    assert(req@.options =~= plain_request(op, file_name@).options);
    tftp_wire::build_request(&req)
}

/// Writes the write request that must be refused.
pub fn upload_request(file_name: &str) -> (r: Vec<u8>)
    ensures
        r@ == tftp_wire::request_bytes(plain_request(OP_WRITE, file_name@)),
{
    bare_request(OP_WRITE, file_name)
}

/// A download of the self test.
pub struct Download {
    pub received: Vec<u8>,
    /// Number of the block that comes next.
    pub block: u16,
    pub packets: usize,
    pub done: bool,
    /// The first four bytes of the buffer that packets are read into. A packet that is shorter leaves
    /// what an earlier one wrote.
    pub head: [u8; 4],
}

/// State of a download.
pub struct DownloadV {
    pub received: Seq<u8>,
    pub block: u16,
    pub packets: nat,
    pub done: bool,
    pub head: Seq<u8>,
}

impl View for Download {
    type V = DownloadV;

    open spec fn view(&self) -> DownloadV {
        DownloadV {
            received: self.received@,
            block: self.block,
            packets: self.packets as nat,
            done: self.done,
            head: self.head@,
        }
    }
}

/// What the client does about a packet.
pub enum ClientReply {
    Ignore,
    /// Sends an acknowledgement.
    Acknowledge(Vec<u8>),
    /// Gives up, with the reason.
    Fail(String),
}

/// What the reply of a client says.
pub enum ClientReplyV {
    Ignore,
    Acknowledge(Seq<u8>),
    Fail(Seq<char>),
}

impl View for ClientReply {
    type V = ClientReplyV;

    open spec fn view(&self) -> ClientReplyV {
        match *self {
            ClientReply::Ignore => ClientReplyV::Ignore,
            ClientReply::Acknowledge(p) => ClientReplyV::Acknowledge(p@),
            ClientReply::Fail(e) => ClientReplyV::Fail(e@),
        }
    }
}

/// A download that has received nothing.
pub open spec fn new_download() -> DownloadV {
    DownloadV {
        received: Seq::empty(),
        block: 1,
        packets: 0,
        done: false,
        head: seq![0u8, 0, 0, 0],
    }
}

/// The first four bytes of the buffer after the packet was read into it.
pub open spec fn head_after(head: Seq<u8>, p: Seq<u8>) -> Seq<u8> {
    Seq::new(
        4,
        |i: int|
            if i < p.len() {
                p[i]
            } else {
                head[i]
            },
    )
}

/// The first packet arrives at the client: it must be an option acknowledgement.
pub open spec fn client_first(c: DownloadV, p: Seq<u8>) -> (DownloadV, Result<Seq<u8>, Seq<char>>) {
    let head = head_after(c.head, p);
    (
        DownloadV { head, ..c },
        if bytes::be16_at(head, 0) == OP_OACK {
            Ok(tftp_wire::ack_bytes(0))
        } else {
            Err("expected OACK"@)
        },
    )
}

/// A packet arrives at the client: the expected block is taken and acknowledged, a block shorter than
/// 512 bytes is the last. What a packet is about stands in the first four bytes of the buffer; where
/// they announce the expected block, a packet that is too short to hold it fails the download.
pub open spec fn client_packet(c: DownloadV, p: Seq<u8>) -> (DownloadV, ClientReplyV) {
    let head = head_after(c.head, p);
    let seen = DownloadV { head, ..c };
    let op = bytes::be16_at(head, 0);
    let block = bytes::be16_at(head, 2);
    if op == OP_ERROR {
        (seen, ClientReplyV::Fail("server ERROR"@))
    } else if op != OP_DATA {
        (seen, ClientReplyV::Ignore)
    } else if block != c.block {
        (
            seen,
            ClientReplyV::Fail(
                "block "@ + text::dec(block as nat) + " != "@ + text::dec(c.block as nat),
            ),
        )
    } else if p.len() < 4 {
        (seen, ClientReplyV::Fail("short DATA"@))
    } else {
        (
            DownloadV {
                received: c.received + p.skip(4),
                block: ((c.block + 1) % 0x1_0000) as u16,
                packets: c.packets + 1,
                done: p.len() - 4 < 512,
                head,
            },
            ClientReplyV::Acknowledge(tftp_wire::ack_bytes(c.block)),
        )
    }
}

/// What the outcome of the first packet says.
pub open spec fn first_view(r: Result<Vec<u8>, String>) -> Result<Seq<u8>, Seq<char>> {
    match r {
        Ok(a) => Ok(a@),
        Err(e) => Err(e@),
    }
}

impl Download {
    /// A download that has received nothing.
    pub fn new() -> (r: Self)
        ensures
            r@ == new_download(),
    {
        let r = Download {
            received: Vec::new(),
            block: 1,
            packets: 0,
            done: false,
            head: [0, 0, 0, 0],
        };
        assert(r@.received =~= Seq::<u8>::empty());
        assert(r@.head =~= seq![0u8, 0, 0, 0]);
        r
    }

    fn take_head(&mut self, p: &[u8])
        ensures
            final(self)@ == (DownloadV { head: head_after(old(self)@.head, p@), ..old(self)@ }),
    {
        let n: usize = p.len();
        let a: u8 = if n > 0 {
            p[0]
        } else {
            self.head[0]
        };
        let b: u8 = if n > 1 {
            p[1]
        } else {
            self.head[1]
        };
        let c: u8 = if n > 2 {
            p[2]
        } else {
            self.head[2]
        };
        let d: u8 = if n > 3 {
            p[3]
        } else {
            self.head[3]
        };
        self.head = [a, b, c, d];
        assert(self.head@ =~= head_after(old(self)@.head, p@));
    }

    /// The first reply of the server must be an option acknowledgement, which is acknowledged as block 0.
    pub fn on_first(&mut self, p: &[u8]) -> (r: Result<Vec<u8>, String>)
        ensures
            (final(self)@, first_view(r)) == client_first(old(self)@, p@),
    {
        self.take_head(p);
        if bytes::be16(self.head.as_slice(), 0) == OP_OACK {
            Ok(tftp_wire::ack_packet(0))
        } else {
            Err("expected OACK".to_owned())
        }
    }

    /// A packet arrives.
    pub fn on_packet(&mut self, p: &[u8]) -> (r: ClientReply)
        requires
            old(self)@.packets < usize::MAX,
        ensures
            final(self)@ == client_packet(old(self)@, p@).0,
            r@ == client_packet(old(self)@, p@).1,
    {
        self.take_head(p);
        let op: u16 = bytes::be16(self.head.as_slice(), 0);
        if op == OP_ERROR {
            return ClientReply::Fail("server ERROR".to_owned());
        }
        if op != OP_DATA {
            return ClientReply::Ignore;
        }
        let block: u16 = bytes::be16(self.head.as_slice(), 2);
        if block != self.block {
            let mut s: String = "block ".to_owned();
            text::push_dec(&mut s, block as u64);
            s.append(" != ");
            text::push_dec(&mut s, self.block as u64);
            return ClientReply::Fail(s);
        }
        if p.len() < 4 {
            return ClientReply::Fail("short DATA".to_owned());
        }
        let payload: &[u8] = vstd::slice::slice_subrange(p, 4, p.len());
        assert(payload@ =~= p@.skip(4));
        bytes::put_all(&mut self.received, payload);
        self.packets = self.packets + 1;
        if payload.len() < 512 {
            self.done = true;
        } else {
            self.done = false;
        }
        self.block = self.block.wrapping_add(1);
        ClientReply::Acknowledge(tftp_wire::ack_packet(block))
    }

    /// Compares what was received with what was to come.
    pub fn verdict(&self, expected: &[u8], expect_packets: Option<usize>) -> (r: Result<(), String>)
        ensures
            verdict_view(r) == download_verdict(self@, expected@, expect_packets),
    {
        match expect_packets {
            Some(n) => {
                if self.packets != n {
                    let mut s: String = "packets ".to_owned();
                    text::push_dec(&mut s, self.packets as u64);
                    s.append(" != ");
                    text::push_dec(&mut s, n as u64);
                    return Err(s);
                }
            },
            None => {},
        }
        if same_bytes(self.received.as_slice(), expected) {
            Ok(())
        } else {
            Err("data mismatch".to_owned())
        }
    }
}

fn same_bytes(a: &[u8], b: &[u8]) -> (r: bool)
    ensures
        r == (a@ == b@),
{
    if a.len() != b.len() {
        return false;
    }
    let mut i: usize = 0;
    while i < a.len()
        invariant
            a@.len() == b@.len(),
            i <= a@.len(),
            forall|j: int| 0 <= j < i ==> #[trigger] a@[j] == b@[j],
        decreases a@.len() - i,
    {
        if a[i] != b[i] {
            return false;
        }
        i = i + 1;
    }
    assert(a@ =~= b@);
    true
}

/// What is wrong with a finished download.
pub open spec fn download_verdict(
    c: DownloadV,
    expected: Seq<u8>,
    expect_packets: Option<usize>,
) -> Result<(), Seq<char>> {
    if expect_packets matches Some(n) && c.packets != n {
        Err("packets "@ + text::dec(c.packets) + " != "@ + text::dec(expect_packets->0 as nat))
    } else if c.received != expected {
        Err("data mismatch"@)
    } else {
        Ok(())
    }
}

/// What is wrong with the refusal of a write request. The two flags tell whether the file was there
/// right after the refusal and a moment later.
pub open spec fn refusal_verdict(p: Seq<u8>, created: bool, created_later: bool) -> Result<
    (),
    Seq<char>,
> {
    if p.len() < 4 || bytes::be16_at(p, 0) != OP_ERROR {
        Err("expected ERROR opcode"@)
    } else if bytes::be16_at(p, 2) != 2 {
        Err(
            "expected error code 2 (Access violation), got "@ + text::dec(
                bytes::be16_at(p, 2) as nat,
            ),
        )
    } else if created {
        Err("upload file must not be created"@)
    } else if created_later {
        Err("upload file created despite rejection"@)
    } else {
        Ok(())
    }
}

/// Checks the refusal of a write request.
pub fn check_refusal(pkt: &[u8], created: bool, created_later: bool) -> (r: Result<(), String>)
    ensures
        verdict_view(r) == refusal_verdict(pkt@, created, created_later),
{
    if pkt.len() < 4 || bytes::be16(pkt, 0) != OP_ERROR {
        return Err("expected ERROR opcode".to_owned());
    }
    let code: u16 = bytes::be16(pkt, 2);
    if code != 2 {
        let mut s: String = "expected error code 2 (Access violation), got ".to_owned();
        text::push_dec(&mut s, code as u64);
        return Err(s);
    }
    if created {
        return Err("upload file must not be created".to_owned());
    }
    if created_later {
        return Err("upload file created despite rejection".to_owned());
    }
    Ok(())
}

/// Checks the reply to a read request for a file that is not there.
pub fn check_not_found(pkt: &[u8]) -> (r: Result<(), String>)
    ensures
        if pkt@.len() >= 2 && bytes::be16_at(pkt@, 0) == OP_ERROR {
            r is Ok
        } else {
            r matches Err(e) && e@ == "expected ERROR"@
        },
{
    if pkt.len() < 2 || bytes::be16(pkt, 0) != OP_ERROR {
        Err("expected ERROR".to_owned())
    } else {
        Ok(())
    }
}

// ---------------------------------------------------------------- firmware list

/// A list as the vendor publishes it, with a doubled scheme and a trailing tab.
pub const SAMPLE: &'static str =
    "小米路由器 4|http://bigota.miwifi.com/xiaoqiang/rom/r4/miwifi_r4_firmware_f1bbb_2.26.145.bin|16354096|小米路由器 4Q|http://http://bigota.miwifi.com/xiaoqiang/rom/r4c/miwifi_r4c_all_ea31e_2.30.11.bin|9962408|小米路由器 4C|http://bigota.miwifi.com/xiaoqiang/rom/r4cm/miwifi_r4cm_firmware_23bd4_2.14.67.bin|10224568\t";

/// `s` ends with `pat`.
pub open spec fn ends(s: Seq<char>, pat: Seq<char>) -> bool {
    text::stands_at(s, pat, s.len() - pat.len())
}

/// What is wrong with the list read from the sample.
pub open spec fn list_verdict(list: Seq<rom::RomV>) -> Result<(), Seq<char>> {
    if list.len() != 3 {
        Err("count "@ + text::dec(list.len()))
    } else if !rom::begins(list[1].url, "http://bigota.miwifi.com"@) || text::contains_text(
        text::lower_all(list[1].url),
        "http://http://"@,
    ) {
        Err("double scheme not sanitized"@)
    } else if list[0].size != 16354096 {
        Err("size"@)
    } else if !ends(
        text::lower_all(list[0].url),
        "miwifi_r4_firmware_f1bbb_2.26.145.bin"@,
    ) {
        Err("filename"@)
    } else {
        Ok(())
    }
}

fn lower_chars(s: &str) -> (r: Vec<char>)
    ensures
        r@ == text::lower_all(s@),
{
    let cs: Vec<char> = text::to_chars(s);
    let mut out: Vec<char> = Vec::new();
    let mut i: usize = 0;
    while i < cs.len()
        invariant
            i <= cs@.len(),
            cs@ == s@,
            out@ == text::lower_all(s@).take(i as int),
        decreases cs@.len() - i,
    {
        out.push(text::lower_char(cs[i]));
        i = i + 1;
        assert(out@ =~= text::lower_all(s@).take(i as int));
    }
    assert(out@ =~= text::lower_all(s@));
    out
}

/// Checks the list read from the sample.
pub fn check_list(list: &Vec<RomInfo>) -> (r: Result<(), String>)
    ensures
        verdict_view(r) == list_verdict(rom::rom_views(list@)),
{
    let ghost lv = rom::rom_views(list@);
    if list.len() != 3 {
        let mut s: String = "count ".to_owned();
        text::push_dec(&mut s, list.len() as u64);
        return Err(s);
    }
    assert(lv[1] == list@[1]@ && lv[0] == list@[0]@);
    let second: Vec<char> = lower_chars(list[1].url.as_str());
    let host: Vec<char> = text::to_chars("http://bigota.miwifi.com");
    let double: Vec<char> = text::to_chars("http://http://");
    let sane: bool = text::matches_at(second.as_slice(), host.as_slice(), 0);
    let doubled: bool = text::find_chars(second.as_slice(), double.as_slice(), 0).is_some();
    proof {
        text::lemma_find_from(second@, double@, 0);
    }
    if !sane || doubled {
        return Err("double scheme not sanitized".to_owned());
    }
    if list[0].size != 16354096 {
        return Err("size".to_owned());
    }
    let first: Vec<char> = lower_chars(list[0].url.as_str());
    let name: Vec<char> = text::to_chars("miwifi_r4_firmware_f1bbb_2.26.145.bin");
    if name.len() > first.len() || !text::matches_at(
        first.as_slice(),
        name.as_slice(),
        first.len() - name.len(),
    ) {
        return Err("filename".to_owned());
    }
    Ok(())
}

/// What the check of the published list says.
pub open spec fn live_text(names: Seq<rom::RomV>) -> Seq<char> {
    if names.len() == 0 {
        "FAIL (empty list from API)"@
    } else {
        let file = match rom::last_component(names[0].url) {
            Some(b) => b,
            None => Seq::empty(),
        };
        "PASS ("@ + text::dec(names.len()) + " models, e.g. "@ + names[0].name + " -> "@ + file
            + ")"@
    }
}

/// What the check of the published list says. That it cannot be fetched is no failure.
pub fn live_line(reply: &Result<Vec<RomInfo>, String>) -> (r: String)
    ensures
        r@ == match *reply {
            Ok(list) => live_text(rom::rom_views(list@)),
            Err(e) => "SKIP (offline? "@ + e@ + ")"@,
        },
{
    match reply {
        Ok(list) => {
            if list.len() == 0 {
                return "FAIL (empty list from API)".to_owned();
            }
            assert(rom::rom_views(list@)[0] == list@[0]@);
            let mut s: String = "PASS (".to_owned();
            text::push_dec(&mut s, list.len() as u64);
            s.append(" models, e.g. ");
            s.append(list[0].name.as_str());
            s.append(" -> ");
            match rom::url_basename(list[0].url.as_str()) {
                Some(b) => {
                    s.append(b.as_str());
                },
                None => {
                    assert(s@ + Seq::<char>::empty() =~= s@);
                },
            }
            s.append(")");
            s
        },
        Err(e) => {
            let mut s: String = "SKIP (offline? ".to_owned();
            s.append(e.as_str());
            s.append(")");
            s
        },
    }
}

// ---------------------------------------------------------------- summary

/// The outcome of one test.
pub fn outcome_line(r: &Result<(), String>) -> (s: String)
    ensures
        s@ == match *r {
            Ok(_) => "PASS"@,
            Err(e) => "FAIL ("@ + e@ + ")"@,
        },
{
    match r {
        Ok(_) => "PASS".to_owned(),
        Err(e) => {
            let mut s: String = "FAIL (".to_owned();
            s.append(e.as_str());
            s.append(")");
            s
        },
    }
}

/// The last line of the self test and its exit code.
pub open spec fn summed(fails: u32) -> (Seq<char>, i32) {
    if fails == 0 {
        ("SELFTEST: ALL PASS"@, 0)
    } else {
        ("SELFTEST: "@ + text::dec(fails as nat) + " FAILED"@, 1)
    }
}

/// The last line and the exit code after `fails` failures.
pub fn summary(fails: u32) -> (r: (String, i32))
    ensures
        if fails == 0 {
            r.0@ == "SELFTEST: ALL PASS"@ && r.1 == 0
        } else {
            r.0@ == "SELFTEST: "@ + text::dec(fails as nat) + " FAILED"@ && r.1 == 1
        },
        (r.0@, r.1) == summed(fails),
{
    if fails == 0 {
        ("SELFTEST: ALL PASS".to_owned(), 0)
    } else {
        let mut s: String = "SELFTEST: ".to_owned();
        text::push_dec(&mut s, fails as u64);
        s.append(" FAILED");
        (s, 1)
    }
}

} // verus!
