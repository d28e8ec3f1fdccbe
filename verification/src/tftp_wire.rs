//! TFTP packets (RFC 1350, 2347): requests, data, acknowledgements, errors and option
//! acknowledgements.

use vstd::prelude::*;
use vstd::string::*;

use crate::bytes;
use crate::text;

verus! {

pub const OP_READ: u16 = 1;

pub const OP_WRITE: u16 = 2;

pub const OP_DATA: u16 = 3;

pub const OP_ACK: u16 = 4;

pub const OP_ERROR: u16 = 5;

pub const OP_OACK: u16 = 6;

// ---------------------------------------------------------------- zero-terminated text

/// Position of the first zero byte from `pos` on; the end of the packet where there is none.
pub open spec fn field_end(p: Seq<u8>, pos: int) -> int
    decreases p.len() - pos,
{
    if pos >= p.len() || p[pos] == 0 {
        pos
    } else {
        field_end(p, pos + 1)
    }
}

/// The bytes of the field at `pos`; none at or behind the end of the packet.
pub open spec fn field_at(p: Seq<u8>, pos: int) -> Seq<u8> {
    if pos >= p.len() {
        Seq::empty()
    } else {
        p.subrange(pos, field_end(p, pos))
    }
}

/// Where the next field begins: behind the zero byte.
pub open spec fn field_next(p: Seq<u8>, pos: int) -> int {
    if field_end(p, pos) < p.len() {
        field_end(p, pos) + 1
    } else {
        field_end(p, pos)
    }
}

pub proof fn lemma_field_end(p: Seq<u8>, pos: int)
    requires
        0 <= pos <= p.len(),
    ensures
        pos <= field_end(p, pos) <= p.len(),
        field_end(p, pos) < p.len() ==> p[field_end(p, pos)] == 0,
        forall|j: int| pos <= j < field_end(p, pos) ==> #[trigger] p[j] != 0,
    decreases p.len() - pos,
{
    if pos < p.len() && p[pos] != 0 {
        lemma_field_end(p, pos + 1);
    }
}

/// Reads the field at `pos`: its text and where the next field begins.
pub fn read_cstring(pkt: &[u8], pos: usize) -> (r: (String, usize))
    ensures
        r.0@ == text::utf8_text(field_at(pkt@, pos as int)),
        r.1 == field_next(pkt@, pos as int),
        pos < pkt@.len() ==> pos < r.1 <= pkt@.len(),
{
    let n: usize = pkt.len();
    if pos >= n {
        assert(vstd::utf8::decode_utf8(Seq::<u8>::empty()) =~= Seq::<char>::empty());
        return (String::new(), pos);
    }
    proof {
        lemma_field_end(pkt@, pos as int);
    }
    let mut end: usize = pos;
    while end < n && pkt[end] != 0
        invariant
            n == pkt@.len(),
            pos <= end <= n,
            field_end(pkt@, pos as int) == field_end(pkt@, end as int),
        decreases n - end,
    {
        end = end + 1;
    }
    let s: String = text::lossy_string(vstd::slice::slice_subrange(pkt, pos, end));
    let next: usize = if end < n {
        end + 1
    } else {
        end
    };
    (s, next)
}

// ---------------------------------------------------------------- requests

/// A read or write request.
pub struct Request {
    pub op: u16,
    pub file_name: String,
    pub mode: String,
    pub options: Vec<(String, String)>,
}

/// What a request says.
pub struct RequestV {
    pub op: u16,
    pub file_name: Seq<char>,
    pub mode: Seq<char>,
    pub options: Seq<(Seq<char>, Seq<char>)>,
}

/// What a list of options says.
pub open spec fn option_views(v: Seq<(String, String)>) -> Seq<(Seq<char>, Seq<char>)> {
    v.map_values(|o: (String, String)| (o.0@, o.1@))
}

impl View for Request {
    type V = RequestV;

    open spec fn view(&self) -> RequestV {
        RequestV {
            op: self.op,
            file_name: self.file_name@,
            mode: self.mode@,
            options: option_views(self.options@),
        }
    }
}

/// The options from `pos` on: pairs of name and value, up to the end of the packet or an empty name.
pub open spec fn options_at(p: Seq<u8>, pos: int) -> Seq<(Seq<char>, Seq<char>)>
    decreases p.len() - pos,
    when 0 <= pos
    via options_at_decreases
{
    if pos >= p.len() {
        Seq::empty()
    } else {
        let name = text::utf8_text(field_at(p, pos));
        if name.len() == 0 {
            Seq::empty()
        } else {
            let mid = field_next(p, pos);
            seq![(name, text::utf8_text(field_at(p, mid)))] + options_at(p, field_next(p, mid))
        }
    }
}

#[via_fn]
proof fn options_at_decreases(p: Seq<u8>, pos: int) {
    if pos < p.len() {
        lemma_field_end(p, pos);
        let mid = field_next(p, pos);
        lemma_field_end(p, mid);
    }
}

/// The request with operation `op` in the packet `p`: file name, mode and options.
pub open spec fn request_of(p: Seq<u8>, op: u16) -> RequestV {
    let second = field_next(p, 2);
    RequestV {
        op,
        file_name: text::utf8_text(field_at(p, 2)),
        mode: text::utf8_text(field_at(p, second)),
        options: options_at(p, field_next(p, second)),
    }
}

/// The operation of a packet that the listener answers.
pub open spec fn requested(p: Seq<u8>) -> Option<u16> {
    if p.len() >= 2 && p[0] == 0 && p[1] == 1 {
        Some(1)
    } else if p.len() >= 2 && p[0] == 0 && p[1] == 2 {
        Some(2)
    } else {
        None
    }
}

/// The operation of a packet that the listener answers: a read or a write request.
pub fn request_op(pkt: &[u8]) -> (r: Option<u16>)
    ensures
        r == (if pkt@.len() >= 2 && (bytes::be16_at(pkt@, 0) == OP_READ || bytes::be16_at(pkt@, 0)
            == OP_WRITE) {
            Some(bytes::be16_at(pkt@, 0) as u16)
        } else {
            None
        }),
        r == requested(pkt@),
{
    if pkt.len() < 2 {
        return None;
    }
    let op: u16 = bytes::be16(pkt, 0);
    if op == OP_READ || op == OP_WRITE {
        Some(op)
    } else {
        None
    }
}

/// Reads the request with operation `op` from a packet.
pub fn parse_request(pkt: &[u8], op: u16) -> (r: Request)
    requires
        pkt@.len() >= 2,
    ensures
        r@ == request_of(pkt@, op),
{
    let (file_name, second) = read_cstring(pkt, 2);
    proof {
        lemma_field_end(pkt@, 2);
        lemma_field_end(pkt@, second as int);
    }
    let (mode, third) = read_cstring(pkt, second);
    let mut options: Vec<(String, String)> = Vec::new();
    let mut pos: usize = third;
    let ghost all = options_at(pkt@, third as int);
    assert(option_views(options@) + options_at(pkt@, pos as int) =~= all);
    while pos < pkt.len()
        invariant
            pos <= pkt@.len(),
            option_views(options@) + options_at(pkt@, pos as int) == all,
        ensures
            option_views(options@) == all,
        decreases pkt@.len() - pos,
    {
        let ghost done = option_views(options@);
        let (name, mid) = read_cstring(pkt, pos);
        if text::same(name.as_str(), "") {
            proof {
                reveal_strlit("");
                assert(done + Seq::<(Seq<char>, Seq<char>)>::empty() =~= done);
            }
            break ;
        }
        proof {
            reveal_strlit("");
            if name@.len() == 0 {
                assert(name@ =~= ""@);
            }
            lemma_field_end(pkt@, mid as int);
        }
        let (value, next) = read_cstring(pkt, mid);
        let ghost rest = options_at(pkt@, next as int);
        let ghost one = (name@, value@);
        assert(options_at(pkt@, pos as int) == seq![one] + rest);
        options.push((name, value));
        pos = next;
        assert(option_views(options@) =~= done.push(one));
        assert(option_views(options@) + rest =~= done + (seq![one] + rest));
    }
    Request { op, file_name, mode, options }
}

// ---------------------------------------------------------------- names

/// `\` counts as `/`.
pub open spec fn unified(s: Seq<char>) -> Seq<char> {
    s.map_values(
        |c: char|
            if c == '\\' {
                '/'
            } else {
                c
            },
    )
}

/// The last component of a path.
pub open spec fn base_name(s: Seq<char>) -> Seq<char> {
    text::after_last(unified(s), '/')
}

/// The last component of a path: a name without separators, so that a request stays inside the served
/// directory.
pub fn safe_name(file_name: &str) -> (r: String)
    ensures
        r@ == base_name(file_name@),
{
    let raw: Vec<char> = text::to_chars(file_name);
    let mut cs: Vec<char> = Vec::new();
    let mut i: usize = 0;
    while i < raw.len()
        invariant
            i <= raw@.len(),
            raw@ == file_name@,
            cs@ == unified(file_name@).take(i as int),
        decreases raw@.len() - i,
    {
        cs.push(
            if raw[i] == '\\' {
                '/'
            } else {
                raw[i]
            },
        );
        i = i + 1;
        assert(cs@ =~= unified(file_name@).take(i as int));
    }
    assert(cs@ =~= unified(file_name@));
    let start: usize = text::tail_start(cs.as_slice(), '/');
    text::from_chars(vstd::slice::slice_subrange(cs.as_slice(), start, cs.len()))
}

/// A served name is a tail of the requested one and holds no separator.
pub proof fn lemma_base_name_has_no_separator(s: Seq<char>)
    ensures
        !base_name(s).contains('/'),
        !base_name(s).contains('\\'),
        base_name(s).len() <= s.len(),
        base_name(s) == s.subrange(s.len() - base_name(s).len(), s.len() as int),
{
    let u = unified(s);
    text::lemma_after_last(u, '/');
    let b = base_name(s);
    assert forall|i: int| 0 <= i < b.len() implies #[trigger] b[i] == s[s.len() - b.len() + i]
        && b[i] != '\\' by {
        assert(b[i] == u[u.len() - b.len() + i]);
    }
    assert(b =~= s.subrange(s.len() - b.len(), s.len() as int));
}

// ---------------------------------------------------------------- packets

/// DATA packet. The block number is taken modulo 65536.
pub open spec fn data_bytes(block: int, payload: Seq<u8>) -> Seq<u8> {
    bytes::be16_bytes(OP_DATA) + bytes::be16_bytes((block % 0x1_0000) as u16) + payload
}

/// ACK packet.
pub open spec fn ack_bytes(block: u16) -> Seq<u8> {
    bytes::be16_bytes(OP_ACK) + bytes::be16_bytes(block)
}

/// ERROR packet.
pub open spec fn error_bytes(code: u16, message: Seq<char>) -> Seq<u8> {
    bytes::be16_bytes(OP_ERROR) + bytes::be16_bytes(code) + vstd::utf8::encode_utf8(message)
        + seq![0u8]
}

/// A zero-terminated field.
pub open spec fn field_bytes(s: Seq<char>) -> Seq<u8> {
    vstd::utf8::encode_utf8(s) + seq![0u8]
}

/// Names and values of options as fields, one after the other.
pub open spec fn options_bytes(options: Seq<(Seq<char>, Seq<char>)>) -> Seq<u8>
    decreases options.len(),
{
    if options.len() == 0 {
        Seq::empty()
    } else {
        options_bytes(options.drop_last()) + (field_bytes(options.last().0) + field_bytes(
            options.last().1,
        ))
    }
}

/// OACK packet.
pub open spec fn oack_bytes(options: Seq<(Seq<char>, Seq<char>)>) -> Seq<u8> {
    bytes::be16_bytes(OP_OACK) + options_bytes(options)
}

/// Request packet.
pub open spec fn request_bytes(r: RequestV) -> Seq<u8> {
    bytes::be16_bytes(r.op) + field_bytes(r.file_name) + field_bytes(r.mode) + options_bytes(
        r.options,
    )
}

/// Writes a DATA packet.
pub fn data_packet(block: u32, payload: &[u8]) -> (r: Vec<u8>)
    ensures
        r@ == data_bytes(block as int, payload@),
{
    let mut pkt: Vec<u8> = Vec::new();
    bytes::put_be16(&mut pkt, OP_DATA);
    bytes::put_be16(&mut pkt, (block % 0x1_0000) as u16);
    bytes::put_all(&mut pkt, payload);
    assert(pkt@ =~= data_bytes(block as int, payload@));
    pkt
}

/// Writes an ACK packet.
pub fn ack_packet(block: u16) -> (r: Vec<u8>)
    ensures
        r@ == ack_bytes(block),
{
    let mut pkt: Vec<u8> = Vec::new();
    bytes::put_be16(&mut pkt, OP_ACK);
    bytes::put_be16(&mut pkt, block);
    assert(pkt@ =~= ack_bytes(block));
    pkt
}

/// Writes an ERROR packet.
pub fn error_packet(code: u16, message: &str) -> (r: Vec<u8>)
    ensures
        r@ == error_bytes(code, message@),
{
    let mut pkt: Vec<u8> = Vec::new();
    bytes::put_be16(&mut pkt, OP_ERROR);
    bytes::put_be16(&mut pkt, code);
    bytes::put_all(&mut pkt, message.as_bytes());
    pkt.push(0);
    assert(pkt@ =~= error_bytes(code, message@));
    pkt
}

/// Appends a zero-terminated field.
pub fn put_field(out: &mut Vec<u8>, s: &str)
    ensures
        final(out)@ == old(out)@ + field_bytes(s@),
{
    bytes::put_all(out, s.as_bytes());
    out.push(0);
    assert(out@ =~= old(out)@ + field_bytes(s@));
}

/// Appends options as fields.
pub fn put_options(out: &mut Vec<u8>, options: &Vec<(String, String)>)
    ensures
        final(out)@ == old(out)@ + options_bytes(option_views(options@)),
{
    let ghost ov = option_views(options@);
    let ghost before = out@;
    let mut i: usize = 0;
    assert(before + options_bytes(ov.take(0)) =~= before);
    while i < options.len()
        invariant
            i <= options@.len(),
            ov == option_views(options@),
            out@ == before + options_bytes(ov.take(i as int)),
        decreases options@.len() - i,
    {
        let o: &(String, String) = &options[i];
        put_field(out, o.0.as_str());
        put_field(out, o.1.as_str());
        proof {
            let upto = ov.take(i + 1);
            assert(upto.drop_last() =~= ov.take(i as int));
            assert(upto.last() == (o.0@, o.1@));
            assert(out@ =~= before + options_bytes(upto));
        }
        i = i + 1;
    }
    assert(ov.take(i as int) =~= ov);
}

/// Writes an OACK packet.
pub fn build_oack(options: &Vec<(String, String)>) -> (r: Vec<u8>)
    ensures
        r@ == oack_bytes(option_views(options@)),
{
    let mut pkt: Vec<u8> = Vec::new();
    bytes::put_be16(&mut pkt, OP_OACK);
    put_options(&mut pkt, options);
    assert(pkt@ =~= oack_bytes(option_views(options@)));
    pkt
}

/// Writes a request packet.
pub fn build_request(req: &Request) -> (r: Vec<u8>)
    ensures
        r@ == request_bytes(req@),
{
    let mut pkt: Vec<u8> = Vec::new();
    bytes::put_be16(&mut pkt, req.op);
    put_field(&mut pkt, req.file_name.as_str());
    put_field(&mut pkt, req.mode.as_str());
    put_options(&mut pkt, &req.options);
    assert(pkt@ =~= request_bytes(req@));
    pkt
}

// ---------------------------------------------------------------- received packets

/// A packet that came in during a transfer.
#[derive(Clone, Copy, PartialEq, Eq, Structural)]
pub enum Incoming {
    /// Fewer than four bytes.
    Short,
    /// DATA with its block number; the payload stands behind the fourth byte.
    Data(u16),
    /// ACK with its block number.
    Ack(u16),
    Error,
    Other,
}

/// What a packet is.
pub open spec fn incoming(p: Seq<u8>) -> Incoming {
    if p.len() < 4 {
        Incoming::Short
    } else {
        let op = bytes::be16_at(p, 0);
        let number = bytes::be16_at(p, 2) as u16;
        if op == OP_DATA {
            Incoming::Data(number)
        } else if op == OP_ACK {
            Incoming::Ack(number)
        } else if op == OP_ERROR {
            Incoming::Error
        } else {
            Incoming::Other
        }
    }
}

/// Tells what a packet is.
pub fn classify(p: &[u8]) -> (r: Incoming)
    ensures
        r == incoming(p@),
{
    if p.len() < 4 {
        return Incoming::Short;
    }
    let op: u16 = bytes::be16(p, 0);
    let number: u16 = bytes::be16(p, 2);
    if op == OP_DATA {
        Incoming::Data(number)
    } else if op == OP_ACK {
        Incoming::Ack(number)
    } else if op == OP_ERROR {
        Incoming::Error
    } else {
        Incoming::Other
    }
}

/// Block number `a` lies before `b` in the circle of 65536 numbers: the way from `b` forward to `a` is
/// at least half the circle.
pub open spec fn behind(a: u16, b: u16) -> bool {
    (a - b) % 0x1_0000 >= 0x8000
}

/// Tells whether block number `a` lies before `b`.
pub fn is_behind(a: u16, b: u16) -> (r: bool)
    ensures
        r == behind(a, b),
{
    a.wrapping_sub(b) >= 0x8000
}

/// A packet is read back as what it was written as.
pub proof fn lemma_packets_read_back(block: u16, payload: Seq<u8>, code: u16, message: Seq<char>)
    ensures
        incoming(data_bytes(block as int, payload)) == Incoming::Data(block),
        data_bytes(block as int, payload).skip(4) == payload,
        incoming(ack_bytes(block)) == Incoming::Ack(block),
        incoming(error_bytes(code, message)) == Incoming::Error,
        bytes::be16_at(error_bytes(code, message), 2) == code,
{
    bytes::lemma_be16_round_trip(block);
    bytes::lemma_be16_round_trip(code);
    let d = data_bytes(block as int, payload);
    assert(d.skip(4) =~= payload);
    assert(d[0] == 0 && d[1] == 3);
    assert(d[2] == bytes::be16_bytes(block)[0] && d[3] == bytes::be16_bytes(block)[1]);
    let a = ack_bytes(block);
    assert(a[0] == 0 && a[1] == 4);
    assert(a[2] == bytes::be16_bytes(block)[0] && a[3] == bytes::be16_bytes(block)[1]);
    let e = error_bytes(code, message);
    assert(e[0] == 0 && e[1] == 5);
    assert(e[2] == bytes::be16_bytes(code)[0] && e[3] == bytes::be16_bytes(code)[1]);
}

} // verus!
