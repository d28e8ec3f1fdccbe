//! The TFTP server (RFC 1350, 2347, 2348, 2349): how a request is admitted, what is negotiated, and
//! the two transfers as state machines.
//!
//! A transfer takes events (a chunk of the file, a packet, a timeout) and gives the effects to perform,
//! in order, and what to wait for next.

use vstd::prelude::*;
use vstd::string::*;

use crate::bytes;
use crate::config::{TFTP_DEFAULT_TIMEOUT_SECONDS, TFTP_MAX_RETRIES};
use crate::log::LogLevel;
use crate::net;
use crate::text;
use crate::tftp_wire;
use crate::tftp_wire::{Incoming, Request, RequestV, OP_READ, OP_WRITE};

verus! {

// ---------------------------------------------------------------- statistics

/// Statistics of one transfer.
pub struct TransferInfo {
    pub file_name: String,
    pub remote: String,
    /// Size of the file that is sent; -1 where it is not known.
    pub total_bytes: i64,
    pub is_upload: bool,
    pub bytes_sent: u64,
    pub blocks: u64,
    pub retransmits: u64,
    /// Time since the transfer began, in nanoseconds.
    pub nanos: u64,
    pub done: bool,
    pub error: Option<String>,
}

/// What the statistics say.
pub struct TransferV {
    pub file_name: Seq<char>,
    pub remote: Seq<char>,
    pub total_bytes: i64,
    pub is_upload: bool,
    pub bytes_sent: u64,
    pub blocks: u64,
    pub retransmits: u64,
    pub nanos: u64,
    pub done: bool,
    pub error: Option<Seq<char>>,
}

/// What an optional text says.
pub open spec fn text_view(s: Option<String>) -> Option<Seq<char>> {
    match s {
        Some(s) => Some(s@),
        None => None,
    }
}

impl View for TransferInfo {
    type V = TransferV;

    open spec fn view(&self) -> TransferV {
        TransferV {
            file_name: self.file_name@,
            remote: self.remote@,
            total_bytes: self.total_bytes,
            is_upload: self.is_upload,
            bytes_sent: self.bytes_sent,
            blocks: self.blocks,
            retransmits: self.retransmits,
            nanos: self.nanos,
            done: self.done,
            error: text_view(self.error),
        }
    }
}

impl TransferInfo {
    /// The statistics of a transfer that has not begun.
    pub fn new(file_name: &str, remote: &str, total_bytes: i64, is_upload: bool) -> (r: Self)
        ensures
            r@ == fresh_info(file_name@, remote@, total_bytes, is_upload),
    {
        TransferInfo {
            file_name: file_name.to_owned(),
            remote: remote.to_owned(),
            total_bytes,
            is_upload,
            bytes_sent: 0,
            blocks: 0,
            retransmits: 0,
            nanos: 0,
            done: false,
            error: None,
        }
    }

    /// A copy.
    pub fn copy(&self) -> (r: Self)
        ensures
            r@ == self@,
    {
        TransferInfo {
            file_name: self.file_name.clone(),
            remote: self.remote.clone(),
            total_bytes: self.total_bytes,
            is_upload: self.is_upload,
            bytes_sent: self.bytes_sent,
            blocks: self.blocks,
            retransmits: self.retransmits,
            nanos: self.nanos,
            done: self.done,
            error: match &self.error {
                Some(e) => Some(e.clone()),
                None => None,
            },
        }
    }

    /// The transfer broke off with `error`.
    pub fn fail(&mut self, error: String)
        ensures
            final(self)@ == (TransferV { error: Some(error@), done: true, ..old(self)@ }),
    {
        self.error = Some(error);
        self.done = true;
    }
}

/// The statistics of a transfer that has not begun.
pub open spec fn fresh_info(
    file_name: Seq<char>,
    remote: Seq<char>,
    total_bytes: i64,
    is_upload: bool,
) -> TransferV {
    TransferV {
        file_name,
        remote,
        total_bytes,
        is_upload,
        bytes_sent: 0,
        blocks: 0,
        retransmits: 0,
        nanos: 0,
        done: false,
        error: None,
    }
}

// ---------------------------------------------------------------- effects

/// Something that a transfer has the outside do.
pub enum TransferEffect {
    /// Sends a packet; that it could not be sent ends the transfer.
    Transmit(Vec<u8>),
    /// Sends a packet once more; that it could not be sent makes no difference.
    Retransmit(Vec<u8>),
    /// Appends to the received file; that it could not be written ends the transfer.
    Store(Vec<u8>),
    /// Tells how the transfer stands.
    Report(TransferInfo),
    /// A line for the log.
    Log(LogLevel, String),
}

/// What an effect says.
pub enum TransferEffectV {
    Transmit(Seq<u8>),
    Retransmit(Seq<u8>),
    Store(Seq<u8>),
    Report(TransferV),
    Log(LogLevel, Seq<char>),
}

impl View for TransferEffect {
    type V = TransferEffectV;

    open spec fn view(&self) -> TransferEffectV {
        match *self {
            TransferEffect::Transmit(p) => TransferEffectV::Transmit(p@),
            TransferEffect::Retransmit(p) => TransferEffectV::Retransmit(p@),
            TransferEffect::Store(p) => TransferEffectV::Store(p@),
            TransferEffect::Report(i) => TransferEffectV::Report(i@),
            TransferEffect::Log(l, s) => TransferEffectV::Log(l, s@),
        }
    }
}

pub open spec fn effect_views(v: Seq<TransferEffect>) -> Seq<TransferEffectV> {
    v.map_values(|e: TransferEffect| e@)
}

/// What a transfer waits for after its effects.
#[derive(Clone, Copy, PartialEq, Eq, Structural)]
pub enum Next {
    /// The next chunk of the file, as long as a block at most.
    Read,
    /// A packet or a timeout.
    Receive,
    /// Nothing: the transfer is over.
    Stop,
}

fn emit(effects: &mut Vec<TransferEffect>, e: TransferEffect)
    ensures
        effect_views(final(effects)@) == effect_views(old(effects)@).push(e@),
{
    effects.push(e);
    assert(effect_views(effects@) =~= effect_views(old(effects)@).push(e@));
}

fn no_effects() -> (r: Vec<TransferEffect>)
    ensures
        effect_views(r@) == Seq::<TransferEffectV>::empty(),
{
    let v: Vec<TransferEffect> = Vec::new();
    assert(effect_views(v@) =~= Seq::<TransferEffectV>::empty());
    v
}

fn one_effect(e: TransferEffect) -> (r: Vec<TransferEffect>)
    ensures
        effect_views(r@) == seq![e@],
{
    let mut v: Vec<TransferEffect> = no_effects();
    emit(&mut v, e);
    assert(effect_views(v@) =~= seq![e@]);
    v
}

// ---------------------------------------------------------------- admission

/// The other end of a transfer.
#[derive(Clone, Copy, PartialEq, Eq, Structural)]
pub struct Peer {
    pub ip: u32,
    pub port: u16,
}

impl Peer {
    /// The peer as `address:port`.
    pub open spec fn label(self) -> Seq<char> {
        net::ip_text(self.ip) + ":"@ + text::dec(self.port as nat)
    }

    /// The peer as `address:port`.
    pub fn to_text(&self) -> (r: String)
        ensures
            r@ == self.label(),
    {
        let mut s: String = net::ip_string(self.ip);
        s.append(":");
        text::push_dec(&mut s, self.port as u64);
        s
    }
}

/// What becomes of a request.
pub enum Admission {
    /// The file is sent.
    Accept,
    /// The request is answered with an error packet, and a line goes to the log.
    Reject { packet: Vec<u8>, level: LogLevel, line: String },
}

/// What an admission says.
pub enum AdmissionV {
    Accept,
    Reject(Seq<u8>, LogLevel, Seq<char>),
}

impl View for Admission {
    type V = AdmissionV;

    open spec fn view(&self) -> AdmissionV {
        match *self {
            Admission::Accept => AdmissionV::Accept,
            Admission::Reject { packet, level, line } => AdmissionV::Reject(
                packet@,
                level,
                line@,
            ),
        }
    }
}

/// Write requests are always rejected; a read request is rejected where there is no such file.
pub open spec fn admission(r: RequestV, is_file: bool, client: Peer) -> AdmissionV {
    if r.op == OP_WRITE {
        AdmissionV::Reject(
            tftp_wire::error_bytes(2, "Access violation: write requests disabled"@),
            LogLevel::Warn,
            "Write request from "@ + client.label() + " for <"@ + r.file_name + "> rejected"@,
        )
    } else if r.op == OP_READ && !is_file {
        AdmissionV::Reject(
            tftp_wire::error_bytes(1, "File not found"@),
            LogLevel::Warn,
            "Read request for file <"@ + r.file_name + ">. Mode "@ + r.mode + " -> not found"@,
        )
    } else {
        AdmissionV::Accept
    }
}

/// Decides what becomes of a request. `is_file` tells whether the served directory holds a file under
/// the last component of the requested name.
pub fn decide_request(req: &Request, is_file: bool, client: Peer) -> (r: Admission)
    ensures
        r@ == admission(req@, is_file, client),
{
    if req.op == OP_WRITE {
        let mut line: String = "Write request from ".to_owned();
        let who: String = client.to_text();
        line.append(who.as_str());
        line.append(" for <");
        line.append(req.file_name.as_str());
        line.append("> rejected");
        return Admission::Reject {
            packet: tftp_wire::error_packet(2, "Access violation: write requests disabled"),
            level: LogLevel::Warn,
            line,
        };
    }
    if req.op == OP_READ && !is_file {
        let mut line: String = "Read request for file <".to_owned();
        line.append(req.file_name.as_str());
        line.append(">. Mode ");
        line.append(req.mode.as_str());
        line.append(" -> not found");
        return Admission::Reject {
            packet: tftp_wire::error_packet(1, "File not found"),
            level: LogLevel::Warn,
            line,
        };
    }
    Admission::Accept
}

// ---------------------------------------------------------------- negotiation

/// The value of the first option with this name, whatever its case.
pub open spec fn option_value(
    options: Seq<(Seq<char>, Seq<char>)>,
    name: Seq<char>,
) -> Option<Seq<char>>
    decreases options.len(),
{
    if options.len() == 0 {
        None
    } else if text::same_letters(options[0].0, name) {
        Some(options[0].1)
    } else {
        option_value(options.drop_first(), name)
    }
}

/// The number that the first option with this name gives, if its value is one up to `max`.
pub open spec fn option_number(
    options: Seq<(Seq<char>, Seq<char>)>,
    name: Seq<char>,
    max: nat,
) -> Option<nat> {
    match option_value(options, name) {
        Some(v) => text::number_up_to(v, max),
        None => None,
    }
}

pub open spec fn clamp(v: nat, low: nat, high: nat) -> nat {
    if v < low {
        low
    } else if v > high {
        high
    } else {
        v
    }
}

/// Block size: 512, or what the client asks for, kept between 8 and 65464.
pub open spec fn block_size(options: Seq<(Seq<char>, Seq<char>)>) -> nat {
    match option_number(options, "blksize"@, usize::MAX as nat) {
        Some(n) => clamp(n, 8, 65464),
        None => 512,
    }
}

/// Seconds to a retransmission: the default, or what the client asks for, kept between 1 and 255.
pub open spec fn retry_seconds(options: Seq<(Seq<char>, Seq<char>)>, default: u32) -> nat {
    match option_number(options, "timeout"@, u32::MAX as nat) {
        Some(n) => clamp(n, 1, 255),
        None => default as nat,
    }
}

/// The options that the server confirms.
pub open spec fn confirmed(r: RequestV, default: u32, total: i64) -> Seq<(Seq<char>, Seq<char>)> {
    let two = seq![
        ("blksize"@, text::dec(block_size(r.options))),
        ("timeout"@, text::dec(retry_seconds(r.options, default))),
    ];
    if r.op == OP_READ {
        two.push(
            (
                "tsize"@,
                text::dec(
                    if total > 0 {
                        total as nat
                    } else {
                        0
                    },
                ),
            ),
        )
    } else {
        two
    }
}

/// Options as `name=value`, joined by commas.
pub open spec fn pairs(options: Seq<(Seq<char>, Seq<char>)>) -> Seq<Seq<char>> {
    options.map_values(|o: (Seq<char>, Seq<char>)| o.0 + "="@ + o.1)
}

fn first_value(options: &Vec<(String, String)>, name: &str) -> (r: Option<usize>)
    ensures
        match r {
            Some(i) => i < options@.len() && option_value(
                tftp_wire::option_views(options@),
                name@,
            ) == Some(options@[i as int].1@),
            None => option_value(tftp_wire::option_views(options@), name@) is None,
        },
{
    let ghost ov = tftp_wire::option_views(options@);
    let mut i: usize = 0;
    assert(ov.skip(0) =~= ov);
    while i < options.len()
        invariant
            i <= options@.len(),
            ov == tftp_wire::option_views(options@),
            option_value(ov, name@) == option_value(ov.skip(i as int), name@),
        decreases options@.len() - i,
    {
        let o: &(String, String) = &options[i];
        assert(ov.skip(i as int)[0] == (o.0@, o.1@));
        if text::eq_ignore_ascii_case(o.0.as_str(), name) {
            return Some(i);
        }
        assert(ov.skip(i as int).drop_first() =~= ov.skip(i + 1));
        i = i + 1;
    }
    None
}

fn number_option(options: &Vec<(String, String)>, name: &str, max: u64) -> (r: Option<u64>)
    ensures
        match r {
            Some(n) => option_number(tftp_wire::option_views(options@), name@, max as nat)
                == Some(n as nat),
            None => option_number(tftp_wire::option_views(options@), name@, max as nat) is None,
        },
{
    match first_value(options, name) {
        Some(i) => text::parse_up_to(options[i].1.as_str(), max),
        None => None,
    }
}

/// The block size that a request leads to.
pub fn negotiate_block_size(options: &Vec<(String, String)>) -> (r: usize)
    ensures
        r == block_size(tftp_wire::option_views(options@)),
        8 <= r <= 65464,
{
    match number_option(options, "blksize", usize::MAX as u64) {
        Some(n) => if n < 8 {
            8
        } else if n > 65464 {
            65464
        } else {
            n as usize
        },
        None => 512,
    }
}

/// The seconds to a retransmission that a request leads to.
pub fn negotiate_timeout(options: &Vec<(String, String)>, default: u32) -> (r: u32)
    ensures
        r == retry_seconds(tftp_wire::option_views(options@), default),
        default > 0 ==> r > 0,
{
    match number_option(options, "timeout", u32::MAX as u64) {
        Some(n) => if n < 1 {
            1
        } else if n > 255 {
            255
        } else {
            n as u32
        },
        None => default,
    }
}

// ---------------------------------------------------------------- opening

/// How an accepted transfer begins.
pub struct Opening {
    pub info: TransferInfo,
    pub block_size: usize,
    pub timeout_seconds: u32,
    /// The option acknowledgement, where the request has options.
    pub oack: Option<Vec<u8>>,
    /// Lines to log, packets to send.
    pub effects: Vec<TransferEffect>,
}

/// The effects with which a transfer begins.
pub open spec fn opening_effects(
    r: RequestV,
    client: Peer,
    local_port: u16,
    total: i64,
    default_timeout: u32,
) -> Seq<TransferEffectV> {
    let what = if r.op == OP_READ {
        "Read"@
    } else {
        "Write"@
    };
    let lines = seq![
        TransferEffectV::Log(
            LogLevel::Info,
            "Connection received from "@ + net::ip_text(client.ip) + " on port "@ + text::dec(
                client.port as nat,
            ),
        ),
        TransferEffectV::Log(
            LogLevel::Info,
            what + " request for file <"@ + r.file_name + ">. Mode "@ + r.mode,
        ),
        TransferEffectV::Log(
            LogLevel::Debug,
            "Using local port "@ + text::dec(local_port as nat),
        ),
    ];
    if r.options.len() > 0 {
        let options = confirmed(r, default_timeout, total);
        lines + seq![
            TransferEffectV::Transmit(tftp_wire::oack_bytes(options)),
            TransferEffectV::Log(
                LogLevel::Debug,
                "OACK: <"@ + text::join(pairs(options), ","@) + ">"@,
            ),
        ]
    } else {
        lines
    }
}

/// The option acknowledgement of a request.
pub open spec fn opening_oack(r: RequestV, total: i64, default_timeout: u32) -> Option<Seq<u8>> {
    if r.options.len() > 0 {
        Some(tftp_wire::oack_bytes(confirmed(r, default_timeout, total)))
    } else {
        None
    }
}

/// What an optional packet says.
pub open spec fn packet_view(p: Option<Vec<u8>>) -> Option<Seq<u8>> {
    match p {
        Some(p) => Some(p@),
        None => None,
    }
}

fn confirm_options(req: &Request, block: usize, timeout: u32, default: u32, total: i64) -> (r: Vec<
    (String, String),
>)
    requires
        block == block_size(req@.options),
        timeout == retry_seconds(req@.options, default),
    ensures
        tftp_wire::option_views(r@) == confirmed(req@, default, total),
{
    let mut out: Vec<(String, String)> = Vec::new();
    out.push(("blksize".to_owned(), text::u64_text(block as u64)));
    out.push(("timeout".to_owned(), text::u64_text(timeout as u64)));
    if req.op == OP_READ {
        let size: u64 = if total > 0 {
            total as u64
        } else {
            0
        };
        out.push(("tsize".to_owned(), text::u64_text(size)));
    }
    assert(tftp_wire::option_views(out@) =~= confirmed(req@, default, total));
    out
}

fn oack_line(options: &Vec<(String, String)>) -> (r: String)
    ensures
        r@ == "OACK: <"@ + text::join(pairs(tftp_wire::option_views(options@)), ","@) + ">"@,
{
    let ghost ov = tftp_wire::option_views(options@);
    let mut parts: Vec<String> = Vec::new();
    let mut i: usize = 0;
    while i < options.len()
        invariant
            i <= options@.len(),
            ov == tftp_wire::option_views(options@),
            text::views(parts@) == pairs(ov).take(i as int),
        decreases options@.len() - i,
    {
        let o: &(String, String) = &options[i];
        let mut part: String = o.0.clone();
        part.append("=");
        part.append(o.1.as_str());
        assert(part@ == pairs(ov)[i as int]);
        let ghost before = text::views(parts@);
        let ghost added = part@;
        parts.push(part);
        i = i + 1;
        proof {
            assert(text::views(parts@) =~= before.push(added));
            assert(pairs(ov).take(i as int) =~= pairs(ov).take(i - 1).push(added));
        }
    }
    assert(pairs(ov).take(i as int) =~= pairs(ov));
    let list: String = text::join_text(parts.as_slice(), ",");
    let mut line: String = "OACK: <".to_owned();
    line.append(list.as_str());
    line.append(">");
    line
}

/// Begins an accepted transfer. `total` is the size of the file, -1 where it is not known.
pub fn open_transfer(
    req: &Request,
    client: Peer,
    local_port: u16,
    total: i64,
    default_timeout: u32,
) -> (r: Opening)
    ensures
        r.info@ == fresh_info(req@.file_name, client.label(), total, req@.op == OP_WRITE),
        r.block_size == block_size(req@.options),
        8 <= r.block_size <= 65464,
        r.timeout_seconds == retry_seconds(req@.options, default_timeout),
        packet_view(r.oack) == opening_oack(req@, total, default_timeout),
        effect_views(r.effects@) == opening_effects(
            req@,
            client,
            local_port,
            total,
            default_timeout,
        ),
{
    let who: String = client.to_text();
    let info = TransferInfo::new(req.file_name.as_str(), who.as_str(), total, req.op == OP_WRITE);
    let mut effects: Vec<TransferEffect> = no_effects();

    let mut first: String = "Connection received from ".to_owned();
    let addr: String = net::ip_string(client.ip);
    first.append(addr.as_str());
    first.append(" on port ");
    text::push_dec(&mut first, client.port as u64);
    emit(&mut effects, TransferEffect::Log(LogLevel::Info, first));

    let mut second: String = if req.op == OP_READ {
        "Read".to_owned()
    } else {
        "Write".to_owned()
    };
    second.append(" request for file <");
    second.append(req.file_name.as_str());
    second.append(">. Mode ");
    second.append(req.mode.as_str());
    emit(&mut effects, TransferEffect::Log(LogLevel::Info, second));

    let mut third: String = "Using local port ".to_owned();
    text::push_dec(&mut third, local_port as u64);
    emit(&mut effects, TransferEffect::Log(LogLevel::Debug, third));

    let block_size: usize = negotiate_block_size(&req.options);
    let timeout_seconds: u32 = negotiate_timeout(&req.options, default_timeout);
    let mut oack: Option<Vec<u8>> = None;
    if req.options.len() > 0 {
        let options = confirm_options(req, block_size, timeout_seconds, default_timeout, total);
        let packet: Vec<u8> = tftp_wire::build_oack(&options);
        emit(
            &mut effects,
            TransferEffect::Transmit(bytes::copy_all(packet.as_slice())),
        );
        let line: String = oack_line(&options);
        emit(&mut effects, TransferEffect::Log(LogLevel::Debug, line));
        oack = Some(packet);
    }
    assert(effect_views(effects@) =~= opening_effects(
        req@,
        client,
        local_port,
        total,
        default_timeout,
    ));
    Opening { info, block_size, timeout_seconds, oack, effects }
}

// ---------------------------------------------------------------- sending

/// Where a sending transfer stands.
#[derive(Clone, Copy, PartialEq, Eq, Structural)]
pub enum SendPhase {
    /// The option acknowledgement is out.
    Opening,
    /// A chunk of the file is wanted.
    Reading,
    /// A block is out.
    Waiting,
    Finished,
}

/// A file on its way to a client.
pub struct Sender {
    pub info: TransferInfo,
    pub block_size: usize,
    pub max_retries: u32,
    pub phase: SendPhase,
    /// Number of the block that is out or comes next.
    pub block: u32,
    /// Bytes that were acknowledged.
    pub sent: u64,
    /// Packets that were sent again, timeouts counted.
    pub resent: u64,
    /// Timeouts since the last packet from the client.
    pub timeouts: u32,
    /// The packet that is out.
    pub packet: Vec<u8>,
    /// Length of the chunk that is out.
    pub chunk: usize,
}

/// State of a sending transfer.
pub struct SenderV {
    pub info: TransferV,
    pub block_size: nat,
    pub max_retries: u32,
    pub phase: SendPhase,
    pub block: u32,
    pub sent: u64,
    pub resent: u64,
    pub timeouts: u32,
    pub packet: Seq<u8>,
    pub chunk: nat,
}

impl View for Sender {
    type V = SenderV;

    open spec fn view(&self) -> SenderV {
        SenderV {
            info: self.info@,
            block_size: self.block_size as nat,
            max_retries: self.max_retries,
            phase: self.phase,
            block: self.block,
            sent: self.sent,
            resent: self.resent,
            timeouts: self.timeouts,
            packet: self.packet@,
            chunk: self.chunk as nat,
        }
    }
}

/// Outcome of an event: the state after it, its effects, what comes next.
pub struct SendStepV {
    pub state: SenderV,
    pub effects: Seq<TransferEffectV>,
    pub next: Next,
}

/// The statistics at the end of a transfer.
pub open spec fn finished(
    info: TransferV,
    nanos: u64,
    bytes: u64,
    blocks: u64,
    resent: u64,
) -> TransferV {
    TransferV {
        done: true,
        nanos,
        retransmits: resent,
        bytes_sent: bytes,
        blocks,
        ..info
    }
}

/// A sending transfer begins: with an option acknowledgement out it waits for its ACK.
pub open spec fn send_start(
    info: TransferV,
    block_size: nat,
    max_retries: u32,
    oack: Option<Seq<u8>>,
) -> SendStepV {
    let idle = SenderV {
        info,
        block_size,
        max_retries,
        phase: SendPhase::Reading,
        block: 1,
        sent: 0,
        resent: 0,
        timeouts: 0,
        packet: Seq::empty(),
        chunk: 0,
    };
    match oack {
        Some(p) => SendStepV {
            state: SenderV { phase: SendPhase::Opening, packet: p, ..idle },
            effects: Seq::empty(),
            next: Next::Receive,
        },
        None => SendStepV { state: idle, effects: Seq::empty(), next: Next::Read },
    }
}

/// A chunk was read: it goes out as the next block.
pub open spec fn send_chunk(s: SenderV, data: Seq<u8>) -> SendStepV {
    let packet = tftp_wire::data_bytes(s.block as int, data);
    SendStepV {
        state: SenderV {
            info: TransferV { blocks: s.block as u64, ..s.info },
            phase: SendPhase::Waiting,
            timeouts: 0,
            packet,
            chunk: data.len(),
            ..s
        },
        effects: seq![TransferEffectV::Transmit(packet)],
        next: Next::Receive,
    }
}

/// The client does not answer any more.
pub open spec fn send_given_up(s: SenderV, nanos: u64) -> SendStepV {
    let opening = s.phase == SendPhase::Opening;
    let info = finished(
        TransferV {
            error: Some(
                if opening {
                    "timeout waiting for initial ACK"@
                } else {
                    "timeout"@
                },
            ),
            ..s.info
        },
        nanos,
        s.sent,
        if opening {
            0
        } else {
            s.block as u64
        },
        s.resent,
    );
    SendStepV {
        state: SenderV { info, phase: SendPhase::Finished, ..s },
        effects: seq![TransferEffectV::Report(info)],
        next: Next::Stop,
    }
}

/// Nothing came in time: the packet goes out again, or the transfer is given up.
pub open spec fn send_timeout(s: SenderV, nanos: u64) -> SendStepV {
    let late = SenderV {
        resent: (s.resent + 1) as u64,
        timeouts: (s.timeouts + 1) as u32,
        ..s
    };
    if late.timeouts > s.max_retries {
        send_given_up(late, nanos)
    } else {
        SendStepV {
            state: late,
            effects: seq![TransferEffectV::Retransmit(s.packet)],
            next: Next::Receive,
        }
    }
}

/// The packet that is out was acknowledged.
pub open spec fn send_acked(s: SenderV, nanos: u64) -> SendStepV {
    if s.phase == SendPhase::Opening {
        SendStepV {
            state: SenderV { phase: SendPhase::Reading, ..s },
            effects: Seq::empty(),
            next: Next::Read,
        }
    } else {
        let bytes = (s.sent + s.chunk) as u64;
        let info = TransferV { bytes_sent: bytes, nanos, ..s.info };
        let went = SenderV { info, sent: bytes, block: (s.block + 1) as u32, ..s };
        if s.chunk < s.block_size {
            let end = finished(info, nanos, bytes, s.block as u64, s.resent);
            SendStepV {
                state: SenderV { info: end, phase: SendPhase::Finished, ..went },
                effects: seq![
                    TransferEffectV::Report(info),
                    TransferEffectV::Report(end),
                    TransferEffectV::Log(LogLevel::Info, end_line(end, "sent"@)),
                ],
                next: Next::Stop,
            }
        } else {
            SendStepV {
                state: SenderV { phase: SendPhase::Reading, ..went },
                effects: seq![TransferEffectV::Report(info)],
                next: Next::Read,
            }
        }
    }
}

/// The line that sums a transfer up.
pub open spec fn end_line(i: TransferV, what: Seq<char>) -> Seq<char> {
    "<"@ + i.file_name + ">: "@ + what + " "@ + text::dec(i.blocks as nat) + " blks, "@ + text::dec(
        i.bytes_sent as nat,
    ) + " bytes in "@ + text::dec((i.nanos / 1_000_000_000) as nat) + " s. "@ + text::dec(
        i.retransmits as nat,
    ) + " blk resent"@
}

/// Number of the block whose acknowledgement is waited for.
pub open spec fn awaited(s: SenderV) -> u16 {
    if s.phase == SendPhase::Opening {
        0
    } else {
        (s.block % 0x1_0000) as u16
    }
}

/// A packet came in. An earlier acknowledgement has the packet sent again; a later one is ignored.
pub open spec fn send_packet(s: SenderV, p: Seq<u8>, nanos: u64) -> SendStepV {
    let heard = SenderV { timeouts: 0, ..s };
    let wait = SendStepV { state: heard, effects: Seq::empty(), next: Next::Receive };
    match tftp_wire::incoming(p) {
        Incoming::Ack(b) => if b == awaited(s) {
            send_acked(heard, nanos)
        } else if tftp_wire::behind(b, awaited(s)) {
            SendStepV {
                state: SenderV { resent: (s.resent + 1) as u64, ..heard },
                effects: seq![TransferEffectV::Retransmit(s.packet)],
                next: Next::Receive,
            }
        } else {
            wait
        },
        Incoming::Error => send_given_up(heard, nanos),
        _ => wait,
    }
}

/// The counters have room for one more event.
pub open spec fn send_room(s: SenderV) -> bool {
    &&& s.resent < u64::MAX
    &&& s.timeouts < u32::MAX
    &&& s.block < u32::MAX
    &&& s.sent + s.chunk <= u64::MAX
}

fn end_text(info: &TransferInfo, what: &str) -> (r: String)
    ensures
        r@ == end_line(info@, what@),
{
    let mut s: String = "<".to_owned();
    s.append(info.file_name.as_str());
    s.append(">: ");
    s.append(what);
    s.append(" ");
    text::push_dec(&mut s, info.blocks);
    s.append(" blks, ");
    text::push_dec(&mut s, info.bytes_sent);
    s.append(" bytes in ");
    text::push_dec(&mut s, info.nanos / 1_000_000_000);
    s.append(" s. ");
    text::push_dec(&mut s, info.retransmits);
    s.append(" blk resent");
    s
}

impl Sender {
    /// Begins to send. `oack` is the option acknowledgement that went out.
    pub fn start(
        info: TransferInfo,
        block_size: usize,
        max_retries: u32,
        oack: Option<Vec<u8>>,
    ) -> (r: (Self, Next))
        ensures
            r.0@ == send_start(info@, block_size as nat, max_retries, packet_view(oack)).state,
            r.1 == send_start(info@, block_size as nat, max_retries, packet_view(oack)).next,
    {
        let (phase, packet, next) = match oack {
            Some(p) => (SendPhase::Opening, p, Next::Receive),
            None => (SendPhase::Reading, Vec::new(), Next::Read),
        };
        (
            Sender {
                info,
                block_size,
                max_retries,
                phase,
                block: 1,
                sent: 0,
                resent: 0,
                timeouts: 0,
                packet,
                chunk: 0,
            },
            next,
        )
    }

    /// A chunk was read.
    pub fn on_chunk(&mut self, data: &[u8]) -> (r: (Vec<TransferEffect>, Next))
        requires
            old(self)@.phase == SendPhase::Reading,
            data@.len() <= old(self)@.block_size,
        ensures
            final(self)@ == send_chunk(old(self)@, data@).state,
            effect_views(r.0@) == send_chunk(old(self)@, data@).effects,
            r.1 == send_chunk(old(self)@, data@).next,
    {
        let packet: Vec<u8> = tftp_wire::data_packet(self.block, data);
        let first: Vec<u8> = bytes::copy_all(packet.as_slice());
        self.packet = packet;
        self.chunk = data.len();
        self.timeouts = 0;
        self.phase = SendPhase::Waiting;
        self.info.blocks = self.block as u64;
        (one_effect(TransferEffect::Transmit(first)), Next::Receive)
    }

    /// The packet that is out, once more.
    fn again(&self) -> (r: Vec<TransferEffect>)
        ensures
            effect_views(r@) == seq![TransferEffectV::Retransmit(self@.packet)],
    {
        one_effect(
            TransferEffect::Retransmit(bytes::copy_all(self.packet.as_slice())),
        )
    }

    fn finish(&mut self, nanos: u64, blocks: u64)
        ensures
            final(self)@ == (SenderV {
                info: finished(old(self)@.info, nanos, old(self)@.sent, blocks, old(self)@.resent),
                phase: SendPhase::Finished,
                ..old(self)@
            }),
    {
        self.info.done = true;
        self.info.nanos = nanos;
        self.info.retransmits = self.resent;
        self.info.bytes_sent = self.sent;
        self.info.blocks = blocks;
        self.phase = SendPhase::Finished;
    }

    fn give_up(&mut self, nanos: u64) -> (r: (Vec<TransferEffect>, Next))
        ensures
            final(self)@ == send_given_up(old(self)@, nanos).state,
            effect_views(r.0@) == send_given_up(old(self)@, nanos).effects,
            r.1 == send_given_up(old(self)@, nanos).next,
    {
        let opening: bool = self.phase == SendPhase::Opening;
        self.info.error = if opening {
            Some("timeout waiting for initial ACK".to_owned())
        } else {
            Some("timeout".to_owned())
        };
        let blocks: u64 = if opening {
            0
        } else {
            self.block as u64
        };
        self.finish(nanos, blocks);
        let last: TransferInfo = self.info.copy();
        (one_effect(TransferEffect::Report(last)), Next::Stop)
    }

    /// Nothing came in time.
    pub fn on_timeout(&mut self, nanos: u64) -> (r: (Vec<TransferEffect>, Next))
        requires
            old(self)@.phase == SendPhase::Opening || old(self)@.phase == SendPhase::Waiting,
            send_room(old(self)@),
        ensures
            final(self)@ == send_timeout(old(self)@, nanos).state,
            effect_views(r.0@) == send_timeout(old(self)@, nanos).effects,
            r.1 == send_timeout(old(self)@, nanos).next,
    {
        self.resent = self.resent + 1;
        self.timeouts = self.timeouts + 1;
        if self.timeouts > self.max_retries {
            self.give_up(nanos)
        } else {
            (self.again(), Next::Receive)
        }
    }

    fn on_ack(&mut self, nanos: u64) -> (r: (Vec<TransferEffect>, Next))
        requires
            send_room(old(self)@),
        ensures
            final(self)@ == send_acked(old(self)@, nanos).state,
            effect_views(r.0@) == send_acked(old(self)@, nanos).effects,
            r.1 == send_acked(old(self)@, nanos).next,
    {
        if self.phase == SendPhase::Opening {
            self.phase = SendPhase::Reading;
            return (no_effects(), Next::Read);
        }
        let number: u64 = self.block as u64;
        self.sent = self.sent + self.chunk as u64;
        self.block = self.block + 1;
        self.info.bytes_sent = self.sent;
        self.info.nanos = nanos;
        let mut effects: Vec<TransferEffect> = one_effect(
            TransferEffect::Report(self.info.copy()),
        );
        if self.chunk < self.block_size {
            self.finish(nanos, number);
            emit(&mut effects, TransferEffect::Report(self.info.copy()));
            let line: String = end_text(&self.info, "sent");
            emit(&mut effects, TransferEffect::Log(LogLevel::Info, line));
            assert(effect_views(effects@) =~= send_acked(old(self)@, nanos).effects);
            (effects, Next::Stop)
        } else {
            self.phase = SendPhase::Reading;
            (effects, Next::Read)
        }
    }

    /// A packet came in.
    pub fn on_packet(&mut self, p: &[u8], nanos: u64) -> (r: (Vec<TransferEffect>, Next))
        requires
            old(self)@.phase == SendPhase::Opening || old(self)@.phase == SendPhase::Waiting,
            send_room(old(self)@),
        ensures
            final(self)@ == send_packet(old(self)@, p@, nanos).state,
            effect_views(r.0@) == send_packet(old(self)@, p@, nanos).effects,
            r.1 == send_packet(old(self)@, p@, nanos).next,
    {
        self.timeouts = 0;
        match tftp_wire::classify(p) {
            Incoming::Ack(b) => {
                let want: u16 = if self.phase == SendPhase::Opening {
                    0
                } else {
                    (self.block % 0x1_0000) as u16
                };
                if b == want {
                    self.on_ack(nanos)
                } else if tftp_wire::is_behind(b, want) {
                    self.resent = self.resent + 1;
                    (self.again(), Next::Receive)
                } else {
                    (no_effects(), Next::Receive)
                }
            },
            Incoming::Error => self.give_up(nanos),
            _ => (no_effects(), Next::Receive),
        }
    }
}

// ---------------------------------------------------------------- receiving

/// A file on its way from a client.
pub struct Receiver {
    pub info: TransferInfo,
    pub block_size: usize,
    pub max_retries: u32,
    /// Number of the block that comes next.
    pub expected: u32,
    pub last_acked: u16,
    pub received: u64,
    pub resent: u64,
    pub timeouts: u32,
    pub over: bool,
}

/// State of a receiving transfer.
pub struct ReceiverV {
    pub info: TransferV,
    pub block_size: nat,
    pub max_retries: u32,
    pub expected: u32,
    pub last_acked: u16,
    pub received: u64,
    pub resent: u64,
    pub timeouts: u32,
    pub over: bool,
}

impl View for Receiver {
    type V = ReceiverV;

    open spec fn view(&self) -> ReceiverV {
        ReceiverV {
            info: self.info@,
            block_size: self.block_size as nat,
            max_retries: self.max_retries,
            expected: self.expected,
            last_acked: self.last_acked,
            received: self.received,
            resent: self.resent,
            timeouts: self.timeouts,
            over: self.over,
        }
    }
}

/// Outcome of an event of a receiving transfer.
pub struct ReceiveStepV {
    pub state: ReceiverV,
    pub effects: Seq<TransferEffectV>,
    pub next: Next,
}

/// A receiving transfer begins; without an option acknowledgement block 0 is acknowledged.
pub open spec fn receive_start(
    info: TransferV,
    block_size: nat,
    max_retries: u32,
    oack_sent: bool,
) -> ReceiveStepV {
    ReceiveStepV {
        state: ReceiverV {
            info,
            block_size,
            max_retries,
            expected: 1,
            last_acked: 0,
            received: 0,
            resent: 0,
            timeouts: 0,
            over: false,
        },
        effects: if oack_sent {
            Seq::empty()
        } else {
            seq![TransferEffectV::Transmit(tftp_wire::ack_bytes(0))]
        },
        next: Next::Receive,
    }
}

/// A receiving transfer ends after `effects`, with an error or without.
pub open spec fn receive_end(
    s: ReceiverV,
    error: Option<Seq<char>>,
    effects: Seq<TransferEffectV>,
    nanos: u64,
) -> ReceiveStepV {
    let info = finished(
        TransferV {
            error: match error {
                Some(e) => Some(e),
                None => s.info.error,
            },
            ..s.info
        },
        nanos,
        s.received,
        s.expected as u64,
        s.resent,
    );
    ReceiveStepV {
        state: ReceiverV { info, over: true, ..s },
        effects: effects + seq![
            TransferEffectV::Report(info),
            TransferEffectV::Log(LogLevel::Info, end_line(info, "received"@)),
        ],
        next: Next::Stop,
    }
}

/// The server stops.
pub open spec fn receive_stopped(s: ReceiverV, nanos: u64) -> ReceiveStepV {
    receive_end(s, Some("server stopped"@), Seq::empty(), nanos)
}

/// Nothing came in time: the last acknowledgement goes out again, or the transfer is given up.
pub open spec fn receive_timeout(s: ReceiverV, nanos: u64) -> ReceiveStepV {
    let late = ReceiverV {
        resent: (s.resent + 1) as u64,
        timeouts: (s.timeouts + 1) as u32,
        ..s
    };
    if late.timeouts > s.max_retries {
        receive_end(late, Some("timeout"@), Seq::empty(), nanos)
    } else {
        ReceiveStepV {
            state: late,
            effects: seq![TransferEffectV::Retransmit(tftp_wire::ack_bytes(s.last_acked))],
            next: Next::Receive,
        }
    }
}

/// The transfer goes on after `effects`, and tells how it stands.
pub open spec fn receive_on(
    s: ReceiverV,
    effects: Seq<TransferEffectV>,
    nanos: u64,
) -> ReceiveStepV {
    let info = TransferV { nanos, ..s.info };
    ReceiveStepV {
        state: ReceiverV { info, ..s },
        effects: effects.push(TransferEffectV::Report(info)),
        next: Next::Receive,
    }
}

/// A packet came in: the expected block is stored and acknowledged, a block shorter than the block
/// size is the last. An earlier block has the last acknowledgement sent again; a later one is ignored.
pub open spec fn receive_packet(s: ReceiverV, p: Seq<u8>, nanos: u64) -> ReceiveStepV {
    let heard = ReceiverV { timeouts: 0, ..s };
    let want = (s.expected % 0x1_0000) as u16;
    match tftp_wire::incoming(p) {
        Incoming::Short => ReceiveStepV {
            state: heard,
            effects: Seq::empty(),
            next: Next::Receive,
        },
        Incoming::Data(b) => if b == want {
            let payload = p.skip(4);
            let total = (s.received + payload.len()) as u64;
            let stored = ReceiverV {
                info: TransferV {
                    bytes_sent: total,
                    blocks: s.expected as u64,
                    ..s.info
                },
                received: total,
                last_acked: b,
                ..heard
            };
            let effects = seq![
                TransferEffectV::Store(payload),
                TransferEffectV::Transmit(tftp_wire::ack_bytes(b)),
            ];
            if payload.len() < s.block_size {
                receive_end(stored, None, effects, nanos)
            } else {
                receive_on(
                    ReceiverV { expected: (s.expected + 1) as u32, ..stored },
                    effects,
                    nanos,
                )
            }
        } else if tftp_wire::behind(b, want) {
            receive_on(
                heard,
                seq![TransferEffectV::Retransmit(tftp_wire::ack_bytes(s.last_acked))],
                nanos,
            )
        } else {
            receive_on(heard, Seq::empty(), nanos)
        },
        Incoming::Error => receive_end(heard, Some("client aborted"@), Seq::empty(), nanos),
        _ => receive_on(heard, Seq::empty(), nanos),
    }
}

/// The counters have room for one more event with a packet of `len` bytes.
pub open spec fn receive_room(s: ReceiverV, len: nat) -> bool {
    &&& s.resent < u64::MAX
    &&& s.timeouts < u32::MAX
    &&& s.expected < u32::MAX
    &&& s.received + len <= u64::MAX
}

impl Receiver {
    /// Begins to receive. `oack_sent` tells whether an option acknowledgement went out.
    pub fn start(
        info: TransferInfo,
        block_size: usize,
        max_retries: u32,
        oack_sent: bool,
    ) -> (r: (Self, Vec<TransferEffect>, Next))
        ensures
            r.0@ == receive_start(info@, block_size as nat, max_retries, oack_sent).state,
            effect_views(r.1@) == receive_start(
                info@,
                block_size as nat,
                max_retries,
                oack_sent,
            ).effects,
            r.2 == Next::Receive,
    {
        let effects: Vec<TransferEffect> = if oack_sent {
            no_effects()
        } else {
            one_effect(TransferEffect::Transmit(tftp_wire::ack_packet(0)))
        };
        (
            Receiver {
                info,
                block_size,
                max_retries,
                expected: 1,
                last_acked: 0,
                received: 0,
                resent: 0,
                timeouts: 0,
                over: false,
            },
            effects,
            Next::Receive,
        )
    }

    /// Ends the transfer after the effects so far.
    fn end(&mut self, error: Option<String>, mut effects: Vec<TransferEffect>, nanos: u64) -> (r: (
        Vec<TransferEffect>,
        Next,
    ))
        ensures
            final(self)@ == receive_end(
                old(self)@,
                text_view(error),
                effect_views(effects@),
                nanos,
            ).state,
            effect_views(r.0@) == receive_end(
                old(self)@,
                text_view(error),
                effect_views(effects@),
                nanos,
            ).effects,
            r.1 == Next::Stop,
    {
        let ghost given = text_view(error);
        let ghost before = effect_views(effects@);
        match error {
            Some(e) => {
                self.info.error = Some(e);
            },
            None => {},
        }
        self.info.done = true;
        self.info.nanos = nanos;
        self.info.retransmits = self.resent;
        self.info.bytes_sent = self.received;
        self.info.blocks = self.expected as u64;
        self.over = true;
        emit(&mut effects, TransferEffect::Report(self.info.copy()));
        let line: String = end_text(&self.info, "received");
        emit(&mut effects, TransferEffect::Log(LogLevel::Info, line));
        assert(effect_views(effects@) =~= receive_end(old(self)@, given, before, nanos).effects);
        (effects, Next::Stop)
    }

    /// Goes on after the effects so far.
    fn go_on(&mut self, mut effects: Vec<TransferEffect>, nanos: u64) -> (r: (
        Vec<TransferEffect>,
        Next,
    ))
        ensures
            final(self)@ == receive_on(old(self)@, effect_views(effects@), nanos).state,
            effect_views(r.0@) == receive_on(old(self)@, effect_views(effects@), nanos).effects,
            r.1 == Next::Receive,
    {
        self.info.nanos = nanos;
        emit(&mut effects, TransferEffect::Report(self.info.copy()));
        (effects, Next::Receive)
    }

    /// The server stops.
    pub fn on_stop(&mut self, nanos: u64) -> (r: (Vec<TransferEffect>, Next))
        ensures
            final(self)@ == receive_stopped(old(self)@, nanos).state,
            effect_views(r.0@) == receive_stopped(old(self)@, nanos).effects,
            r.1 == Next::Stop,
    {
        self.end(Some("server stopped".to_owned()), no_effects(), nanos)
    }

    /// Nothing came in time.
    pub fn on_timeout(&mut self, nanos: u64) -> (r: (Vec<TransferEffect>, Next))
        requires
            receive_room(old(self)@, 0),
        ensures
            final(self)@ == receive_timeout(old(self)@, nanos).state,
            effect_views(r.0@) == receive_timeout(old(self)@, nanos).effects,
            r.1 == receive_timeout(old(self)@, nanos).next,
    {
        self.resent = self.resent + 1;
        self.timeouts = self.timeouts + 1;
        if self.timeouts > self.max_retries {
            self.end(Some("timeout".to_owned()), no_effects(), nanos)
        } else {
            (
                one_effect(TransferEffect::Retransmit(tftp_wire::ack_packet(self.last_acked))),
                Next::Receive,
            )
        }
    }

    /// A packet came in.
    pub fn on_packet(&mut self, p: &[u8], nanos: u64) -> (r: (Vec<TransferEffect>, Next))
        requires
            receive_room(old(self)@, p@.len()),
        ensures
            final(self)@ == receive_packet(old(self)@, p@, nanos).state,
            effect_views(r.0@) == receive_packet(old(self)@, p@, nanos).effects,
            r.1 == receive_packet(old(self)@, p@, nanos).next,
    {
        self.timeouts = 0;
        match tftp_wire::classify(p) {
            Incoming::Short => (no_effects(), Next::Receive),
            Incoming::Data(b) => {
                let want: u16 = (self.expected % 0x1_0000) as u16;
                if b == want {
                    let payload: Vec<u8> = bytes::slice_copy(p, 4, p.len());
                    assert(payload@ =~= p@.skip(4));
                    let len: usize = payload.len();
                    self.received = self.received + len as u64;
                    self.info.bytes_sent = self.received;
                    self.info.blocks = self.expected as u64;
                    self.last_acked = b;
                    let mut effects: Vec<TransferEffect> = one_effect(
                        TransferEffect::Store(payload),
                    );
                    emit(&mut effects, TransferEffect::Transmit(tftp_wire::ack_packet(b)));
                    assert(effect_views(effects@) =~= seq![
                        TransferEffectV::Store(p@.skip(4)),
                        TransferEffectV::Transmit(tftp_wire::ack_bytes(b)),
                    ]);
                    if len < self.block_size {
                        self.end(None, effects, nanos)
                    } else {
                        self.expected = self.expected + 1;
                        self.go_on(effects, nanos)
                    }
                } else if tftp_wire::is_behind(b, want) {
                    let effects: Vec<TransferEffect> = one_effect(
                        TransferEffect::Retransmit(tftp_wire::ack_packet(self.last_acked)),
                    );
                    self.go_on(effects, nanos)
                } else {
                    self.go_on(no_effects(), nanos)
                }
            },
            Incoming::Error => self.end(Some("client aborted".to_owned()), no_effects(), nanos),
            _ => self.go_on(no_effects(), nanos),
        }
    }
}

// ---------------------------------------------------------------- the server

/// Settings of the TFTP server.
#[derive(Clone, Copy, PartialEq, Eq, Structural)]
pub struct TftpServer {
    /// Address that the server listens on.
    pub bind: u32,
    pub default_timeout: u32,
    pub max_retries: u32,
}

impl TftpServer {
    /// A server that listens on every address.
    pub fn new() -> (r: Self)
        ensures
            r == (TftpServer {
                bind: 0,
                default_timeout: TFTP_DEFAULT_TIMEOUT_SECONDS,
                max_retries: TFTP_MAX_RETRIES,
            }),
    {
        Self::with_bind(0)
    }

    /// A server that listens on `bind`.
    pub fn with_bind(bind: u32) -> (r: Self)
        ensures
            r == (TftpServer {
                bind,
                default_timeout: TFTP_DEFAULT_TIMEOUT_SECONDS,
                max_retries: TFTP_MAX_RETRIES,
            }),
    {
        TftpServer {
            bind,
            default_timeout: TFTP_DEFAULT_TIMEOUT_SECONDS,
            max_retries: TFTP_MAX_RETRIES,
        }
    }
}

/// The line that tells of a transfer that broke off.
pub fn transfer_error_line(error: &str) -> (r: String)
    ensures
        r@ == "TFTP transfer error: "@ + error@,
{
    let mut s: String = "TFTP transfer error: ".to_owned();
    s.append(error);
    s
}

} // verus!
