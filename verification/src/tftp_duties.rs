//! What the TFTP server owes its clients, in terms of the packets that come in and go out.

use vstd::prelude::*;

use crate::bytes;
use crate::text;
use crate::tftp;
use crate::tftp::{
    AdmissionV, Next, Peer, ReceiverV, SendPhase, SenderV, TransferEffectV, TransferV,
};
use crate::tftp_laws;
use crate::tftp_wire;
use crate::tftp_wire::{Incoming, RequestV};

verus! {

// ---------------------------------------------------------------- packets

/// A packet is told by its first two bytes and numbered by the next two, high byte first; one that is too
/// short for them is none.
pub proof fn lemma_incoming_bytes(p: Seq<u8>)
    ensures
        tftp_wire::incoming(p) == Incoming::Short <==> p.len() < 4,
        p.len() >= 4 ==> {
            let number = (p[2] * 0x100 + p[3]) as u16;
            &&& p[0] == 0 && p[1] == 3 ==> tftp_wire::incoming(p) == Incoming::Data(number)
            &&& p[0] == 0 && p[1] == 4 ==> tftp_wire::incoming(p) == Incoming::Ack(number)
            &&& p[0] == 0 && p[1] == 5 ==> tftp_wire::incoming(p) == Incoming::Error
            &&& p[0] != 0 || p[1] < 3 || p[1] > 5 ==> tftp_wire::incoming(p) == Incoming::Other
        },
{
}

/// A DATA packet of this number that carries `payload`.
pub open spec fn is_data(p: Seq<u8>, number: int, payload: Seq<u8>) -> bool {
    &&& p.len() == 4 + payload.len()
    &&& p[0] == 0 && p[1] == 3
    &&& p[2] == number / 0x100 && p[3] == number % 0x100
    &&& p.skip(4) == payload
}

/// An ACK packet of this number.
pub open spec fn is_ack(p: Seq<u8>, number: int) -> bool {
    p.len() >= 4 && p[0] == 0 && p[1] == 4 && p[2] * 0x100 + p[3] == number
}

/// An ERROR packet with this code.
pub open spec fn is_error(p: Seq<u8>, code: int) -> bool {
    p.len() >= 4 && p[0] == 0 && p[1] == 5 && p[2] * 0x100 + p[3] == code
}

/// The packets that the server writes are of the kind, the number and the payload that they are written
/// for.
pub proof fn lemma_packets_written(block: int, payload: Seq<u8>, number: u16, message: Seq<char>)
    requires
        0 <= block,
    ensures
        is_data(tftp_wire::data_bytes(block, payload), block % 0x1_0000, payload),
        is_ack(tftp_wire::ack_bytes(number), number as int),
        tftp_wire::ack_bytes(number).len() == 4,
        is_error(tftp_wire::error_bytes(number, message), number as int),
        tftp_wire::error_bytes(number, message).skip(4) == vstd::utf8::encode_utf8(message).push(0),
{
    let b = (block % 0x1_0000) as u16;
    let d = tftp_wire::data_bytes(block, payload);
    assert(d.skip(4) =~= payload);
    assert(d[2] == b / 0x100 && d[3] == b % 0x100);
    let e = tftp_wire::error_bytes(number, message);
    assert(e.skip(4) =~= vstd::utf8::encode_utf8(message).push(0));
}

/// Block number `a` was sent up to 32768 blocks before `b`.
pub open spec fn earlier(a: int, b: int) -> bool {
    1 <= (b - a) % 0x1_0000 <= 0x8000
}

proof fn lemma_earlier(a: u16, b: u16)
    ensures
        tftp_wire::behind(a, b) <==> earlier(a as int, b as int),
{
}

/// A field that is not closed reaches to the end of the packet.
pub proof fn lemma_open_field(before: Seq<u8>, s: Seq<char>)
    requires
        tftp_laws::fits_field(s),
        s.len() > 0,
    ensures
        ({
            let p = before + vstd::utf8::encode_utf8(s);
            let pos = before.len() as int;
            &&& text::utf8_text(tftp_wire::field_at(p, pos)) == s
            &&& tftp_wire::field_next(p, pos) == p.len()
        }),
{
    let enc = vstd::utf8::encode_utf8(s);
    let p = before + enc;
    let pos = before.len() as int;
    tftp_laws::lemma_field_round_trip(before, s, Seq::empty());
    let q = before + tftp_wire::field_bytes(s) + Seq::<u8>::empty();
    tftp_wire::lemma_field_end(q, pos);
    tftp_wire::lemma_field_end(p, pos);
    assert forall|i: int| pos <= i < p.len() implies #[trigger] p[i] != 0 by {
        assert(q[i] == p[i]);
    }
    let e = tftp_wire::field_end(p, pos);
    assert(e == p.len()) by {
        if e < p.len() {
            assert(p[e] == 0);
        }
    }
    vstd::utf8::encode_utf8_valid_utf8(s);
    vstd::utf8::encode_utf8_decode_utf8(s);
    if enc.len() == 0 {
        assert(enc =~= Seq::<u8>::empty());
        vstd::utf8::encode_utf8_decode_utf8(Seq::<char>::empty());
        assert(vstd::utf8::encode_utf8(Seq::<char>::empty()) =~= Seq::<u8>::empty());
    }
    assert(tftp_wire::field_at(p, pos) =~= enc);
}

/// What is served of a requested path is what stands behind its last separator, of either kind; a name
/// without separators is served as it is.
pub proof fn lemma_served_name(dir: Seq<char>, sep: char, name: Seq<char>)
    requires
        sep == '/' || sep == '\\',
        !name.contains('/') && !name.contains('\\'),
    ensures
        tftp_wire::base_name(dir + seq![sep] + name) == name,
        tftp_wire::base_name(name) == name,
{
    assert(tftp_wire::unified(name) =~= name) by {
        assert forall|i: int| 0 <= i < name.len() implies name[i] != '\\' by {}
    }
    lemma_after_last_tail(tftp_wire::unified(dir) + seq!['/'], name);
    lemma_after_last_tail(Seq::empty(), name);
    assert(tftp_wire::unified(dir + seq![sep] + name) =~= tftp_wire::unified(dir) + seq!['/'] + name);
    assert(Seq::<char>::empty() + name =~= name);
}

proof fn lemma_after_last_tail(head: Seq<char>, name: Seq<char>)
    requires
        !name.contains('/'),
        head.len() == 0 || head.last() == '/',
    ensures
        text::after_last(head + name, '/') == name,
    decreases name.len(),
{
    let whole = head + name;
    if name.len() == 0 {
        assert(whole =~= head);
        assert(name =~= Seq::<char>::empty());
    } else {
        let init = name.drop_last();
        assert(name[name.len() - 1] != '/');
        assert forall|i: int| 0 <= i < init.len() implies init[i] != '/' by {
            assert(name[i] != '/');
        }
        lemma_after_last_tail(head, init);
        assert(whole.drop_last() =~= head + init);
        assert(init.push(name.last()) =~= name);
    }
}

// ---------------------------------------------------------------- admission

/// A write request is always refused with error 2. A read request is served where the file is there, and
/// refused with error 1 where it is not.
pub proof fn lemma_admission(r: RequestV, is_file: bool, client: Peer)
    ensures
        r.op == 2 ==> (tftp::admission(r, is_file, client) matches AdmissionV::Reject(packet, _, _)
            && is_error(packet, 2)),
        r.op == 1 && !is_file ==> (tftp::admission(r, is_file, client) matches AdmissionV::Reject(
            packet,
            _,
            _,
        ) && is_error(packet, 1)),
        r.op == 1 && is_file ==> tftp::admission(r, is_file, client) == AdmissionV::Accept,
{
    lemma_packets_written(0, Seq::empty(), 2, "Access violation: write requests disabled"@);
    lemma_packets_written(0, Seq::empty(), 1, "File not found"@);
}

// ---------------------------------------------------------------- negotiation

/// Option number `k` is the first with this name; the case of letters does not count.
pub open spec fn first_named(options: Seq<(Seq<char>, Seq<char>)>, name: Seq<char>, k: int) -> bool {
    &&& 0 <= k < options.len()
    &&& text::same_letters(options[k].0, name)
    &&& forall|j: int| 0 <= j < k ==> !text::same_letters((#[trigger] options[j]).0, name)
}

/// No option has this name.
pub open spec fn none_named(options: Seq<(Seq<char>, Seq<char>)>, name: Seq<char>) -> bool {
    forall|j: int| 0 <= j < options.len() ==> !text::same_letters((#[trigger] options[j]).0, name)
}

proof fn lemma_option_value(options: Seq<(Seq<char>, Seq<char>)>, name: Seq<char>, k: int)
    ensures
        first_named(options, name, k) ==> tftp::option_value(options, name) == Some(options[k].1),
        none_named(options, name) ==> tftp::option_value(options, name) is None,
    decreases options.len(),
{
    if options.len() > 0 && !text::same_letters(options[0].0, name) {
        let rest = options.drop_first();
        assert forall|j: int| 0 <= j < rest.len() implies rest[j] == options[j + 1] by {}
        if first_named(options, name, k) {
            assert forall|j: int| 0 <= j < k - 1 implies !text::same_letters(
                (#[trigger] rest[j]).0,
                name,
            ) by {
                assert(!text::same_letters(options[j + 1].0, name));
            }
            assert(first_named(rest, name, k - 1));
        }
        if none_named(options, name) {
            assert forall|j: int| 0 <= j < rest.len() implies !text::same_letters(
                (#[trigger] rest[j]).0,
                name,
            ) by {
                assert(!text::same_letters(options[j + 1].0, name));
            }
            assert(none_named(rest, name));
        }
        lemma_option_value(rest, name, k - 1);
    }
}

/// The block size is the number that the first option blksize writes out, where it lies between 8 and
/// 65464; the nearest of these two where it does not; and 512 where there is no such option or it writes
/// out no number that a size can be.
pub proof fn lemma_block_size(options: Seq<(Seq<char>, Seq<char>)>, k: int)
    ensures
        none_named(options, "blksize"@) ==> tftp::block_size(options) == 512,
        first_named(options, "blksize"@, k) ==> match text::number_of(options[k].1) {
            Some(n) => tftp::block_size(options) == if n > usize::MAX {
                512
            } else if n < 8 {
                8nat
            } else if n > 65464 {
                65464
            } else {
                n
            },
            None => tftp::block_size(options) == 512,
        },
{
    lemma_option_value(options, "blksize"@, k);
}

/// The seconds to a retransmission are the number that the first option timeout writes out, where it lies
/// between 1 and 255; the nearest of these two where it does not; and the default where there is no such
/// option or it writes out no number of 32 bits.
pub proof fn lemma_timeout_seconds(options: Seq<(Seq<char>, Seq<char>)>, default: u32, k: int)
    ensures
        none_named(options, "timeout"@) ==> tftp::retry_seconds(options, default) == default,
        first_named(options, "timeout"@, k) ==> match text::number_of(options[k].1) {
            Some(n) => tftp::retry_seconds(options, default) == if n > u32::MAX {
                default as nat
            } else if n < 1 {
                1nat
            } else if n > 255 {
                255
            } else {
                n
            },
            None => tftp::retry_seconds(options, default) == default,
        },
{
    lemma_option_value(options, "timeout"@, k);
}

proof fn lemma_dec_fits(n: nat)
    ensures
        tftp_laws::fits_field(text::dec(n)),
{
    text::lemma_dec_digits(n);
    assert forall|i: int| 0 <= i < text::dec(n).len() implies text::dec(n)[i] != '\0' by {
        assert(text::is_digit(text::dec(n)[i]));
    }
}

/// A request with options is answered with an option acknowledgement from which the client reads the
/// block size and the timeout that are used and, where it reads a file, the exact size of that file; 0
/// where the size is not known. A request without options is not.
pub proof fn lemma_oack_tells(
    r: RequestV,
    client: Peer,
    local_port: u16,
    total: i64,
    default_timeout: u32,
    k: int,
)
    ensures
        ({
            let oack = tftp::opening_oack(r, total, default_timeout);
            let effects = tftp::opening_effects(r, client, local_port, total, default_timeout);
            &&& oack is Some <==> r.options.len() > 0
            &&& oack matches Some(p) ==> {
                let read = tftp_wire::options_at(p, 2);
                &&& p[0] == 0 && p[1] == 6
                &&& read.len() == (if r.op == 1 {
                    3nat
                } else {
                    2
                })
                &&& read[0].0 == "blksize"@ && text::number_of(read[0].1) == Some(
                    tftp::block_size(r.options),
                )
                &&& read[1].0 == "timeout"@ && text::number_of(read[1].1) == Some(
                    tftp::retry_seconds(r.options, default_timeout),
                )
                &&& r.op == 1 ==> read[2].0 == "tsize"@ && text::number_of(read[2].1) == Some(
                    if total >= 0 {
                        total as nat
                    } else {
                        0
                    },
                )
                &&& effects.contains(TransferEffectV::Transmit(p))
            }
            &&& 0 <= k < effects.len() ==> effects[k] is Log || (effects[k]
                matches TransferEffectV::Transmit(p) && oack == Some(p))
        }),
{
    let options = tftp::confirmed(r, default_timeout, total);
    let size: nat = if total >= 0 {
        total as nat
    } else {
        0
    };
    let b = tftp::block_size(r.options);
    let t = tftp::retry_seconds(r.options, default_timeout);
    text::lemma_number_round_trip(b);
    text::lemma_number_round_trip(t);
    text::lemma_number_round_trip(size);
    lemma_dec_fits(b);
    lemma_dec_fits(t);
    lemma_dec_fits(size);
    reveal_strlit("blksize");
    reveal_strlit("timeout");
    reveal_strlit("tsize");
    assert(tftp_laws::fits_field("blksize"@) && tftp_laws::fits_field("timeout"@)
        && tftp_laws::fits_field("tsize"@));
    assert(tftp_laws::writable(options));
    tftp_laws::lemma_oack_round_trip(options);
    let effects = tftp::opening_effects(r, client, local_port, total, default_timeout);
    if r.options.len() > 0 {
        assert(effects.len() == 5);
        assert(effects[3] == TransferEffectV::Transmit(tftp_wire::oack_bytes(options)));
    } else {
        assert(effects.len() == 3);
    }
}

/// A transfer begins with nothing sent, in the name of the file and the client, and is an upload exactly
/// where the request is one to write.
pub proof fn lemma_fresh(file_name: Seq<char>, remote: Seq<char>, total: i64, is_upload: bool)
    ensures
        ({
            let i = tftp::fresh_info(file_name, remote, total, is_upload);
            &&& i.file_name == file_name && i.remote == remote
            &&& i.total_bytes == total && i.is_upload == is_upload
            &&& i.bytes_sent == 0 && i.blocks == 0 && i.retransmits == 0 && i.nanos == 0
            &&& !i.done && i.error is None
        }),
{
}

// ---------------------------------------------------------------- sending

/// Counts and settings that no event but an acknowledgement of the packet that is out changes.
pub open spec fn same_place(a: SenderV, b: SenderV) -> bool {
    &&& a.block_size == b.block_size && a.max_retries == b.max_retries
    &&& a.block == b.block && a.sent == b.sent
    &&& a.packet == b.packet && a.chunk == b.chunk
}

/// The number whose acknowledgement a sender waits for: 0 for the option acknowledgement, and else that of
/// the block that is out, of which the packet carries the low 16 bits.
pub open spec fn expects(s: SenderV) -> int {
    if s.phase == SendPhase::Opening {
        0
    } else {
        s.block as int % 0x1_0000
    }
}

/// A transfer with an option acknowledgement out waits for its acknowledgement; one without reads the
/// first chunk. The first block has number 1.
pub proof fn lemma_transfer_begins(
    info: TransferV,
    block_size: nat,
    max_retries: u32,
    oack: Option<Seq<u8>>,
)
    ensures
        ({
            let b = tftp::send_start(info, block_size, max_retries, oack);
            let s = b.state;
            &&& s.info == info && s.block_size == block_size && s.max_retries == max_retries
            &&& s.block == 1 && s.sent == 0 && s.resent == 0 && s.timeouts == 0
            &&& match oack {
                Some(p) => s.phase == SendPhase::Opening && s.packet == p && b.next == Next::Receive,
                None => s.phase == SendPhase::Reading && b.next == Next::Read,
            }
        }),
{
}

/// A chunk of the file goes out as one DATA packet with the number of the block.
pub proof fn lemma_chunk_goes_out(s: SenderV, data: Seq<u8>)
    ensures
        ({
            let o = tftp::send_chunk(s, data);
            &&& o.effects.len() == 1
            &&& o.effects[0] matches TransferEffectV::Transmit(p) && is_data(
                p,
                s.block as int % 0x1_0000,
                data,
            ) && o.state.packet == p
            &&& o.next == Next::Receive
            &&& o.state.phase == SendPhase::Waiting
            &&& o.state.chunk == data.len()
            &&& o.state.timeouts == 0
            &&& o.state.block == s.block && o.state.sent == s.sent && o.state.resent == s.resent
            &&& o.state.block_size == s.block_size && o.state.max_retries == s.max_retries
            &&& o.state.info == TransferV { blocks: s.block as u64, ..s.info }
        }),
{
    lemma_packets_written(s.block as int, data, 0, Seq::empty());
}

/// The acknowledgement of the packet that is out moves the transfer: behind an option acknowledgement the
/// first chunk is read, behind a full block the next one, and behind a short block the transfer is over,
/// with every byte counted and no error of its own.
pub proof fn lemma_ack_moves(s: SenderV, p: Seq<u8>, nanos: u64)
    requires
        s.phase == SendPhase::Opening || s.phase == SendPhase::Waiting,
        tftp::send_room(s),
        is_ack(p, expects(s)),
    ensures
        ({
            let o = tftp::send_packet(s, p, nanos);
            let t = o.state;
            &&& t.timeouts == 0 && t.resent == s.resent
            &&& t.block_size == s.block_size && t.max_retries == s.max_retries
            &&& if s.phase == SendPhase::Opening {
                &&& t.phase == SendPhase::Reading && o.next == Next::Read
                &&& same_place(s, t) && t.info == s.info
                &&& o.effects == Seq::<TransferEffectV>::empty()
            } else {
                &&& t.sent == s.sent + s.chunk && t.block == s.block + 1
                &&& t.info.bytes_sent == s.sent + s.chunk && t.info.nanos == nanos
                &&& t.info.error == s.info.error
                &&& t.info.file_name == s.info.file_name && t.info.remote == s.info.remote
                &&& t.info.total_bytes == s.info.total_bytes && t.info.is_upload == s.info.is_upload
                &&& if s.chunk < s.block_size {
                    &&& t.phase == SendPhase::Finished && o.next == Next::Stop
                    &&& t.info.done && t.info.blocks == s.block && t.info.retransmits == s.resent
                    &&& o.effects.contains(TransferEffectV::Report(t.info))
                } else {
                    &&& t.phase == SendPhase::Reading && o.next == Next::Read
                    &&& t.info.done == s.info.done
                    &&& o.effects == seq![TransferEffectV::Report(t.info)]
                }
            }
        }),
{
    lemma_incoming_bytes(p);
    let o = tftp::send_packet(s, p, nanos);
    if s.phase == SendPhase::Waiting && s.chunk < s.block_size {
        assert(o.effects[1] == TransferEffectV::Report(o.state.info));
    }
}

/// The acknowledgement of an earlier block has the packet that is out sent once more.
pub proof fn lemma_earlier_ack(s: SenderV, p: Seq<u8>, nanos: u64, number: int)
    requires
        s.phase == SendPhase::Opening || s.phase == SendPhase::Waiting,
        tftp::send_room(s),
        is_ack(p, number),
        earlier(number, expects(s)),
    ensures
        ({
            let o = tftp::send_packet(s, p, nanos);
            &&& o.effects == seq![TransferEffectV::Retransmit(s.packet)]
            &&& o.next == Next::Receive
            &&& o.state == SenderV { timeouts: 0, resent: (s.resent + 1) as u64, ..s }
        }),
{
    lemma_incoming_bytes(p);
    lemma_earlier(number as u16, expects(s) as u16);
}

/// An acknowledgement of a block to come, a DATA packet, a packet that is too short and one of another
/// kind have no effect but that the client was heard.
pub proof fn lemma_ignored(s: SenderV, p: Seq<u8>, nanos: u64)
    requires
        s.phase == SendPhase::Opening || s.phase == SendPhase::Waiting,
        p.len() < 4 || p[0] != 0 || p[1] < 4 || p[1] > 5 || (p[1] == 4 && !is_ack(p, expects(s))
            && !earlier(p[2] * 0x100 + p[3], expects(s))),
    ensures
        tftp::send_packet(s, p, nanos) == (tftp::SendStepV {
            state: SenderV { timeouts: 0, ..s },
            effects: Seq::empty(),
            next: Next::Receive,
        }),
{
    lemma_incoming_bytes(p);
    if p.len() >= 4 {
        lemma_earlier((p[2] * 0x100 + p[3]) as u16, expects(s) as u16);
    }
}

/// An ERROR packet ends the transfer at once: it is reported as done, with an error and with what was
/// acknowledged so far.
pub proof fn lemma_error_ends(s: SenderV, p: Seq<u8>, nanos: u64)
    requires
        s.phase == SendPhase::Opening || s.phase == SendPhase::Waiting,
        p.len() >= 4 && p[0] == 0 && p[1] == 5,
    ensures
        ({
            let o = tftp::send_packet(s, p, nanos);
            &&& o.next == Next::Stop
            &&& o.state.phase == SendPhase::Finished
            &&& o.effects == seq![TransferEffectV::Report(o.state.info)]
            &&& o.state.info.done && o.state.info.error is Some
            &&& o.state.info.bytes_sent == s.sent && o.state.info.retransmits == s.resent
        }),
{
    lemma_incoming_bytes(p);
}

/// Where nothing comes in time the packet that is out is sent once more, as long as the timeouts in a row
/// are no more than the retries allowed. One more ends the transfer, which is reported as done, with an
/// error and with what was acknowledged so far.
pub proof fn lemma_timeout_step(s: SenderV, nanos: u64)
    requires
        s.phase == SendPhase::Opening || s.phase == SendPhase::Waiting,
        tftp::send_room(s),
    ensures
        ({
            let o = tftp::send_timeout(s, nanos);
            &&& same_place(s, o.state)
            &&& o.state.timeouts == s.timeouts + 1 && o.state.resent == s.resent + 1
            &&& if s.timeouts < s.max_retries {
                &&& o.effects == seq![TransferEffectV::Retransmit(s.packet)]
                &&& o.next == Next::Receive
                &&& o.state.phase == s.phase && o.state.info == s.info
            } else {
                &&& o.next == Next::Stop
                &&& o.state.phase == SendPhase::Finished
                &&& o.effects == seq![TransferEffectV::Report(o.state.info)]
                &&& o.state.info.done && o.state.info.error is Some
                &&& o.state.info.bytes_sent == s.sent
                &&& o.state.info.retransmits == s.resent + 1
            }
        }),
{
}

/// A transfer that is given up is reported as done, with its error, its time, the bytes that were
/// acknowledged and the block that is out, of which there is none where the client never answered.
pub proof fn lemma_given_up(s: SenderV, nanos: u64)
    ensures
        ({
            let o = tftp::send_given_up(s, nanos);
            let i = o.state.info;
            &&& o.next == Next::Stop && o.state.phase == SendPhase::Finished
            &&& o.effects == seq![TransferEffectV::Report(i)]
            &&& i.done && i.nanos == nanos && i.bytes_sent == s.sent && i.retransmits == s.resent
            &&& i.file_name == s.info.file_name && i.remote == s.info.remote
            &&& s.phase == SendPhase::Opening ==> i.blocks == 0 && i.error == Some(
                "timeout waiting for initial ACK"@,
            )
            &&& s.phase != SendPhase::Opening ==> i.blocks == s.block && i.error == Some("timeout"@)
        }),
{
}

// ---------------------------------------------------------------- receiving

/// A receiver waits for block 1. Where no option acknowledgement went out it first acknowledges block 0.
pub proof fn lemma_reception_begins(
    info: TransferV,
    block_size: nat,
    max_retries: u32,
    oack_sent: bool,
)
    ensures
        ({
            let b = tftp::receive_start(info, block_size, max_retries, oack_sent);
            let s = b.state;
            &&& s.info == info && s.block_size == block_size && s.max_retries == max_retries
            &&& s.expected == 1 && s.received == 0 && s.resent == 0 && s.timeouts == 0 && !s.over
            &&& s.last_acked == 0
            &&& b.next == Next::Receive
            &&& if oack_sent {
                b.effects == Seq::<TransferEffectV>::empty()
            } else {
                b.effects.len() == 1 && (b.effects[0] matches TransferEffectV::Transmit(p) && is_ack(
                    p,
                    0,
                ))
            }
        }),
{
    lemma_packets_written(0, Seq::empty(), 0, Seq::empty());
}

/// The expected block is stored whole and acknowledged, in this order; a short one ends the transfer
/// without an error of its own, and a full one is followed by the next.
pub proof fn lemma_expected_block(s: ReceiverV, p: Seq<u8>, nanos: u64)
    requires
        tftp::receive_room(s, p.len()),
        p.len() >= 4 && p[0] == 0 && p[1] == 3,
        p[2] * 0x100 + p[3] == s.expected as int % 0x1_0000,
    ensures
        ({
            let o = tftp::receive_packet(s, p, nanos);
            let t = o.state;
            &&& o.effects.len() >= 3
            &&& o.effects[0] == TransferEffectV::Store(p.skip(4))
            &&& o.effects[1] matches TransferEffectV::Transmit(a) && is_ack(
                a,
                s.expected as int % 0x1_0000,
            )
            &&& o.effects[2] == TransferEffectV::Report(t.info)
            &&& t.received == s.received + p.len() - 4
            &&& t.info.bytes_sent == t.received && t.info.error == s.info.error
            &&& t.info.blocks == s.expected
            &&& t.last_acked == s.expected as int % 0x1_0000
            &&& t.timeouts == 0 && t.resent == s.resent && t.block_size == s.block_size
            &&& if p.len() - 4 < s.block_size {
                &&& t.over && t.info.done && o.next == Next::Stop
                &&& t.expected == s.expected
            } else {
                &&& t.over == s.over && t.info.done == s.info.done && o.next == Next::Receive
                &&& t.expected == s.expected + 1
            }
        }),
{
    lemma_incoming_bytes(p);
    lemma_packets_written(0, Seq::empty(), (s.expected % 0x1_0000) as u16, Seq::empty());
}

/// An earlier block has the last acknowledgement sent once more; a later one and any other packet but an
/// ERROR is ignored. Nothing is stored.
pub proof fn lemma_unexpected_packet(s: ReceiverV, p: Seq<u8>, nanos: u64, k: int)
    requires
        p.len() < 4 || p[0] != 0 || p[1] != 5,
        p.len() >= 4 && p[0] == 0 && p[1] == 3 ==> p[2] * 0x100 + p[3] != s.expected as int
            % 0x1_0000,
    ensures
        ({
            let o = tftp::receive_packet(s, p, nanos);
            let t = o.state;
            let again = p.len() >= 4 && p[0] == 0 && p[1] == 3 && earlier(
                p[2] * 0x100 + p[3],
                s.expected as int % 0x1_0000,
            );
            &&& o.next == Next::Receive
            &&& t.expected == s.expected && t.received == s.received && t.last_acked == s.last_acked
            &&& t.timeouts == 0 && t.over == s.over
            &&& again ==> (o.effects[0] matches TransferEffectV::Retransmit(a) && is_ack(
                a,
                s.last_acked as int,
            ))
            &&& 0 <= k < o.effects.len() ==> o.effects[k] is Report || (again && k == 0)
        }),
{
    lemma_incoming_bytes(p);
    lemma_packets_written(0, Seq::empty(), s.last_acked, Seq::empty());
    if p.len() >= 4 {
        lemma_earlier((p[2] * 0x100 + p[3]) as u16, (s.expected % 0x1_0000) as u16);
    }
}

/// An ERROR packet and the end of the server end a reception with an error and with what was received so
/// far; nothing is stored or sent.
pub proof fn lemma_reception_breaks_off(s: ReceiverV, p: Seq<u8>, nanos: u64, k: int)
    requires
        p.len() >= 4 && p[0] == 0 && p[1] == 5,
    ensures
        ({
            let o = tftp::receive_packet(s, p, nanos);
            &&& o.next == Next::Stop && o.state.over
            &&& o.state.info.done && o.state.info.error is Some
            &&& o.state.info.bytes_sent == s.received
            &&& 0 <= k < o.effects.len() ==> o.effects[k] is Report || o.effects[k] is Log
            &&& o.effects.len() > 0 && o.effects[0] == TransferEffectV::Report(o.state.info)
        }),
        ({
            let o = tftp::receive_stopped(s, nanos);
            &&& o.next == Next::Stop && o.state.over
            &&& o.state.info.done && o.state.info.error is Some
            &&& o.state.info.bytes_sent == s.received
            &&& 0 <= k < o.effects.len() ==> o.effects[k] is Report || o.effects[k] is Log
            &&& o.effects.len() > 0 && o.effects[0] == TransferEffectV::Report(o.state.info)
        }),
{
    lemma_incoming_bytes(p);
}

/// Where nothing comes in time the last acknowledgement is sent once more, as long as the timeouts in a
/// row are no more than the retries allowed. One more ends the reception with an error.
pub proof fn lemma_reception_timeout(s: ReceiverV, nanos: u64)
    requires
        tftp::receive_room(s, 0),
    ensures
        ({
            let o = tftp::receive_timeout(s, nanos);
            let t = o.state;
            &&& t.expected == s.expected && t.received == s.received && t.last_acked == s.last_acked
            &&& t.timeouts == s.timeouts + 1 && t.resent == s.resent + 1
            &&& if s.timeouts < s.max_retries {
                &&& o.next == Next::Receive && t.over == s.over && t.info == s.info
                &&& o.effects.len() == 1
                &&& o.effects[0] matches TransferEffectV::Retransmit(a) && is_ack(
                    a,
                    s.last_acked as int,
                )
            } else {
                &&& o.next == Next::Stop && t.over
                &&& t.info.done && t.info.error is Some && t.info.bytes_sent == s.received
                &&& t.info.retransmits == s.resent + 1
                &&& o.effects.len() > 0 && o.effects[0] == TransferEffectV::Report(t.info)
            }
        }),
{
    lemma_packets_written(0, Seq::empty(), s.last_acked, Seq::empty());
}

// ---------------------------------------------------------------- requests

/// The listener answers read and write requests, and nothing else.
pub proof fn lemma_requested(p: Seq<u8>)
    ensures
        p.len() >= 2 && p[0] == 0 && p[1] == 1 ==> tftp_wire::requested(p) == Some(1u16),
        p.len() >= 2 && p[0] == 0 && p[1] == 2 ==> tftp_wire::requested(p) == Some(2u16),
        p.len() < 2 || p[0] != 0 || p[1] == 0 || p[1] > 2 ==> tftp_wire::requested(p) is None,
{
}

/// Options are read in pairs of name and value, up to the end of the packet or an empty name.
pub proof fn lemma_options_read(p: Seq<u8>, pos: int)
    requires
        0 <= pos,
    ensures
        pos >= p.len() ==> tftp_wire::options_at(p, pos) == Seq::<(Seq<char>, Seq<char>)>::empty(),
        pos < p.len() ==> {
            let name = text::utf8_text(tftp_wire::field_at(p, pos));
            let mid = tftp_wire::field_next(p, pos);
            tftp_wire::options_at(p, pos) == if name.len() == 0 {
                Seq::empty()
            } else {
                seq![(name, text::utf8_text(tftp_wire::field_at(p, mid)))] + tftp_wire::options_at(
                    p,
                    tftp_wire::field_next(p, mid),
                )
            }
        },
{
    if pos < p.len() {
        tftp_wire::lemma_field_end(p, pos);
        tftp_wire::lemma_field_end(p, tftp_wire::field_next(p, pos));
    }
}

/// A peer is shown with its address and its port.
pub proof fn lemma_peer(peer: Peer)
    ensures
        text::split(peer.label(), ':') == seq![
            crate::net::ip_text(peer.ip),
            text::dec(peer.port as nat),
        ],
{
    reveal_strlit(":");
    let a = crate::net::ip_text(peer.ip);
    let b = text::dec(peer.port as nat);
    crate::nic::lemma_ip_is_word(peer.ip);
    lemma_no_colon(peer.ip);
    text::lemma_dec_digits(peer.port as nat);
    assert(!b.contains(':')) by {
        assert forall|i: int| 0 <= i < b.len() implies b[i] != ':' by {
            assert(text::is_digit(b[i]));
        }
    }
    text::lemma_split_whole(b, ':');
    text::lemma_split_head(a, ':', b);
    assert(peer.label() =~= a + seq![':'] + b);
    assert(seq![a] + seq![b] =~= seq![a, b]);
}

proof fn lemma_no_colon(ip: u32)
    ensures
        !crate::net::ip_text(ip).contains(':'),
{
    let s = crate::net::ip_text(ip);
    let a = text::dec((ip / 0x100_0000) as nat);
    let b = text::dec((ip / 0x1_0000 % 0x100) as nat);
    let c = text::dec((ip / 0x100 % 0x100) as nat);
    let d = text::dec((ip % 0x100) as nat);
    text::lemma_dec_digits((ip / 0x100_0000) as nat);
    text::lemma_dec_digits((ip / 0x1_0000 % 0x100) as nat);
    text::lemma_dec_digits((ip / 0x100 % 0x100) as nat);
    text::lemma_dec_digits((ip % 0x100) as nat);
    let i1 = a.len() as int;
    let i2 = i1 + 1 + b.len();
    let i3 = i2 + 1 + c.len();
    assert forall|i: int| 0 <= i < s.len() implies s[i] != ':' by {
        if i < i1 {
            assert(s[i] == a[i] && text::is_digit(a[i]));
        } else if i == i1 {
        } else if i < i2 {
            assert(s[i] == b[i - i1 - 1] && text::is_digit(b[i - i1 - 1]));
        } else if i == i2 {
        } else if i < i3 {
            assert(s[i] == c[i - i2 - 1] && text::is_digit(c[i - i2 - 1]));
        } else if i > i3 {
            assert(s[i] == d[i - i3 - 1] && text::is_digit(d[i - i3 - 1]));
        }
    }
}

/// The line that sums a transfer up tells the file, the blocks, the bytes and the packets sent again.
pub proof fn lemma_end_line(i: TransferV, what: Seq<char>)
    ensures
        ({
            let s = tftp::end_line(i, what);
            &&& text::contains_text(s, i.file_name)
            &&& text::contains_text(
                s,
                text::dec(i.blocks as nat) + " blks, "@ + text::dec(i.bytes_sent as nat)
                    + " bytes in "@ + text::dec((i.nanos / 1_000_000_000) as nat) + " s. "@
                    + text::dec(i.retransmits as nat) + " blk resent"@,
            )
        }),
{
    let s = tftp::end_line(i, what);
    let rest = s.skip(("<"@ + i.file_name).len() as int);
    assert(s =~= "<"@ + i.file_name + rest);
    crate::status_laws::lemma_holds("<"@, i.file_name, rest);
    let w = text::dec(i.blocks as nat) + " blks, "@ + text::dec(i.bytes_sent as nat) + " bytes in "@
        + text::dec((i.nanos / 1_000_000_000) as nat) + " s. "@ + text::dec(i.retransmits as nat)
        + " blk resent"@;
    let none = Seq::<char>::empty();
    let front = "<"@ + i.file_name + ">: "@ + what + " "@;
    assert(s =~= front + w + none);
    crate::status_laws::lemma_holds(front, w, none);
}

} // verus!
