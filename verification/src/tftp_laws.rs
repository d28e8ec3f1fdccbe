//! What holds of the TFTP server over several packets.

use vstd::prelude::*;

use crate::bytes;
use crate::text;
use crate::tftp;
use crate::tftp::{AdmissionV, Next, Peer, ReceiverV, SendPhase, SenderV, TransferEffectV, TransferV};
use crate::tftp_wire;
use crate::tftp_wire::{RequestV, OP_WRITE};

verus! {

// ---------------------------------------------------------------- fields

/// A text that can stand in a field: without the character that ends one.
pub open spec fn fits_field(s: Seq<char>) -> bool {
    !s.contains('\0')
}

proof fn lemma_scalar_bytes(c: u32)
    by (bit_vector)
    requires
        0 < c <= 0x10FFFF,
    ensures
        c <= 0x7F ==> (c & 0x7F) as u8 != 0,
        (0xC0u8 | ((c >> 6) & 0x1F) as u8) != 0,
        (0xE0u8 | ((c >> 12) & 0x0F) as u8) != 0,
        (0xF0u8 | ((c >> 18) & 0x7) as u8) != 0,
        (0x80u8 | (c & 0x3F) as u8) != 0,
        (0x80u8 | ((c >> 6) & 0x3F) as u8) != 0,
        (0x80u8 | ((c >> 12) & 0x3F) as u8) != 0,
{
}

proof fn lemma_encoded_has_no_zero(s: Seq<char>)
    requires
        fits_field(s),
    ensures
        forall|i: int|
            0 <= i < vstd::utf8::encode_utf8(s).len() ==> #[trigger] vstd::utf8::encode_utf8(s)[i]
                != 0,
    decreases s.len(),
{
    if s.len() > 0 {
        let c = s[0] as u32;
        let rest = s.drop_first();
        assert(s.contains(s[0]));
        vstd::utf8::char_is_scalar(s[0]);
        vstd::utf8::char_u32_cast(s[0], c);
        assert(c != 0);
        lemma_scalar_bytes(c);
        assert forall|i: int| 0 <= i < rest.len() implies rest[i] != '\0' by {
            assert(s.contains(s[i + 1]));
        }
        lemma_encoded_has_no_zero(rest);
        let head = vstd::utf8::encode_scalar(c);
        let whole = vstd::utf8::encode_utf8(s);
        assert(whole == head + vstd::utf8::encode_utf8(rest));
        assert forall|i: int| 0 <= i < whole.len() implies #[trigger] whole[i] != 0 by {
            if i < head.len() {
                assert(head[i] != 0);
            } else {
                assert(whole[i] == vstd::utf8::encode_utf8(rest)[i - head.len()]);
            }
        }
    }
}

/// The end of a field whose bytes are known.
proof fn lemma_field_end_at(p: Seq<u8>, pos: int, end: int)
    requires
        0 <= pos <= end < p.len(),
        p[end] == 0,
        forall|i: int| pos <= i < end ==> #[trigger] p[i] != 0,
    ensures
        tftp_wire::field_end(p, pos) == end,
    decreases end - pos,
{
    if pos < end {
        lemma_field_end_at(p, pos + 1, end);
    }
}

/// A field is read back as the text that was written, and reading goes on behind it.
pub proof fn lemma_field_round_trip(before: Seq<u8>, s: Seq<char>, behind: Seq<u8>)
    requires
        fits_field(s),
    ensures
        ({
            let p = before + tftp_wire::field_bytes(s) + behind;
            let pos = before.len() as int;
            &&& text::utf8_text(tftp_wire::field_at(p, pos)) == s
            &&& tftp_wire::field_next(p, pos) == pos + tftp_wire::field_bytes(s).len()
            &&& pos < p.len()
        }),
{
    let p = before + tftp_wire::field_bytes(s) + behind;
    let pos = before.len() as int;
    let enc = vstd::utf8::encode_utf8(s);
    let end = pos + enc.len();
    lemma_encoded_has_no_zero(s);
    assert(p[end] == 0);
    assert forall|i: int| pos <= i < end implies #[trigger] p[i] != 0 by {
        assert(p[i] == enc[i - pos]);
    }
    lemma_field_end_at(p, pos, end);
    assert(tftp_wire::field_at(p, pos) =~= enc);
    vstd::utf8::encode_utf8_valid_utf8(s);
    vstd::utf8::encode_utf8_decode_utf8(s);
}

/// Options that can be written: names that are not empty, all texts fit a field.
pub open spec fn writable(options: Seq<(Seq<char>, Seq<char>)>) -> bool {
    forall|i: int|
        0 <= i < options.len() ==> (#[trigger] options[i]).0.len() > 0 && fits_field(options[i].0)
            && fits_field(options[i].1)
}

proof fn lemma_options_front(options: Seq<(Seq<char>, Seq<char>)>)
    requires
        options.len() > 0,
    ensures
        tftp_wire::options_bytes(options) == tftp_wire::field_bytes(options[0].0)
            + tftp_wire::field_bytes(options[0].1) + tftp_wire::options_bytes(
            options.drop_first(),
        ),
    decreases options.len(),
{
    let a = tftp_wire::field_bytes(options[0].0);
    let b = tftp_wire::field_bytes(options[0].1);
    if options.len() == 1 {
        assert(tftp_wire::options_bytes(options.drop_last()) =~= Seq::<u8>::empty());
        assert(tftp_wire::options_bytes(options.drop_first()) =~= Seq::<u8>::empty());
        assert(tftp_wire::options_bytes(options) =~= a + b + Seq::<u8>::empty());
    } else {
        let init = options.drop_last();
        lemma_options_front(init);
        assert(init.drop_first() =~= options.drop_first().drop_last());
        assert(options.drop_first().last() == options.last());
        let l = tftp_wire::field_bytes(options.last().0) + tftp_wire::field_bytes(
            options.last().1,
        );
        let mid = tftp_wire::options_bytes(init.drop_first());
        assert(tftp_wire::options_bytes(options) =~= a + b + (mid + l));
    }
}

/// Options are read back as they were written, behind anything.
pub proof fn lemma_options_round_trip(before: Seq<u8>, options: Seq<(Seq<char>, Seq<char>)>)
    requires
        writable(options),
    ensures
        tftp_wire::options_at(
            before + tftp_wire::options_bytes(options),
            before.len() as int,
        ) == options,
    decreases options.len(),
{
    let p = before + tftp_wire::options_bytes(options);
    let pos = before.len() as int;
    if options.len() == 0 {
        assert(p =~= before);
        assert(options =~= Seq::<(Seq<char>, Seq<char>)>::empty());
    } else {
        let a = tftp_wire::field_bytes(options[0].0);
        let b = tftp_wire::field_bytes(options[0].1);
        let rest = options.drop_first();
        let tail = tftp_wire::options_bytes(rest);
        lemma_options_front(options);
        assert(p =~= before + a + (b + tail));
        lemma_field_round_trip(before, options[0].0, b + tail);
        assert(p =~= (before + a) + b + tail);
        lemma_field_round_trip(before + a, options[0].1, tail);
        assert forall|i: int| 0 <= i < rest.len() implies (#[trigger] rest[i]).0.len() > 0
            && fits_field(rest[i].0) && fits_field(rest[i].1) by {
            assert(rest[i] == options[i + 1]);
        }
        lemma_options_round_trip(before + a + b, rest);
        assert(p =~= (before + a + b) + tail);
        assert(seq![options[0]] + rest =~= options);
        assert(tftp_wire::options_at(p, pos) == seq![options[0]] + tftp_wire::options_at(
            p,
            pos + a.len() + b.len(),
        ));
    }
}

/// A request is read back as it was written.
pub proof fn lemma_request_round_trip(r: RequestV)
    requires
        fits_field(r.file_name),
        fits_field(r.mode),
        writable(r.options),
    ensures
        tftp_wire::request_of(tftp_wire::request_bytes(r), r.op) == r,
        bytes::be16_at(tftp_wire::request_bytes(r), 0) == r.op,
{
    let op = bytes::be16_bytes(r.op);
    let a = tftp_wire::field_bytes(r.file_name);
    let b = tftp_wire::field_bytes(r.mode);
    let c = tftp_wire::options_bytes(r.options);
    let p = tftp_wire::request_bytes(r);
    assert(p =~= op + a + (b + c));
    lemma_field_round_trip(op, r.file_name, b + c);
    assert(p =~= (op + a) + b + c);
    lemma_field_round_trip(op + a, r.mode, c);
    assert(p =~= (op + a + b) + c);
    lemma_options_round_trip(op + a + b, r.options);
    bytes::lemma_be16_round_trip(r.op);
    assert(p[0] == op[0] && p[1] == op[1]);
}

/// A client reads from an option acknowledgement the options that the server confirms.
pub proof fn lemma_oack_round_trip(options: Seq<(Seq<char>, Seq<char>)>)
    requires
        writable(options),
    ensures
        tftp_wire::options_at(tftp_wire::oack_bytes(options), 2) == options,
{
    lemma_options_round_trip(bytes::be16_bytes(tftp_wire::OP_OACK), options);
}

// ---------------------------------------------------------------- admission

/// Whatever a write request asks for, it is refused with an access violation.
pub proof fn lemma_writes_are_refused(r: RequestV, is_file: bool, client: Peer)
    requires
        r.op == OP_WRITE,
    ensures
        tftp::admission(r, is_file, client) matches AdmissionV::Reject(packet, level, line)
            && tftp_wire::incoming(packet) == tftp_wire::Incoming::Error && bytes::be16_at(
            packet,
            2,
        ) == 2,
{
    tftp_wire::lemma_packets_read_back(
        0,
        Seq::empty(),
        2,
        "Access violation: write requests disabled"@,
    );
}

// ---------------------------------------------------------------- delivery

/// The next chunk of what is left of a file.
pub open spec fn next_chunk(rest: Seq<u8>, block_size: nat) -> Seq<u8> {
    if rest.len() < block_size {
        rest
    } else {
        rest.take(block_size as int)
    }
}

/// A block goes out, and its acknowledgement comes back.
proof fn lemma_round(s: SenderV, data: Seq<u8>, nanos: u64)
    requires
        s.phase == SendPhase::Reading,
    ensures
        ({
            let out = tftp::send_chunk(s, data);
            let number = (s.block % 0x1_0000) as u16;
            tftp::send_packet(out.state, tftp_wire::ack_bytes(number), nanos) == tftp::send_acked(
                out.state,
                nanos,
            )
        }),
        tftp_wire::incoming(tftp_wire::data_bytes(s.block as int, data))
            == tftp_wire::Incoming::Data((s.block % 0x1_0000) as u16),
        tftp_wire::data_bytes(s.block as int, data).skip(4) == data,
{
    let number = (s.block % 0x1_0000) as u16;
    tftp_wire::lemma_packets_read_back(number, data, 0, Seq::empty());
    assert(tftp_wire::data_bytes(s.block as int, data) == tftp_wire::data_bytes(
        number as int,
        data,
    ));
}

/// A sender and a receiver without losses between them: what both are after the rest of the file, and
/// what the receiver has stored on the way.
pub open spec fn exchange(s: SenderV, r: ReceiverV, rest: Seq<u8>, nanos: u64) -> (
    SenderV,
    ReceiverV,
    Seq<u8>,
)
    decreases rest.len(),
    when s.block_size > 0
{
    let data = next_chunk(rest, s.block_size);
    let out = tftp::send_chunk(s, data);
    let taken = tftp::receive_packet(r, out.state.packet, nanos);
    let stored = taken.effects[0]->Store_0;
    let answer = taken.effects[1]->Transmit_0;
    let back = tftp::send_packet(out.state, answer, nanos);
    if data.len() < s.block_size {
        (back.state, taken.state, stored)
    } else {
        let more = exchange(back.state, taken.state, rest.skip(s.block_size as int), nanos);
        (more.0, more.1, stored + more.2)
    }
}

/// Without losses the receiver stores the rest of the file exactly, both ends finish without an error,
/// and the blocks that were needed are one more than fit into it whole: a file that is a multiple of
/// the block size ends with an empty block.
pub proof fn lemma_exchange_delivers(s: SenderV, r: ReceiverV, rest: Seq<u8>, nanos: u64)
    requires
        s.block_size > 0,
        s.phase == SendPhase::Reading,
        s.info.error is None,
        r.block_size == s.block_size,
        r.expected == s.block,
        r.received == s.sent,
        r.info.error is None,
        s.block + rest.len() / s.block_size < u32::MAX,
        s.sent + rest.len() <= u64::MAX,
    ensures
        ({
            let (a, b, stored) = exchange(s, r, rest, nanos);
            &&& stored == rest
            &&& a.phase == SendPhase::Finished
            &&& a.info.done && a.info.error is None
            &&& a.info.bytes_sent == s.sent + rest.len()
            &&& a.info.blocks == s.block + rest.len() / s.block_size
            &&& a.info.retransmits == s.resent
            &&& b.over
            &&& b.info.done && b.info.error is None
            &&& b.info.bytes_sent == s.sent + rest.len()
        }),
    decreases rest.len(),
{
    let bs = s.block_size as int;
    let data = next_chunk(rest, s.block_size);
    let out = tftp::send_chunk(s, data);
    let taken = tftp::receive_packet(r, out.state.packet, nanos);
    lemma_round(s, data, nanos);
    let number = (s.block % 0x1_0000) as u16;
    assert(taken.effects[0] == TransferEffectV::Store(data));
    assert(taken.effects[1] == TransferEffectV::Transmit(tftp_wire::ack_bytes(number)));
    if data.len() < s.block_size {
        assert(rest.len() < bs);
        assert(rest.len() as int / bs == 0) by {
            vstd::arithmetic::div_mod::lemma_basic_div(rest.len() as int, bs);
        }
    } else {
        let tail = rest.skip(bs);
        assert(rest.len() as int / bs == 1 + tail.len() as int / bs) by {
            vstd::arithmetic::div_mod::lemma_div_minus_one(rest.len() as int, bs);
        }
        assert(tail.len() as int / bs >= 0) by {
            vstd::arithmetic::div_mod::lemma_div_pos_is_pos(tail.len() as int, bs);
        }
        let back = tftp::send_packet(out.state, tftp_wire::ack_bytes(number), nanos);
        lemma_exchange_delivers(back.state, taken.state, tail, nanos);
        assert(data + tail =~= rest);
    }
}

// ---------------------------------------------------------------- any network

/// A sender is in order for the file: the blocks so far are the file up to `sent`, the block that is out
/// is what follows, and a transfer that ended without an error was acknowledged to the last byte.
pub open spec fn sends(s: SenderV, file: Seq<u8>) -> bool {
    &&& s.block_size > 0
    &&& s.block >= 1
    &&& s.phase != SendPhase::Finished ==> {
        &&& s.info.error is None
        &&& s.sent == (s.block - 1) * s.block_size
        &&& s.sent <= file.len()
    }
    &&& s.phase == SendPhase::Opening ==> s.block == 1
    &&& s.phase == SendPhase::Waiting ==> {
        &&& s.sent + s.chunk <= file.len()
        &&& s.packet == tftp_wire::data_bytes(
            s.block as int,
            file.subrange(s.sent as int, s.sent + s.chunk),
        )
        &&& s.chunk == s.block_size || (s.chunk < s.block_size && s.sent + s.chunk == file.len())
    }
    &&& s.phase == SendPhase::Finished && s.info.error is None ==> {
        &&& s.info.done
        &&& s.info.bytes_sent == file.len()
        &&& s.info.blocks == file.len() / s.block_size + 1
    }
}

/// A transfer is in order when it begins.
pub proof fn lemma_start_sends(
    info: TransferV,
    block_size: nat,
    max_retries: u32,
    oack: Option<Seq<u8>>,
    file: Seq<u8>,
)
    requires
        block_size > 0,
        info.error is None,
    ensures
        sends(tftp::send_start(info, block_size, max_retries, oack).state, file),
{
}

/// A transfer stays in order when the next chunk of the file goes out.
pub proof fn lemma_chunk_sends(s: SenderV, file: Seq<u8>)
    requires
        sends(s, file),
        s.phase == SendPhase::Reading,
    ensures
        sends(
            tftp::send_chunk(s, next_chunk(file.skip(s.sent as int), s.block_size)).state,
            file,
        ),
{
    let rest = file.skip(s.sent as int);
    let data = next_chunk(rest, s.block_size);
    assert(data =~= file.subrange(s.sent as int, s.sent + data.len()));
}

/// The acknowledgement of the packet that is out keeps a transfer in order.
proof fn lemma_acked_sends(s: SenderV, file: Seq<u8>, nanos: u64)
    requires
        sends(s, file),
        s.phase == SendPhase::Opening || s.phase == SendPhase::Waiting,
        tftp::send_room(s),
    ensures
        sends(tftp::send_acked(s, nanos).state, file),
{
    let bs = s.block_size as int;
    let b = s.block as int;
    assert((b + 1 - 1) * bs == (b - 1) * bs + bs) by (nonlinear_arith);
    if s.phase == SendPhase::Waiting && s.chunk < s.block_size {
        let len = file.len() as int;
        assert(len == bs * (b - 1) + s.chunk) by (nonlinear_arith)
            requires
                len == s.sent + s.chunk,
                s.sent == (b - 1) * bs,
        ;
        vstd::arithmetic::div_mod::lemma_fundamental_div_mod_converse(
            len,
            bs,
            b - 1,
            s.chunk as int,
        );
    }
}

/// Whatever packet comes in, a transfer stays in order, and all that it sends is the packet that is
/// out. Nothing but the acknowledgement of the packet that is out moves it.
pub proof fn lemma_packet_sends(s: SenderV, file: Seq<u8>, p: Seq<u8>, nanos: u64, k: int)
    requires
        sends(s, file),
        s.phase == SendPhase::Opening || s.phase == SendPhase::Waiting,
        tftp::send_room(s),
    ensures
        ({
            let step = tftp::send_packet(s, p, nanos);
            &&& sends(step.state, file)
            &&& 0 <= k < step.effects.len() ==> {
                &&& step.effects[k] !is Transmit
                &&& step.effects[k] matches TransferEffectV::Retransmit(q) ==> q == s.packet
            }
            &&& tftp_wire::incoming(p) != tftp_wire::Incoming::Ack(tftp::awaited(s))
                ==> step.state.sent == s.sent && step.state.block == s.block
                && step.state.packet == s.packet
        }),
{
    let heard = SenderV { timeouts: 0, ..s };
    lemma_acked_sends(heard, file, nanos);
}

/// A timeout keeps a transfer in order, and all that it sends is the packet that is out.
pub proof fn lemma_timeout_sends(s: SenderV, file: Seq<u8>, nanos: u64, k: int)
    requires
        sends(s, file),
        s.phase == SendPhase::Opening || s.phase == SendPhase::Waiting,
        tftp::send_room(s),
    ensures
        ({
            let step = tftp::send_timeout(s, nanos);
            &&& sends(step.state, file)
            &&& 0 <= k < step.effects.len() ==> {
                &&& step.effects[k] !is Transmit
                &&& step.effects[k] matches TransferEffectV::Retransmit(q) ==> q == s.packet
            }
            &&& step.state.sent == s.sent && step.state.block == s.block
            &&& step.state.packet == s.packet
        }),
{
}

// ---------------------------------------------------------------- timeouts

/// The state after `n` timeouts in a row.
pub open spec fn after_timeouts(s: SenderV, n: nat, nanos: u64) -> SenderV
    decreases n,
{
    if n == 0 {
        s
    } else {
        tftp::send_timeout(after_timeouts(s, (n - 1) as nat, nanos), nanos).state
    }
}

/// As many timeouts in a row as retries are allowed change nothing but the counters, and each has the
/// packet that is out sent again. One more, and the transfer is given up.
pub proof fn lemma_timeouts(s: SenderV, n: nat, nanos: u64)
    requires
        s.phase == SendPhase::Opening || s.phase == SendPhase::Waiting,
        s.timeouts == 0,
        s.max_retries < u32::MAX,
        n <= s.max_retries,
        s.resent + n < u64::MAX,
    ensures
        after_timeouts(s, n, nanos) == (SenderV {
            resent: (s.resent + n) as u64,
            timeouts: n as u32,
            ..s
        }),
        n < s.max_retries ==> tftp::send_timeout(after_timeouts(s, n, nanos), nanos).effects
            == seq![TransferEffectV::Retransmit(s.packet)],
        n == s.max_retries ==> {
            let end = tftp::send_timeout(after_timeouts(s, n, nanos), nanos);
            &&& end.next == Next::Stop
            &&& end.state.info.done
            &&& end.state.info.error is Some
        },
    decreases n,
{
    if n > 0 {
        lemma_timeouts(s, (n - 1) as nat, nanos);
    }
}

/// An acknowledgement that comes after timeouts has the effect that it would have had at once, but for
/// the count of packets that were sent again.
pub proof fn lemma_late_ack(s: SenderV, n: nat, nanos: u64)
    requires
        s.phase == SendPhase::Opening || s.phase == SendPhase::Waiting,
        s.timeouts == 0,
        s.max_retries < u32::MAX,
        n <= s.max_retries,
        s.resent + n < u64::MAX,
    ensures
        tftp::send_packet(
            after_timeouts(s, n, nanos),
            tftp_wire::ack_bytes(tftp::awaited(s)),
            nanos,
        ) == tftp::send_acked(SenderV { resent: (s.resent + n) as u64, ..s }, nanos),
{
    lemma_timeouts(s, n, nanos);
    tftp_wire::lemma_packets_read_back(tftp::awaited(s), Seq::empty(), 0, Seq::empty());
}

/// A repeated acknowledgement of the block before has the block that is out sent again; one of a block
/// to come is ignored. Neither moves the transfer.
pub proof fn lemma_other_acks(s: SenderV, number: u16, nanos: u64)
    requires
        s.phase == SendPhase::Waiting,
        number != tftp::awaited(s),
    ensures
        ({
            let step = tftp::send_packet(s, tftp_wire::ack_bytes(number), nanos);
            &&& step.next == Next::Receive
            &&& step.state.block == s.block
            &&& step.state.sent == s.sent
            &&& step.state.packet == s.packet
            &&& step.effects == if tftp_wire::behind(number, tftp::awaited(s)) {
                seq![TransferEffectV::Retransmit(s.packet)]
            } else {
                Seq::<TransferEffectV>::empty()
            }
        }),
        tftp_wire::behind(
            ((tftp::awaited(s) + 0xFFFF) % 0x1_0000) as u16,
            tftp::awaited(s),
        ),
{
    tftp_wire::lemma_packets_read_back(number, Seq::empty(), 0, Seq::empty());
}

} // verus!
