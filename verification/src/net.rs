//! IPv4 addresses and hardware addresses as numbers and as text.
//!
//! An IPv4 address is the number whose big-endian bytes are its four octets.

use vstd::prelude::*;
use vstd::string::*;

use crate::config::{
    DHCP_CLIENT_PORT, DHCP_SERVER_PORT, POOL_START, POOL_START_VALUE, STATIC_IP, STATIC_IP_VALUE,
    STATIC_MASK,
};
use crate::text;

verus! {

/// Dotted decimal text of an address.
pub open spec fn ip_text(v: u32) -> Seq<char> {
    text::dec((v / 0x100_0000) as nat) + seq!['.'] + (text::dec((v / 0x1_0000 % 0x100) as nat) + seq!['.'] + (
    text::dec((v / 0x100 % 0x100) as nat) + seq!['.'] + text::dec((v % 0x100) as nat)))
}

/// Dotted decimal text of an address.
pub fn ip_string(v: u32) -> (r: String)
    ensures
        r@ == ip_text(v),
{
    let mut out = String::new();
    text::push_dec(&mut out, (v / 0x100_0000) as u64);
    out.push('.');
    text::push_dec(&mut out, (v / 0x1_0000 % 0x100) as u64);
    out.push('.');
    text::push_dec(&mut out, (v / 0x100 % 0x100) as u64);
    out.push('.');
    text::push_dec(&mut out, (v % 0x100) as u64);
    assert(out@ =~= ip_text(v));
    out
}

proof fn lemma_dec_no_dot(n: nat)
    ensures
        !text::dec(n).contains('.'),
{
    text::lemma_number_round_trip(n);
    let body = text::unsigned_digits(text::dec(n));
    assert forall|i: int| 0 <= i < text::dec(n).len() implies text::dec(n)[i] != '.' by {
        if text::dec(n)[0] == '+' {
            if i > 0 {
                assert(text::is_digit(body[i - 1]));
            }
        } else {
            assert(text::is_digit(body[i]));
        }
    }
}

proof fn lemma_ip_text_split(v: u32)
    ensures
        text::split(ip_text(v), '.') == seq![
            text::dec((v / 0x100_0000) as nat),
            text::dec((v / 0x1_0000 % 0x100) as nat),
            text::dec((v / 0x100 % 0x100) as nat),
            text::dec((v % 0x100) as nat),
        ],
{
    let a = text::dec((v / 0x100_0000) as nat);
    let b = text::dec((v / 0x1_0000 % 0x100) as nat);
    let c = text::dec((v / 0x100 % 0x100) as nat);
    let d = text::dec((v % 0x100) as nat);
    lemma_dec_no_dot((v / 0x100_0000) as nat);
    lemma_dec_no_dot((v / 0x1_0000 % 0x100) as nat);
    lemma_dec_no_dot((v / 0x100 % 0x100) as nat);
    lemma_dec_no_dot((v % 0x100) as nat);
    text::lemma_split_whole(d, '.');
    text::lemma_split_head(c, '.', d);
    text::lemma_split_head(b, '.', c + seq!['.'] + d);
    text::lemma_split_head(a, '.', b + seq!['.'] + (c + seq!['.'] + d));
    assert(text::split(ip_text(v), '.') =~= seq![a, b, c, d]);
}

/// Different addresses have different texts.
pub proof fn lemma_ip_text_injective(v: u32, w: u32)
    requires
        ip_text(v) == ip_text(w),
    ensures
        v == w,
{
    let s = text::split(ip_text(v), '.');
    assert(s == octet_texts(v)) by {
        lemma_ip_text_split(v);
    }
    assert(s == octet_texts(w)) by {
        lemma_ip_text_split(w);
    }
    lemma_octet_texts(v, w);
}

/// The decimal texts of the four octets.
spec fn octet_texts(v: u32) -> Seq<Seq<char>> {
    seq![
        text::dec((v / 0x100_0000) as nat),
        text::dec((v / 0x1_0000 % 0x100) as nat),
        text::dec((v / 0x100 % 0x100) as nat),
        text::dec((v % 0x100) as nat),
    ]
}

proof fn lemma_octet_texts(v: u32, w: u32)
    requires
        octet_texts(v) == octet_texts(w),
    ensures
        v == w,
{
    let a = octet_texts(v);
    let b = octet_texts(w);
    assert(a[0] == b[0] && a[1] == b[1] && a[2] == b[2] && a[3] == b[3]);
    text::lemma_dec_injective((v / 0x100_0000) as nat, (w / 0x100_0000) as nat);
    text::lemma_dec_injective((v / 0x1_0000 % 0x100) as nat, (w / 0x1_0000 % 0x100) as nat);
    text::lemma_dec_injective((v / 0x100 % 0x100) as nat, (w / 0x100 % 0x100) as nat);
    text::lemma_dec_injective((v % 0x100) as nat, (w % 0x100) as nat);
    lemma_same_octets(v, w);
}

proof fn lemma_same_octets(v: u32, w: u32)
    by (bit_vector)
    requires
        v / 0x100_0000 == w / 0x100_0000,
        v / 0x1_0000 % 0x100 == w / 0x1_0000 % 0x100,
        v / 0x100 % 0x100 == w / 0x100 % 0x100,
        v % 0x100 == w % 0x100,
    ensures
        v == w,
{
}

/// The address that a dotted decimal text names: the texts that `ip_text` gives, and no others.
pub open spec fn ip_of(s: Seq<char>) -> Option<u32> {
    if exists|v: u32| s == #[trigger] ip_text(v) {
        Some(choose|v: u32| s == #[trigger] ip_text(v))
    } else {
        None
    }
}

/// Reading the text of an address gives the address.
pub proof fn lemma_ip_round_trip(v: u32)
    ensures
        ip_of(ip_text(v)) == Some(v),
{
    let w = choose|w: u32| ip_text(v) == #[trigger] ip_text(w);
    lemma_ip_text_injective(v, w);
}

/// Reads one octet written without a sign or leading zeros.
fn parse_octet(s: &str) -> (r: Option<u32>)
    ensures
        match r {
            Some(v) => v < 0x100 && s@ == text::dec(v as nat),
            None => forall|v: nat| v < 0x100 ==> s@ != #[trigger] text::dec(v),
        },
{
    match text::parse_up_to(s, 255) {
        Some(v) => {
            let canonical: String = text::u64_text(v);
            if text::same(canonical.as_str(), s) {
                Some(v as u32)
            } else {
                assert forall|w: nat| w < 0x100 implies s@ != #[trigger] text::dec(w) by {
                    text::lemma_number_round_trip(w);
                }
                None
            }
        },
        None => {
            assert forall|w: nat| w < 0x100 implies s@ != #[trigger] text::dec(w) by {
                text::lemma_number_round_trip(w);
            }
            None
        },
    }
}

proof fn lemma_ip_parts(parts: Seq<Seq<char>>, a: u32, b: u32, c: u32, d: u32)
    requires
        parts.len() == 4,
        a < 0x100 && b < 0x100 && c < 0x100 && d < 0x100,
        parts[0] == text::dec(a as nat),
        parts[1] == text::dec(b as nat),
        parts[2] == text::dec(c as nat),
        parts[3] == text::dec(d as nat),
    ensures
        text::join(parts, seq!['.']) == ip_text(
            (a * 0x100_0000 + b * 0x1_0000 + c * 0x100 + d) as u32,
        ),
{
    lemma_four(a, b, c, d);
    lemma_join_four(parts, seq!['.']);
}

proof fn lemma_four(a: u32, b: u32, c: u32, d: u32)
    by (bit_vector)
    requires
        a < 0x100 && b < 0x100 && c < 0x100 && d < 0x100,
    ensures
        ({
            let v = (a * 0x100_0000 + b * 0x1_0000 + c * 0x100 + d) as u32;
            v / 0x100_0000 == a && v / 0x1_0000 % 0x100 == b && v / 0x100 % 0x100 == c && v % 0x100
                == d
        }),
{
}

proof fn lemma_join_four(parts: Seq<Seq<char>>, sep: Seq<char>)
    requires
        parts.len() == 4,
    ensures
        text::join(parts, sep) == parts[0] + sep + (parts[1] + sep + (parts[2] + sep + parts[3])),
{
    let p3 = parts.drop_last();
    let p2 = p3.drop_last();
    let p1 = p2.drop_last();
    assert(text::join(p1, sep) == parts[0]);
    assert(text::join(p2, sep) == parts[0] + sep + parts[1]);
    assert(text::join(p3, sep) == parts[0] + sep + parts[1] + sep + parts[2]);
    assert(text::join(parts, sep) =~= parts[0] + sep + (parts[1] + sep + (parts[2] + sep + parts[3])));
}

/// Reads a dotted decimal address.
pub fn parse_ip(s: &str) -> (r: Option<u32>)
    ensures
        r == ip_of(s@),
{
    let parts: Vec<String> = text::split_text(s, '.');
    let ghost pv = text::views(parts@);
    proof {
        text::lemma_split_join(s@, '.');
        assert forall|v: u32| s@ == #[trigger] ip_text(v) implies pv.len() == 4 && pv[0] == text::dec(
            (v / 0x100_0000) as nat,
        ) && pv[1] == text::dec((v / 0x1_0000 % 0x100) as nat) && pv[2] == text::dec((v / 0x100 % 0x100) as nat)
            && pv[3] == text::dec((v % 0x100) as nat) by {
            lemma_ip_text_split(v);
        }
    }
    if parts.len() != 4 {
        return None;
    }
    assert(pv[0] == parts@[0]@ && pv[1] == parts@[1]@ && pv[2] == parts@[2]@ && pv[3] == parts@[3]@);
    match (
        parse_octet(parts[0].as_str()),
        parse_octet(parts[1].as_str()),
        parse_octet(parts[2].as_str()),
        parse_octet(parts[3].as_str()),
    ) {
        (Some(a), Some(b), Some(c), Some(d)) => {
            let v: u32 = a * 0x100_0000 + b * 0x1_0000 + c * 0x100 + d;
            proof {
                lemma_ip_parts(pv, a, b, c, d);
                lemma_ip_round_trip(v);
            }
            Some(v)
        },
        _ => None,
    }
}

// ---------------------------------------------------------------- hardware addresses

/// Upper-case hexadecimal digit of a number below 16.
pub open spec fn hex_digit(d: nat) -> char {
    if d < 10 {
        (48 + d) as char
    } else {
        (55 + d) as char
    }
}

/// Two upper-case hexadecimal digits of a byte.
pub open spec fn hex2(b: u8) -> Seq<char> {
    seq![hex_digit((b / 16) as nat), hex_digit((b % 16) as nat)]
}

/// Hexadecimal pairs with colons between them.
pub open spec fn mac_text(bytes: Seq<u8>) -> Seq<char> {
    text::join(bytes.map_values(|b: u8| hex2(b)), seq![':'])
}

fn hex_char(d: u8) -> (r: char)
    requires
        d < 16,
    ensures
        r == hex_digit(d as nat),
{
    if d < 10 {
        (48 + d) as char
    } else {
        (55 + d) as char
    }
}

/// Upper-case hexadecimal digits of a number, without leading zeros.
pub open spec fn hex(n: nat) -> Seq<char>
    decreases n,
{
    if n < 16 {
        seq![hex_digit(n)]
    } else {
        hex(n / 16).push(hex_digit(n % 16))
    }
}

fn push_hex(out: &mut String, v: u32)
    ensures
        final(out)@ == old(out)@ + hex(v as nat),
    decreases v,
{
    if v >= 16 {
        push_hex(out, v / 16);
    }
    out.push(hex_char((v % 16) as u8));
    assert(out@ =~= old(out)@ + hex(v as nat));
}

/// Upper-case hexadecimal digits of a number, without leading zeros.
pub fn hex_string(v: u32) -> (r: String)
    ensures
        r@ == hex(v as nat),
{
    let mut out = String::new();
    push_hex(&mut out, v);
    assert(out@ =~= hex(v as nat));
    out
}

/// Eight upper-case hexadecimal digits of a 32-bit number.
pub open spec fn hex8(v: u32) -> Seq<char> {
    hex2((v / 0x100_0000) as u8) + hex2((v / 0x1_0000 % 0x100) as u8) + hex2(
        (v / 0x100 % 0x100) as u8,
    ) + hex2((v % 0x100) as u8)
}

fn push_hex2(out: &mut String, b: u8)
    ensures
        final(out)@ == old(out)@ + hex2(b),
{
    out.push(hex_char(b / 16));
    out.push(hex_char(b % 16));
    assert(out@ =~= old(out)@ + hex2(b));
}

/// Eight upper-case hexadecimal digits of a 32-bit number.
pub fn hex8_string(v: u32) -> (r: String)
    ensures
        r@ == hex8(v),
{
    let mut out = String::new();
    push_hex2(&mut out, (v / 0x100_0000) as u8);
    push_hex2(&mut out, (v / 0x1_0000 % 0x100) as u8);
    push_hex2(&mut out, (v / 0x100 % 0x100) as u8);
    push_hex2(&mut out, (v % 0x100) as u8);
    assert(out@ =~= hex8(v));
    out
}

/// Hexadecimal pairs with colons between them.
pub fn mac_string(bytes: &[u8]) -> (r: String)
    ensures
        r@ == mac_text(bytes@),
{
    let mut out = String::new();
    let ghost all = bytes@.map_values(|b: u8| hex2(b));
    let mut i: usize = 0;
    while i < bytes.len()
        invariant
            i <= bytes@.len(),
            all == bytes@.map_values(|b: u8| hex2(b)),
            out@ == text::join(all.take(i as int), seq![':']),
        decreases bytes@.len() - i,
    {
        if i > 0 {
            out.push(':');
        }
        out.push(hex_char(bytes[i] / 16));
        out.push(hex_char(bytes[i] % 16));
        assert(all.take(i + 1).drop_last() == all.take(i as int));
        assert(all.take(i + 1).last() == hex2(bytes@[i as int]));
        assert(out@ =~= text::join(all.take(i + 1), seq![':']));
        i = i + 1;
    }
    assert(all.take(i as int) == all);
    out
}

proof fn lemma_mac_digits(bytes: Seq<u8>, i: int)
    requires
        0 <= i < bytes.len(),
    ensures
        mac_text(bytes).len() == 3 * bytes.len() - 1,
        mac_text(bytes)[3 * i] == hex_digit((bytes[i] / 16) as nat),
        mac_text(bytes)[3 * i + 1] == hex_digit((bytes[i] % 16) as nat),
    decreases bytes.len(),
{
    let pairs = bytes.map_values(|b: u8| hex2(b));
    let rest = bytes.drop_last();
    assert(pairs.drop_last() =~= rest.map_values(|b: u8| hex2(b)));
    assert(pairs.last() == hex2(bytes.last()));
    if bytes.len() > 1 {
        lemma_mac_digits(rest, if i < rest.len() { i } else { 0 });
    }
}

/// Different hardware addresses have different texts.
pub proof fn lemma_mac_text_injective(a: Seq<u8>, b: Seq<u8>)
    requires
        mac_text(a) == mac_text(b),
    ensures
        a == b,
{
    if a.len() > 0 {
        lemma_mac_digits(a, 0);
    }
    if b.len() > 0 {
        lemma_mac_digits(b, 0);
    }
    assert(a.len() == b.len());
    assert forall|i: int| 0 <= i < a.len() implies a[i] == b[i] by {
        lemma_mac_digits(a, i);
        lemma_mac_digits(b, i);
        let (high, low) = ((a[i] / 16) as nat, (a[i] % 16) as nat);
        assert(hex_digit(high) == hex_digit((b[i] / 16) as nat));
        assert(hex_digit(low) == hex_digit((b[i] % 16) as nat));
    }
    assert(a =~= b);
}

// ---------------------------------------------------------------- pools, masks, replies

/// `v` lies in the run of `size` addresses from `start` on.
///
/// The end of the run is taken modulo 2^32, so a run that would pass the last address holds nothing.
pub open spec fn pool_holds(v: u32, start: u32, size: u32) -> bool {
    start <= v && (v as int) < (start + size) % 0x1_0000_0000
}

pub fn in_pool(v: u32, start: u32, size: u32) -> (r: bool)
    ensures
        r == pool_holds(v, start, size),
{
    let end: u32 = start.wrapping_add(size);
    v >= start && v < end
}

/// Address number `i` of the pool that begins at `start`.
pub open spec fn pool_address(start: u32, i: int) -> u32 {
    ((start + i) % 0x1_0000_0000) as u32
}

/// The mask of the server's subnet: 255.255.255.0 whatever the address.
pub fn mask_for(_ip: u32) -> (r: u32)
    ensures
        r == 0xFFFF_FF00u32,
{
    0xFFFF_FF00
}

/// Mask of a network prefix; lengths above 32 count as 32.
pub open spec fn mask_of(len: u8) -> u32 {
    if len == 0 {
        0
    } else if len >= 32 {
        0xFFFF_FFFF
    } else {
        0xFFFF_FFFFu32 << ((32 - len) as u32)
    }
}

/// Mask of a network prefix: its `len` leading bits are set. Lengths above 32 count as 32.
pub fn prefix_len_to_mask(len: u8) -> (r: u32)
    ensures
        r == mask_of(len),
        forall|i: u32| i < 32 ==> (#[trigger] (r >> i) & 1u32 == 1u32) == (i + len >= 32),
{
    let l: u32 = if len > 32 { 32 } else { len as u32 };
    if l == 0 {
        let r: u32 = 0;
        assert(forall|i: u32| i < 32 ==> (#[trigger] (0u32 >> i) & 1u32) == 0u32) by (bit_vector);
        r
    } else {
        let s: u32 = 32 - l;
        let r: u32 = 0xFFFF_FFFFu32 << s;
        assert(forall|i: u32| i < 32 ==> (#[trigger] (r >> i) & 1u32 == 1u32) == (i >= s))
            by (bit_vector)
            requires
                r == 0xFFFF_FFFFu32 << s,
                s < 32,
        ;
        assert(0xFFFF_FFFFu32 << 0u32 == 0xFFFF_FFFFu32) by (bit_vector);
        r
    }
}

/// Where a DHCP reply goes, as address and UDP port: to the relay where there is one, to everyone
/// where the client asked for a broadcast or has no address yet, else back to the sender.
pub open spec fn reply_target(src_ip: u32, giaddr: u32, flags: u16) -> (u32, u16) {
    if giaddr != 0 {
        (giaddr, DHCP_SERVER_PORT)
    } else if flags >= 0x8000 || src_ip == 0 {
        (0xFFFF_FFFFu32, DHCP_CLIENT_PORT)
    } else {
        (src_ip, DHCP_CLIENT_PORT)
    }
}

pub fn reply_destination(src_ip: u32, giaddr: u32, flags: u16) -> (r: (u32, u16))
    ensures
        r == reply_target(src_ip, giaddr, flags),
{
    if giaddr != 0 {
        (giaddr, DHCP_SERVER_PORT)
    } else if flags >= 0x8000 || src_ip == 0 {
        (0xFFFF_FFFF, DHCP_CLIENT_PORT)
    } else {
        (src_ip, DHCP_CLIENT_PORT)
    }
}

/// The addresses in the settings are the same as text and as numbers.
pub proof fn lemma_settings_agree()
    ensures
        ip_of(STATIC_IP@) == Some(STATIC_IP_VALUE),
        ip_of(POOL_START@) == Some(POOL_START_VALUE),
        ip_of(STATIC_MASK@) == Some(0xFFFF_FF00u32),
{
    reveal_with_fuel(text::dec, 4);
    reveal_strlit("192.168.31.1");
    reveal_strlit("192.168.31.100");
    reveal_strlit("255.255.255.0");
    assert(ip_text(STATIC_IP_VALUE) =~= STATIC_IP@);
    assert(ip_text(POOL_START_VALUE) =~= POOL_START@);
    assert(ip_text(0xFFFF_FF00) =~= STATIC_MASK@);
    lemma_ip_round_trip(STATIC_IP_VALUE);
    lemma_ip_round_trip(POOL_START_VALUE);
    lemma_ip_round_trip(0xFFFF_FF00);
}

/// The last address of the pool is 192.168.31.199.
pub proof fn lemma_pool_end()
    ensures
        ip_of("192.168.31.199"@) == Some(
            pool_address(POOL_START_VALUE, crate::config::POOL_SIZE - 1),
        ),
{
    reveal_with_fuel(text::dec, 4);
    reveal_strlit("192.168.31.199");
    assert(ip_text(0xC0A8_1FC7) =~= "192.168.31.199"@);
    lemma_ip_round_trip(0xC0A8_1FC7);
}

} // verus!
