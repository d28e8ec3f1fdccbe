//! What the string vocabulary does, told by characters and numbers.

use vstd::prelude::*;

use crate::bytes;
use crate::net;
use crate::text;
use crate::wide;

verus! {

// ---------------------------------------------------------------- characters

/// White space is what Unicode lists as such: 25 code points.
pub proof fn lemma_white_space(c: char)
    ensures
        text::is_white(c) <==> ({
            let v = c as u32;
            9 <= v <= 13 || v == 32 || v == 0x85 || v == 0xA0 || v == 0x1680 || 0x2000 <= v <= 0x200A
                || v == 0x2028 || v == 0x2029 || v == 0x202F || v == 0x205F || v == 0x3000
        }),
{
}

/// Two texts differ at most in the case of ASCII letters where they are equally long and each two of
/// their characters are equal, or an upper-case letter and its lower-case form.
pub proof fn lemma_same_letters(a: Seq<char>, b: Seq<char>)
    ensures
        text::same_letters(a, b) <==> a.len() == b.len() && forall|i: int|
            0 <= i < a.len() ==> ({
                let x = #[trigger] a[i] as u32;
                let y = b[i] as u32;
                x == y || (65 <= x <= 90 && y == x + 32) || (65 <= y <= 90 && x == y + 32)
            }),
{
    let la = text::lower_all(a);
    let lb = text::lower_all(b);
    if text::same_letters(a, b) {
        assert(la.len() == lb.len());
        assert forall|i: int| 0 <= i < a.len() implies ({
            let x = #[trigger] a[i] as u32;
            let y = b[i] as u32;
            x == y || (65 <= x <= 90 && y == x + 32) || (65 <= y <= 90 && x == y + 32)
        }) by {
            assert(la[i] == lb[i]);
        }
    }
    if a.len() == b.len() && forall|i: int|
        0 <= i < a.len() ==> ({
            let x = #[trigger] a[i] as u32;
            let y = b[i] as u32;
            x == y || (65 <= x <= 90 && y == x + 32) || (65 <= y <= 90 && x == y + 32)
        }) {
        assert forall|i: int| 0 <= i < la.len() implies la[i] == lb[i] by {
            let x = a[i] as u32;
        }
        assert(la =~= lb);
    }
}

// ---------------------------------------------------------------- trimming

/// All characters are white space.
pub open spec fn all_white(s: Seq<char>) -> bool {
    forall|i: int| 0 <= i < s.len() ==> text::is_white(#[trigger] s[i])
}

/// Trimming takes off the white space round a text and nothing else.
pub proof fn lemma_trim_exact(a: Seq<char>, core: Seq<char>, b: Seq<char>)
    requires
        all_white(a),
        all_white(b),
        core.len() > 0 ==> !text::is_white(core[0]) && !text::is_white(core.last()),
    ensures
        text::trim(a + core + b) == core,
    decreases a.len() + b.len(),
{
    let s = a + core + b;
    if a.len() > 0 {
        let rest = a.drop_first();
        assert forall|i: int| 0 <= i < rest.len() implies text::is_white(#[trigger] rest[i]) by {
            assert(rest[i] == a[i + 1]);
        }
        assert(text::is_white(a[0]));
        lemma_trim_exact(rest, core, b);
        assert(s =~= seq![a[0]] + (rest + core + b));
        text::lemma_trim_ignores(rest + core + b, a[0]);
    } else if b.len() > 0 {
        let init = b.drop_last();
        assert forall|i: int| 0 <= i < init.len() implies text::is_white(#[trigger] init[i]) by {
            assert(init[i] == b[i]);
        }
        assert(text::is_white(b[b.len() - 1]));
        lemma_trim_exact(a, core, init);
        assert(s =~= (a + core + init).push(b.last()));
        text::lemma_trim_ignores(a + core + init, b.last());
    } else {
        assert(s =~= core);
        assert(text::trim_start(core) == core);
        assert(text::trim_end(core) == core);
    }
}

// ---------------------------------------------------------------- numbers

/// A text of decimal digits writes out a number; one more digit makes it ten times that number and the
/// digit; a plus sign before it makes no difference.
pub proof fn lemma_number_grows(s: Seq<char>, d: char)
    requires
        s.len() > 0,
        text::all_digits(s),
        '0' <= d && d <= '9',
    ensures
        text::number_of(s) matches Some(n) && text::number_of(s.push(d)) == Some(
            (n * 10 + (d as u32 - 48)) as nat,
        ),
        text::number_of(seq!['+'] + s) == text::number_of(s),
        text::number_of(seq![d]) == Some((d as u32 - 48) as nat),
{
    let t = s.push(d);
    assert(text::is_digit(s[0]));
    assert(t[0] == s[0]);
    assert forall|i: int| 0 <= i < t.len() implies text::is_digit(#[trigger] t[i]) by {
        if i < s.len() {
            assert(text::is_digit(s[i]));
        }
    }
    assert(t.drop_last() =~= s);
    let p = seq!['+'] + s;
    assert(p.drop_first() =~= s);
    let one = seq![d];
    assert(one.drop_last() =~= Seq::<char>::empty());
    assert(text::digits_value(one.drop_last()) == 0);
    assert(text::digits_value(one) == text::digit_value(d));
}

/// A text with a character that is no digit, but for one plus sign before the digits, writes out no
/// number, and neither does one without digits.
pub proof fn lemma_no_number(s: Seq<char>, i: int)
    requires
        s.len() == 0 || (s.len() == 1 && s[0] == '+') || (0 <= i < s.len() && !('0' <= s[i] && s[i]
            <= '9') && (i > 0 || s[i] != '+')),
    ensures
        text::number_of(s) is None,
{
    let body = text::unsigned_digits(s);
    if s.len() > 0 && s[0] == '+' {
        if s.len() > 1 {
            assert(body[i - 1] == s[i]);
            assert(!text::is_digit(body[i - 1]));
        }
    } else if s.len() > 0 {
        assert(!text::is_digit(body[i]));
    }
}

// ---------------------------------------------------------------- cutting

/// Texts that do not hold the separator and are joined with it come back when the whole is cut.
pub proof fn lemma_join_split(parts: Seq<Seq<char>>, sep: char)
    requires
        parts.len() > 0,
        forall|i: int| 0 <= i < parts.len() ==> !(#[trigger] parts[i]).contains(sep),
    ensures
        text::split(text::join(parts, seq![sep]), sep) == parts,
    decreases parts.len(),
{
    if parts.len() == 1 {
        text::lemma_split_whole(parts[0], sep);
        assert(seq![parts[0]] =~= parts);
    } else {
        let init = parts.drop_last();
        assert forall|i: int| 0 <= i < init.len() implies !(#[trigger] init[i]).contains(sep) by {
            assert(init[i] == parts[i]);
        }
        lemma_join_split(init, sep);
        assert(!parts[parts.len() - 1].contains(sep));
        text::lemma_split_whole(parts.last(), sep);
        text::lemma_split_concat(text::join(init, seq![sep]), sep, parts.last());
        assert(init + seq![parts.last()] =~= parts);
    }
}

/// What stands before the first separator, and all of a text without one.
pub proof fn lemma_before_first(a: Seq<char>, c: char, b: Seq<char>)
    requires
        !a.contains(c),
    ensures
        text::before_first(a + seq![c] + b, c) == a,
        text::before_first(a, c) == a,
    decreases a.len(),
{
    let s = a + seq![c] + b;
    if a.len() == 0 {
        assert(a =~= Seq::<char>::empty());
    } else {
        let rest = a.drop_first();
        assert(a[0] != c);
        assert forall|i: int| 0 <= i < rest.len() implies rest[i] != c by {
            assert(a[i + 1] != c);
        }
        lemma_before_first(rest, c, b);
        assert(s.drop_first() =~= rest + seq![c] + b);
        assert(seq![a[0]] + rest =~= a);
    }
}

/// What stands behind the last separator, and all of a text without one.
pub proof fn lemma_behind_last(a: Seq<char>, c: char, b: Seq<char>)
    requires
        !b.contains(c),
    ensures
        text::after_last(a + seq![c] + b, c) == b,
        text::after_last(b, c) == b,
    decreases b.len(),
{
    let s = a + seq![c] + b;
    if b.len() == 0 {
        assert(b =~= Seq::<char>::empty());
    } else {
        let init = b.drop_last();
        assert(b[b.len() - 1] != c);
        assert forall|i: int| 0 <= i < init.len() implies init[i] != c by {
            assert(b[i] != c);
        }
        lemma_behind_last(a, c, init);
        assert(s.drop_last() =~= a + seq![c] + init);
        assert(init.push(b.last()) =~= b);
    }
}

/// A text is found where it stands first, and nowhere where it does not stand.
pub proof fn lemma_found(s: Seq<char>, pat: Seq<char>, i: int)
    requires
        0 <= i,
        forall|j: int| 0 <= j < i ==> !text::stands_at(s, pat, j),
    ensures
        text::stands_at(s, pat, i) ==> text::find(s, pat) == Some(i),
        i > s.len() ==> text::find(s, pat) is None,
{
    text::lemma_find_from(s, pat, 0);
    match text::find(s, pat) {
        Some(k) => {
            if k < i {
                assert(!text::stands_at(s, pat, k));
            }
        },
        None => {},
    }
}

// ---------------------------------------------------------------- addresses

/// The text of an address has four parts between dots, and they write out its four octets, the highest
/// first.
pub proof fn lemma_ip_octets(a: u8, b: u8, c: u8, d: u8)
    ensures
        ({
            let v = (a * 0x100_0000 + b * 0x1_0000 + c * 0x100 + d) as u32;
            let parts = text::split(net::ip_text(v), '.');
            &&& parts.len() == 4
            &&& text::number_of(parts[0]) == Some(a as nat)
            &&& text::number_of(parts[1]) == Some(b as nat)
            &&& text::number_of(parts[2]) == Some(c as nat)
            &&& text::number_of(parts[3]) == Some(d as nat)
        }),
{
    let v = (a * 0x100_0000 + b * 0x1_0000 + c * 0x100 + d) as u32;
    bytes::lemma_four(a as int, b as int, c as int, d as int);
    let parts = seq![
        text::dec(a as nat),
        text::dec(b as nat),
        text::dec(c as nat),
        text::dec(d as nat),
    ];
    lemma_dec_has_no_dot(a as nat);
    lemma_dec_has_no_dot(b as nat);
    lemma_dec_has_no_dot(c as nat);
    lemma_dec_has_no_dot(d as nat);
    lemma_join_split(parts, '.');
    lemma_join_of_four(parts, seq!['.']);
    assert(text::join(parts, seq!['.']) =~= net::ip_text(v));
    text::lemma_number_round_trip(a as nat);
    text::lemma_number_round_trip(b as nat);
    text::lemma_number_round_trip(c as nat);
    text::lemma_number_round_trip(d as nat);
}

proof fn lemma_dec_has_no_dot(n: nat)
    ensures
        !text::dec(n).contains('.'),
{
    text::lemma_dec_digits(n);
    assert forall|j: int| 0 <= j < text::dec(n).len() implies text::dec(n)[j] != '.' by {
        assert(text::is_digit(text::dec(n)[j]));
    }
}

proof fn lemma_join_of_four(parts: Seq<Seq<char>>, sep: Seq<char>)
    requires
        parts.len() == 4,
    ensures
        text::join(parts, sep) == parts[0] + sep + (parts[1] + sep + (parts[2] + sep + parts[3])),
{
    let p3 = parts.drop_last();
    let p2 = p3.drop_last();
    let p1 = p2.drop_last();
    assert(text::join(p1, sep) == parts[0]);
    assert(text::join(p2, sep) == parts[0] + sep + parts[1]);
    assert(text::join(p3, sep) == parts[0] + sep + parts[1] + sep + parts[2]);
    assert(text::join(parts, sep) =~= parts[0] + sep + (parts[1] + sep + (parts[2] + sep
        + parts[3])));
}

/// The text of a hardware address has two upper-case hexadecimal digits for each byte, in order, and a
/// colon between each two bytes.
pub proof fn lemma_hardware_digits(bytes: Seq<u8>, i: int)
    requires
        0 <= i < bytes.len(),
    ensures
        ({
            let s = net::mac_text(bytes);
            let digits = "0123456789ABCDEF"@;
            &&& s.len() == 3 * bytes.len() - 1
            &&& s[3 * i] == digits[bytes[i] as int / 16]
            &&& s[3 * i + 1] == digits[bytes[i] as int % 16]
            &&& i > 0 ==> s[3 * i - 1] == ':'
        }),
    decreases bytes.len(),
{
    reveal_strlit("0123456789ABCDEF");
    let pairs = bytes.map_values(|b: u8| net::hex2(b));
    let rest = bytes.drop_last();
    assert(pairs.drop_last() =~= rest.map_values(|b: u8| net::hex2(b)));
    assert(pairs.last() == net::hex2(bytes.last()));
    lemma_hex_digit(bytes[i] / 16);
    lemma_hex_digit(bytes[i] % 16);
    if bytes.len() > 1 {
        lemma_hardware_digits(
            rest,
            if i < rest.len() {
                i
            } else {
                0
            },
        );
    }
}

proof fn lemma_hex_digit(d: u8)
    requires
        d < 16,
    ensures
        net::hex_digit(d as nat) == "0123456789ABCDEF"@[d as int],
{
    reveal_strlit("0123456789ABCDEF");
}

/// An address lies in a pool that ends before the last address exactly where it is one of the pool's
/// numbered addresses, which follow each other without a gap.
pub proof fn lemma_pool(v: u32, start: u32, size: u32)
    requires
        start + size <= u32::MAX,
    ensures
        net::pool_holds(v, start, size) <==> start <= v < start + size,
        start <= v < start + size ==> net::pool_address(start, v - start) == v,
{
}

/// The mask of a prefix has as many leading ones as the prefix is long, 32 at most, and then zeros.
pub proof fn lemma_mask_bits(len: u8, i: u32)
    requires
        i < 32,
    ensures
        (net::mask_of(len) >> i) & 1u32 == (if i + len >= 32 {
            1u32
        } else {
            0
        }),
{
    if len == 0 {
        assert((0u32 >> i) & 1u32 == 0u32) by (bit_vector);
    } else if len >= 32 {
        assert(i < 32 ==> (0xFFFF_FFFFu32 >> i) & 1u32 == 1u32) by (bit_vector);
    } else {
        let s = (32 - len) as u32;
        assert(i < 32 && s < 32 ==> ((0xFFFF_FFFFu32 << s) >> i) & 1u32 == (if i >= s {
            1u32
        } else {
            0
        })) by (bit_vector);
    }
}

// ---------------------------------------------------------------- UTF-16

/// One more unit makes one more character: the one that it is where it is no surrogate, and the
/// replacement character where it is a surrogate that completes no pair. A pair makes one character.
pub proof fn lemma_utf16_grows(u: Seq<u16>, v: u16, w: u16)
    ensures
        v < 0xD800 || v >= 0xE000 ==> wide::utf16_text(u.push(v)) == wide::utf16_text(u).push(
            (v as u32) as char,
        ),
        0xD800 <= v < 0xDC00 ==> wide::utf16_text(u.push(v)) == wide::utf16_text(u).push('\u{FFFD}'),
        0xDC00 <= v < 0xE000 && (u.len() == 0 || u.last() < 0xD800 || u.last() >= 0xDC00)
            ==> wide::utf16_text(u.push(v)) == wide::utf16_text(u).push('\u{FFFD}'),
        0xD800 <= v < 0xDC00 && 0xDC00 <= w < 0xE000 ==> wide::utf16_text(u.push(v).push(w))
            == wide::utf16_text(u).push(
            ((0x1_0000 + (v - 0xD800) * 0x400 + (w - 0xDC00)) as u32) as char,
        ),
        wide::utf16_text(Seq::empty()) == Seq::<char>::empty(),
{
    assert(u.push(v).drop_last() =~= u);
    let p = u.push(v).push(w);
    assert(p.take(p.len() - 2) =~= u);
    assert(p[p.len() - 2] == v);
}

/// Of units that a zero ends, those before the first zero count; without a zero all count.
pub proof fn lemma_ended_by_zero(u: Seq<u16>, behind: Seq<u16>)
    requires
        forall|i: int| 0 <= i < u.len() ==> #[trigger] u[i] != 0,
    ensures
        wide::before_zero(u + seq![0u16] + behind) == u,
        wide::before_zero(u) == u,
    decreases u.len(),
{
    let s = u + seq![0u16] + behind;
    if u.len() == 0 {
        assert(u =~= Seq::<u16>::empty());
    } else {
        let rest = u.drop_first();
        assert(u[0] != 0);
        assert forall|i: int| 0 <= i < rest.len() implies #[trigger] rest[i] != 0 by {
            assert(rest[i] == u[i + 1]);
        }
        lemma_ended_by_zero(rest, behind);
        assert(s.drop_first() =~= rest + seq![0u16] + behind);
        assert(seq![u[0]] + rest =~= u);
    }
}

} // verus!
