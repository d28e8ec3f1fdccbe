//! UTF-16 text as the system interface passes it: units closed by a zero.

use vstd::prelude::*;

use crate::text;

verus! {

/// The units of one character: itself, or a surrogate pair.
pub open spec fn char_units(c: char) -> Seq<u16> {
    let v = c as u32;
    if v < 0x1_0000 {
        seq![v as u16]
    } else {
        seq![
            (0xD800 + (v - 0x1_0000) / 0x400) as u16,
            (0xDC00 + (v - 0x1_0000) % 0x400) as u16,
        ]
    }
}

/// The units of a text.
pub open spec fn units_of(s: Seq<char>) -> Seq<u16>
    decreases s.len(),
{
    if s.len() == 0 {
        Seq::empty()
    } else {
        units_of(s.drop_last()) + char_units(s.last())
    }
}

/// A text as zero-terminated UTF-16.
pub fn wstr(s: &str) -> (r: Vec<u16>)
    ensures
        r@ == units_of(s@).push(0),
{
    let cs: Vec<char> = text::to_chars(s);
    let mut out: Vec<u16> = Vec::new();
    let mut i: usize = 0;
    while i < cs.len()
        invariant
            i <= cs@.len(),
            cs@ == s@,
            out@ == units_of(s@.take(i as int)),
        decreases cs@.len() - i,
    {
        let c: char = cs[i];
        let v: u32 = c as u32;
        let ghost before = out@;
        proof {
            vstd::utf8::char_is_scalar(c);
        }
        if v < 0x1_0000 {
            out.push(v as u16);
        } else {
            let rest: u32 = v - 0x1_0000;
            out.push((0xD800 + rest / 0x400) as u16);
            out.push((0xDC00 + rest % 0x400) as u16);
        }
        proof {
            let upto = s@.take(i + 1);
            assert(upto.drop_last() =~= s@.take(i as int));
            assert(upto.last() == c);
            assert(out@ =~= before + char_units(c));
        }
        i = i + 1;
    }
    assert(s@.take(i as int) =~= s@);
    out.push(0);
    out
}

pub open spec fn is_high(u: u16) -> bool {
    0xD800 <= u < 0xDC00
}

pub open spec fn is_low(u: u16) -> bool {
    0xDC00 <= u < 0xE000
}

/// The text of some units: a pair of surrogates is one character, and every surrogate outside a pair
/// becomes the replacement character.
pub open spec fn utf16_text(u: Seq<u16>) -> Seq<char>
    decreases u.len(),
{
    if u.len() == 0 {
        Seq::empty()
    } else if u.len() >= 2 && is_high(u[u.len() - 2]) && is_low(u.last()) {
        let high = u[u.len() - 2];
        utf16_text(u.take(u.len() - 2)).push(
            ((0x1_0000 + (high - 0xD800) * 0x400 + (u.last() - 0xDC00)) as u32) as char,
        )
    } else if is_high(u.last()) || is_low(u.last()) {
        utf16_text(u.drop_last()).push('\u{FFFD}')
    } else {
        utf16_text(u.drop_last()).push((u.last() as u32) as char)
    }
}

/// Calls `String::from_utf16_lossy` of the standard library: surrogate pairs and other units come back
/// as the characters that they encode, and each surrogate that is not part of a pair comes back as the
/// replacement character.
#[verifier::external_body]
fn lossy_wide(units: &[u16]) -> (r: String)
    ensures
        r@ == utf16_text(units@),
{
    String::from_utf16_lossy(units)
}

/// The units before the first zero.
pub open spec fn before_zero(u: Seq<u16>) -> Seq<u16>
    decreases u.len(),
{
    if u.len() == 0 || u[0] == 0 {
        Seq::empty()
    } else {
        seq![u[0]] + before_zero(u.drop_first())
    }
}

/// The text before the first zero.
pub fn wide_to_string(units: &[u16]) -> (r: String)
    ensures
        r@ == utf16_text(before_zero(units@)),
{
    let n: usize = units.len();
    let mut end: usize = 0;
    assert(units@.skip(0) =~= units@);
    while end < n && units[end] != 0
        invariant
            n == units@.len(),
            end <= n,
            before_zero(units@) == units@.take(end as int) + before_zero(units@.skip(end as int)),
        decreases n - end,
    {
        assert(units@.skip(end as int)[0] == units@[end as int]);
        assert(units@.skip(end as int).drop_first() =~= units@.skip(end + 1));
        assert(units@.take(end + 1) =~= units@.take(end as int) + seq![units@[end as int]]);
        end = end + 1;
    }
    proof {
        if end < n {
            assert(units@.skip(end as int)[0] == units@[end as int]);
        }
        assert(before_zero(units@.skip(end as int)) =~= Seq::<u16>::empty());
    }
    let body: &[u16] = vstd::slice::slice_subrange(units, 0, end);
    assert(body@ =~= before_zero(units@));
    lossy_wide(body)
}

/// The UTF-16 units of a text are read back as the text.
pub proof fn lemma_utf16_round_trip(s: Seq<char>)
    ensures
        utf16_text(units_of(s)) == s,
    decreases s.len(),
{
    if s.len() > 0 {
        let init = s.drop_last();
        let c = s.last();
        let v = c as u32;
        lemma_utf16_round_trip(init);
        vstd::utf8::char_is_scalar(c);
        vstd::utf8::char_u32_cast(c, v);
        let u = units_of(s);
        if v < 0x1_0000 {
            assert(u.drop_last() =~= units_of(init));
            assert(u.last() == v);
        } else {
            assert(u.take(u.len() - 2) =~= units_of(init));
            let high = u[u.len() - 2];
            let low = u.last();
            assert(high == 0xD800 + (v - 0x1_0000) / 0x400);
            assert(low == 0xDC00 + (v - 0x1_0000) % 0x400);
            assert((high - 0xD800) * 0x400 + (low - 0xDC00) == v - 0x1_0000);
        }
        assert(init.push(c) =~= s);
    }
}

/// A text without the zero character is read back from its zero-terminated UTF-16.
pub proof fn lemma_wide_round_trip(s: Seq<char>)
    requires
        !s.contains('\0'),
    ensures
        utf16_text(before_zero(units_of(s).push(0))) == s,
{
    lemma_no_zero_unit(s);
    lemma_before_zero(units_of(s));
    lemma_utf16_round_trip(s);
}

proof fn lemma_no_zero_unit(s: Seq<char>)
    requires
        !s.contains('\0'),
    ensures
        !units_of(s).contains(0),
    decreases s.len(),
{
    if s.len() > 0 {
        let init = s.drop_last();
        let c = s.last();
        assert(s.contains(c));
        vstd::utf8::char_u32_cast(c, c as u32);
        assert forall|i: int| 0 <= i < init.len() implies init[i] != '\0' by {
            assert(s.contains(s[i]));
        }
        lemma_no_zero_unit(init);
        let u = units_of(s);
        let a = units_of(init);
        assert forall|i: int| 0 <= i < u.len() implies u[i] != 0 by {
            if i < a.len() {
                assert(a.contains(a[i]));
            } else {
                assert(u[i] == char_units(c)[i - a.len()]);
            }
        }
    } else {
        assert(units_of(s) =~= Seq::<u16>::empty());
    }
}

proof fn lemma_before_zero(u: Seq<u16>)
    requires
        !u.contains(0),
    ensures
        before_zero(u.push(0)) == u,
    decreases u.len(),
{
    if u.len() > 0 {
        assert(u.contains(u[0]));
        let rest = u.drop_first();
        assert forall|i: int| 0 <= i < rest.len() implies rest[i] != 0 by {
            assert(u.contains(u[i + 1]));
        }
        lemma_before_zero(rest);
        assert(u.push(0).drop_first() =~= rest.push(0));
        assert(seq![u[0]] + rest =~= u);
    } else {
        assert(before_zero(u.push(0)) =~= u);
    }
}

} // verus!
