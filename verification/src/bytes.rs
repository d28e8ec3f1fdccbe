//! Big-endian numbers in byte buffers.

use vstd::prelude::*;

verus! {

/// The 16-bit number whose two bytes stand at `o`, high byte first.
pub open spec fn be16_at(b: Seq<u8>, o: int) -> int {
    b[o] * 0x100 + b[o + 1]
}

/// The 32-bit number whose four bytes stand at `o`, high byte first.
pub open spec fn be32_at(b: Seq<u8>, o: int) -> int {
    b[o] * 0x100_0000 + b[o + 1] * 0x1_0000 + b[o + 2] * 0x100 + b[o + 3]
}

/// The two bytes of a 16-bit number, high byte first.
pub open spec fn be16_bytes(v: u16) -> Seq<u8> {
    seq![(v / 0x100) as u8, (v % 0x100) as u8]
}

/// The four bytes of a 32-bit number, high byte first.
pub open spec fn be32_bytes(v: u32) -> Seq<u8> {
    seq![
        (v / 0x100_0000) as u8,
        (v / 0x1_0000 % 0x100) as u8,
        (v / 0x100 % 0x100) as u8,
        (v % 0x100) as u8,
    ]
}

/// The number whose four bytes stand in the opposite order.
pub open spec fn reversed(v: u32) -> u32 {
    ((v % 0x100) * 0x100_0000 + (v / 0x100 % 0x100) * 0x1_0000 + (v / 0x1_0000 % 0x100) * 0x100 + v
        / 0x100_0000) as u32
}

/// The number whose four bytes stand in the opposite order.
pub fn reverse(v: u32) -> (r: u32)
    ensures
        r == reversed(v),
{
    (v % 0x100) * 0x100_0000 + (v / 0x100 % 0x100) * 0x1_0000 + (v / 0x1_0000 % 0x100) * 0x100 + v
        / 0x100_0000
}

/// A number that is written with four bytes, the highest first, has these bytes.
pub proof fn lemma_four(a: int, b: int, c: int, d: int)
    requires
        0 <= a < 0x100,
        0 <= b < 0x100,
        0 <= c < 0x100,
        0 <= d < 0x100,
    ensures
        ({
            let n = a * 0x100_0000 + b * 0x1_0000 + c * 0x100 + d;
            &&& 0 <= n <= u32::MAX
            &&& n / 0x100_0000 == a
            &&& n / 0x1_0000 % 0x100 == b
            &&& n / 0x100 % 0x100 == c
            &&& n % 0x100 == d
        }),
{
    let n = a * 0x100_0000 + b * 0x1_0000 + c * 0x100 + d;
    let ab = a * 0x100 + b;
    let abc = ab * 0x100 + c;
    vstd::arithmetic::div_mod::lemma_fundamental_div_mod_converse(
        n,
        0x100_0000,
        a,
        b * 0x1_0000 + c * 0x100 + d,
    );
    vstd::arithmetic::div_mod::lemma_fundamental_div_mod_converse(n, 0x1_0000, ab, c * 0x100 + d);
    vstd::arithmetic::div_mod::lemma_fundamental_div_mod_converse(n, 0x100, abc, d);
    vstd::arithmetic::div_mod::lemma_fundamental_div_mod_converse(ab, 0x100, a, b);
    vstd::arithmetic::div_mod::lemma_fundamental_div_mod_converse(abc, 0x100, ab, c);
}

/// Two numbers that are written with two bytes are the same where their bytes are.
pub proof fn lemma_two_octets(a: int, b: int)
    requires
        0 <= a < 0x100,
        0 <= b < 0x100,
    ensures
        (a * 0x100 + b) / 0x100 == a,
        (a * 0x100 + b) % 0x100 == b,
{
    vstd::arithmetic::div_mod::lemma_fundamental_div_mod_converse(a * 0x100 + b, 0x100, a, b);
}

/// The bytes of the number in the opposite order are those of the number, last first; turning them round
/// twice gives the number back.
pub proof fn lemma_reversed(v: u32)
    ensures
        be32_bytes(reversed(v)) == be32_bytes(v).reverse(),
        reversed(reversed(v)) == v,
{
    let a = (v / 0x100_0000) as int;
    let b = (v / 0x1_0000 % 0x100) as int;
    let c = (v / 0x100 % 0x100) as int;
    let d = (v % 0x100) as int;
    assert(v == a * 0x100_0000 + b * 0x1_0000 + c * 0x100 + d);
    lemma_four(d, c, b, a);
    let r = reversed(v);
    assert(r == d * 0x100_0000 + c * 0x1_0000 + b * 0x100 + a);
    assert(be32_bytes(r) =~= be32_bytes(v).reverse());
}

/// Reads the 16-bit number at `o`.
pub fn be16(b: &[u8], o: usize) -> (r: u16)
    requires
        o + 2 <= b@.len(),
    ensures
        r == be16_at(b@, o as int),
{
    b[o] as u16 * 0x100 + b[o + 1] as u16
}

/// Reads the 32-bit number at `o`.
pub fn be32(b: &[u8], o: usize) -> (r: u32)
    requires
        o + 4 <= b@.len(),
    ensures
        r == be32_at(b@, o as int),
{
    b[o] as u32 * 0x100_0000 + b[o + 1] as u32 * 0x1_0000 + b[o + 2] as u32 * 0x100 + b[o
        + 3] as u32
}

/// Appends the two bytes of `v`.
pub fn put_be16(out: &mut Vec<u8>, v: u16)
    ensures
        final(out)@ == old(out)@ + be16_bytes(v),
{
    out.push((v / 0x100) as u8);
    out.push((v % 0x100) as u8);
    assert(out@ =~= old(out)@ + be16_bytes(v));
}

/// Appends the four bytes of `v`.
pub fn put_be32(out: &mut Vec<u8>, v: u32)
    ensures
        final(out)@ == old(out)@ + be32_bytes(v),
{
    out.push((v / 0x100_0000) as u8);
    out.push((v / 0x1_0000 % 0x100) as u8);
    out.push((v / 0x100 % 0x100) as u8);
    out.push((v % 0x100) as u8);
    assert(out@ =~= old(out)@ + be32_bytes(v));
}

/// Appends all of `src`.
pub fn put_all(out: &mut Vec<u8>, src: &[u8])
    ensures
        final(out)@ == old(out)@ + src@,
{
    let mut i: usize = 0;
    while i < src.len()
        invariant
            i <= src@.len(),
            out@ == old(out)@ + src@.take(i as int),
        decreases src@.len() - i,
    {
        out.push(src[i]);
        assert(src@.take(i + 1) == src@.take(i as int).push(src@[i as int]));
        i = i + 1;
    }
    assert(src@.take(i as int) == src@);
}

/// `n` zero bytes.
pub open spec fn zeros(n: nat) -> Seq<u8> {
    Seq::new(n, |i: int| 0u8)
}

/// Appends `n` zero bytes.
pub fn put_zeros(out: &mut Vec<u8>, n: usize)
    ensures
        final(out)@ == old(out)@ + zeros(n as nat),
{
    let mut i: usize = 0;
    while i < n
        invariant
            i <= n,
            out@ == old(out)@ + zeros(i as nat),
        decreases n - i,
    {
        out.push(0);
        assert(zeros((i + 1) as nat) == zeros(i as nat).push(0));
        i = i + 1;
    }
}

/// A copy of the bytes `[from, to)`.
pub fn slice_copy(b: &[u8], from: usize, to: usize) -> (out: Vec<u8>)
    requires
        from <= to <= b@.len(),
    ensures
        out@ == b@.subrange(from as int, to as int),
{
    let mut out: Vec<u8> = Vec::new();
    put_all(&mut out, vstd::slice::slice_subrange(b, from, to));
    out
}

/// A copy of all of `b`.
pub fn copy_all(b: &[u8]) -> (out: Vec<u8>)
    ensures
        out@ == b@,
{
    let out: Vec<u8> = slice_copy(b, 0, b.len());
    assert(out@ =~= b@);
    out
}

/// Reading the bytes of a 16-bit number gives the number.
pub proof fn lemma_be16_round_trip(v: u16)
    ensures
        be16_at(be16_bytes(v), 0) == v,
{
}

/// Reading the bytes of a 32-bit number gives the number.
pub proof fn lemma_be32_round_trip(v: u32)
    ensures
        be32_at(be32_bytes(v), 0) == v,
{
}

} // verus!
