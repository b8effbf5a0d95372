//! Big-endian numbers in octet strings.

use vstd::prelude::*;

verus! {

/// A 16-bit number, most significant octet first.
#[verifier::opaque]
pub open spec fn be16(v: u16) -> Seq<u8> {
    seq![(v / 0x100) as u8, (v % 0x100) as u8]
}

/// The low 24 bits of a number, most significant octet first.
#[verifier::opaque]
pub open spec fn be24(v: nat) -> Seq<u8> {
    seq![(v / 0x1_0000 % 0x100) as u8, (v / 0x100 % 0x100) as u8, (v % 0x100) as u8]
}

/// A 32-bit number, most significant octet first.
#[verifier::opaque]
pub open spec fn be32(v: u32) -> Seq<u8> {
    seq![
        (v / 0x100_0000) as u8,
        (v / 0x1_0000 % 0x100) as u8,
        (v / 0x100 % 0x100) as u8,
        (v % 0x100) as u8,
    ]
}

/// The 16-bit number that stands at `at`.
#[verifier::opaque]
pub open spec fn be16_at(s: Seq<u8>, at: int) -> int {
    s[at] * 0x100 + s[at + 1]
}

/// The 24-bit number that stands at `at`.
#[verifier::opaque]
pub open spec fn be24_at(s: Seq<u8>, at: int) -> int {
    s[at] * 0x1_0000 + s[at + 1] * 0x100 + s[at + 2]
}

/// The 32-bit number that stands at `at`.
#[verifier::opaque]
pub open spec fn be32_at(s: Seq<u8>, at: int) -> int {
    s[at] * 0x100_0000 + s[at + 1] * 0x1_0000 + s[at + 2] * 0x100 + s[at + 3]
}

/// How many octets a number takes.
pub broadcast proof fn lemma_be16_len(v: u16)
    ensures
        #[trigger] be16(v).len() == 2,
{
    reveal(be16);
}

/// How many octets a number takes.
pub broadcast proof fn lemma_be24_len(v: nat)
    ensures
        #[trigger] be24(v).len() == 3,
{
    reveal(be24);
}

/// How many octets a number takes.
pub broadcast proof fn lemma_be32_len(v: u32)
    ensures
        #[trigger] be32(v).len() == 4,
{
    reveal(be32);
}

/// The range of a number.
pub broadcast proof fn lemma_be16_at_range(s: Seq<u8>, at: int)
    ensures
        0 <= #[trigger] be16_at(s, at) < 0x1_0000,
{
    reveal(be16_at);
}

/// The range of a number.
pub broadcast proof fn lemma_be24_at_range(s: Seq<u8>, at: int)
    ensures
        0 <= #[trigger] be24_at(s, at) < 0x100_0000,
{
    reveal(be24_at);
}

/// The range of a number.
pub broadcast proof fn lemma_be32_at_range(s: Seq<u8>, at: int)
    ensures
        0 <= #[trigger] be32_at(s, at) < 0x1_0000_0000,
{
    reveal(be32_at);
}

pub broadcast group group_wire {
    lemma_be16_len,
    lemma_be24_len,
    lemma_be32_len,
    lemma_be16_at_range,
    lemma_be24_at_range,
    lemma_be32_at_range,
}

/// Appends a 16-bit number.
pub fn put16(out: &mut Vec<u8>, v: u16)
    ensures
        final(out)@ == old(out)@ + be16(v),
{
    proof {
        reveal(be16);
    }
    out.push((v / 0x100) as u8);
    out.push((v % 0x100) as u8);
    assert(out@ =~= old(out)@ + be16(v));
}

/// Appends the low 24 bits of a number.
pub fn put24(out: &mut Vec<u8>, v: usize)
    ensures
        final(out)@ == old(out)@ + be24(v as nat),
{
    proof {
        reveal(be24);
    }
    out.push((v / 0x1_0000 % 0x100) as u8);
    out.push((v / 0x100 % 0x100) as u8);
    out.push((v % 0x100) as u8);
    assert(out@ =~= old(out)@ + be24(v as nat));
}

/// Appends a 32-bit number.
pub fn put32(out: &mut Vec<u8>, v: u32)
    ensures
        final(out)@ == old(out)@ + be32(v),
{
    proof {
        reveal(be32);
    }
    out.push((v / 0x100_0000) as u8);
    out.push((v / 0x1_0000 % 0x100) as u8);
    out.push((v / 0x100 % 0x100) as u8);
    out.push((v % 0x100) as u8);
    assert(out@ =~= old(out)@ + be32(v));
}

/// Appends an octet string.
pub fn put_octets(out: &mut Vec<u8>, s: &[u8])
    ensures
        final(out)@ == old(out)@ + s@,
{
    out.extend_from_slice(s);
    assert(out@ =~= old(out)@ + s@);
}

/// Reads the 16-bit number that stands at `at`.
pub fn get16(s: &[u8], at: usize) -> (v: u16)
    requires
        at + 2 <= s@.len(),
    ensures
        v == be16_at(s@, at as int),
{
    proof {
        reveal(be16_at);
    }
    (s[at] as u16) * 0x100 + s[at + 1] as u16
}

/// Reads the 24-bit number that stands at `at`.
pub fn get24(s: &[u8], at: usize) -> (v: u32)
    requires
        at + 3 <= s@.len(),
    ensures
        v == be24_at(s@, at as int),
{
    proof {
        reveal(be24_at);
    }
    (s[at] as u32) * 0x1_0000 + (s[at + 1] as u32) * 0x100 + s[at + 2] as u32
}

/// Reads the 32-bit number that stands at `at`.
pub fn get32(s: &[u8], at: usize) -> (v: u32)
    requires
        at + 4 <= s@.len(),
    ensures
        v == be32_at(s@, at as int),
{
    proof {
        reveal(be32_at);
    }
    (s[at] as u32) * 0x100_0000 + (s[at + 1] as u32) * 0x1_0000 + (s[at + 2] as u32) * 0x100
        + s[at + 3] as u32
}

/// A 16-bit number that stands in an octet string is read back.
pub proof fn law_be16_is_read_back(v: u16, s: Seq<u8>, at: int)
    requires
        0 <= at <= s.len() - 2,
        s.subrange(at, at + 2) == be16(v),
    ensures
        be16_at(s, at) == v,
{
    reveal(be16);
    reveal(be16_at);
    let t = s.subrange(at, at + 2);
    assert(t[0] == s[at] && t[1] == s[at + 1]);
}

/// A 24-bit number that stands in an octet string is read back.
pub proof fn law_be24_is_read_back(v: nat, s: Seq<u8>, at: int)
    requires
        v < 0x100_0000,
        0 <= at <= s.len() - 3,
        s.subrange(at, at + 3) == be24(v),
    ensures
        be24_at(s, at) == v,
{
    reveal(be24);
    reveal(be24_at);
    let t = s.subrange(at, at + 3);
    assert(t[0] == s[at] && t[1] == s[at + 1] && t[2] == s[at + 2]);
}

/// A 32-bit number that stands in an octet string is read back.
pub proof fn law_be32_is_read_back(v: u32, s: Seq<u8>, at: int)
    requires
        0 <= at <= s.len() - 4,
        s.subrange(at, at + 4) == be32(v),
    ensures
        be32_at(s, at) == v,
{
    reveal(be32);
    reveal(be32_at);
    let t = s.subrange(at, at + 4);
    assert(t[0] == s[at] && t[1] == s[at + 1] && t[2] == s[at + 2] && t[3] == s[at + 3]);
}

/// The number that four octets stand for, most significant octet first.
pub open spec fn quad(a: u8, b: u8, c: u8, d: u8) -> int {
    ((a * 256 + b) * 256 + c) * 256 + d
}

/// Numbers are written and read with their most significant octet first.
pub proof fn law_numbers_are_big_endian(v: u32, w: u16, n: nat, s: Seq<u8>, at: int)
    ensures
        quad(be32(v)[0], be32(v)[1], be32(v)[2], be32(v)[3]) == v,
        quad(0, 0, be16(w)[0], be16(w)[1]) == w,
        n < 0x100_0000 ==> quad(0, be24(n)[0], be24(n)[1], be24(n)[2]) == n,
        be32_at(s, at) == quad(s[at], s[at + 1], s[at + 2], s[at + 3]),
        be24_at(s, at) == quad(0, s[at], s[at + 1], s[at + 2]),
        be16_at(s, at) == quad(0, 0, s[at], s[at + 1]),
{
    reveal(be16);
    reveal(be24);
    reveal(be32);
    reveal(be16_at);
    reveal(be24_at);
    reveal(be32_at);
}

} // verus!
