//! Big-endian byte layouts of unsigned integers, and the two's complement
//! reading of signed ones.

use vstd::prelude::*;

verus! {

/// The two bytes of `n`, most significant first.
pub open spec fn be2(n: nat) -> Seq<u8> {
    seq![(n / 256) as u8, (n % 256) as u8]
}

/// The four bytes of `n`, most significant first.
pub open spec fn be4(n: nat) -> Seq<u8> {
    be2(n / 65536) + be2(n % 65536)
}

/// The eight bytes of `n`, most significant first.
pub open spec fn be8(n: nat) -> Seq<u8> {
    be4(n / 4294967296) + be4(n % 4294967296)
}

/// The number that two bytes hold, most significant first.
pub open spec fn be2_value(s: Seq<u8>) -> nat {
    (s[0] * 256 + s[1]) as nat
}

/// The number that four bytes hold, most significant first.
pub open spec fn be4_value(s: Seq<u8>) -> nat {
    be2_value(s.subrange(0, 2)) * 65536 + be2_value(s.subrange(2, 4))
}

/// The number that eight bytes hold, most significant first.
pub open spec fn be8_value(s: Seq<u8>) -> nat {
    be4_value(s.subrange(0, 4)) * 4294967296 + be4_value(s.subrange(4, 8))
}

/// `v` as an unsigned number modulo `m`, for `v` in `[-m, m)`.
pub open spec fn unsigned_of(v: int, m: int) -> int {
    if v < 0 {
        v + m
    } else {
        v
    }
}

/// The two's complement reading of an unsigned number `u` below `m`.
pub open spec fn signed_of(u: int, m: int) -> int {
    if u >= m / 2 {
        u - m
    } else {
        u
    }
}

pub proof fn lemma_be2(n: nat)
    requires
        n < 65536,
    ensures
        be2(n).len() == 2,
        be2_value(be2(n)) == n,
{
    assert(n == (n / 256) * 256 + n % 256) by (nonlinear_arith);
    assert(n / 256 < 256) by (nonlinear_arith)
        requires n < 65536;
}

pub proof fn lemma_be4(n: nat)
    requires
        n < 4294967296,
    ensures
        be4(n).len() == 4,
        be4_value(be4(n)) == n,
{
    assert(n == (n / 65536) * 65536 + n % 65536) by (nonlinear_arith);
    assert(n / 65536 < 65536) by (nonlinear_arith)
        requires n < 4294967296;
    lemma_be2(n / 65536);
    lemma_be2(n % 65536);
    assert(be4(n).subrange(0, 2) =~= be2(n / 65536));
    assert(be4(n).subrange(2, 4) =~= be2(n % 65536));
}

pub proof fn lemma_be8(n: nat)
    requires
        n < 18446744073709551616,
    ensures
        be8(n).len() == 8,
        be8_value(be8(n)) == n,
{
    assert(n == (n / 4294967296) * 4294967296 + n % 4294967296) by (nonlinear_arith);
    assert(n / 4294967296 < 4294967296) by (nonlinear_arith)
        requires n < 18446744073709551616;
    lemma_be4(n / 4294967296);
    lemma_be4(n % 4294967296);
    assert(be8(n).subrange(0, 4) =~= be4(n / 4294967296));
    assert(be8(n).subrange(4, 8) =~= be4(n % 4294967296));
}

/// Appends the two big-endian bytes of `n` to `out`.
pub fn push_u16(out: &mut Vec<u8>, n: u16)
    ensures
        final(out)@ == old(out)@ + be2(n as nat),
{
    out.push((n / 256) as u8);
    out.push((n % 256) as u8);
    assert(final(out)@ =~= old(out)@ + be2(n as nat));
}

/// Appends the four big-endian bytes of `n` to `out`.
pub fn push_u32(out: &mut Vec<u8>, n: u32)
    ensures
        final(out)@ == old(out)@ + be4(n as nat),
{
    push_u16(out, (n / 65536) as u16);
    push_u16(out, (n % 65536) as u16);
    assert(final(out)@ =~= old(out)@ + be4(n as nat));
}

/// Appends the eight big-endian bytes of `n` to `out`.
pub fn push_u64(out: &mut Vec<u8>, n: u64)
    ensures
        final(out)@ == old(out)@ + be8(n as nat),
{
    push_u32(out, (n / 4294967296) as u32);
    push_u32(out, (n % 4294967296) as u32);
    assert(final(out)@ =~= old(out)@ + be8(n as nat));
}

/// Reads two big-endian bytes of `b` at `pos`.
pub fn read_u16(b: &[u8], pos: usize) -> (r: u16)
    requires
        pos + 2 <= b@.len(),
    ensures
        r as nat == be2_value(b@.subrange(pos as int, pos + 2)),
{
    let hi = b[pos] as u16;
    let lo = b[pos + 1] as u16;
    hi * 256 + lo
}

/// Reads four big-endian bytes of `b` at `pos`.
pub fn read_u32(b: &[u8], pos: usize) -> (r: u32)
    requires
        pos + 4 <= b@.len(),
    ensures
        r as nat == be4_value(b@.subrange(pos as int, pos + 4)),
{
    let _len = b.len();
    let hi = read_u16(b, pos) as u32;
    let lo = read_u16(b, pos + 2) as u32;
    assert(b@.subrange(pos as int, pos + 4).subrange(0, 2) =~= b@.subrange(pos as int, pos + 2));
    assert(b@.subrange(pos as int, pos + 4).subrange(2, 4) =~= b@.subrange(pos + 2, pos + 4));
    hi * 65536 + lo
}

/// Reads eight big-endian bytes of `b` at `pos`.
pub fn read_u64(b: &[u8], pos: usize) -> (r: u64)
    requires
        pos + 8 <= b@.len(),
    ensures
        r as nat == be8_value(b@.subrange(pos as int, pos + 8)),
{
    let _len = b.len();
    let hi = read_u32(b, pos) as u64;
    let lo = read_u32(b, pos + 4) as u64;
    assert(b@.subrange(pos as int, pos + 8).subrange(0, 4) =~= b@.subrange(pos as int, pos + 4));
    assert(b@.subrange(pos as int, pos + 8).subrange(4, 8) =~= b@.subrange(pos + 4, pos + 8));
    hi * 4294967296 + lo
}

} // verus!

verus! {

pub proof fn lemma_be_bounds(s: Seq<u8>)
    ensures
        s.len() >= 2 ==> be2_value(s) < 65536,
        s.len() >= 4 ==> be4_value(s) < 4294967296,
    decreases s.len(),
{
    if s.len() >= 2 {
        let a = s[0] as int;
        let b = s[1] as int;
        assert(a * 256 + b < 65536) by (nonlinear_arith)
            requires 0 <= a < 256, 0 <= b < 256;
    }
    if s.len() >= 4 {
        let hi = s.subrange(0, 2);
        let lo = s.subrange(2, 4);
        lemma_be_bounds(hi);
        lemma_be_bounds(lo);
        let x = be2_value(hi) as int;
        let y = be2_value(lo) as int;
        assert(x * 65536 + y < 4294967296) by (nonlinear_arith)
            requires 0 <= x < 65536, 0 <= y < 65536;
    }
}

} // verus!
