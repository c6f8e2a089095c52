//! Multi-byte integers in byte strings.

use vstd::prelude::*;

verus! {

/// The order in which a multi-byte integer lies in memory.
#[derive(Clone, Copy, PartialEq, Eq, Structural, Debug)]
pub enum ByteOrder {
    Little,
    Big,
}

/// The 16-bit integer at an offset, most significant byte first.
pub open spec fn be16(s: Seq<u8>, at: int) -> nat {
    (s[at] as nat) * 0x100 + s[at + 1] as nat
}

/// The 32-bit integer at an offset, most significant byte first.
pub open spec fn be32(s: Seq<u8>, at: int) -> nat {
    be16(s, at) * 0x1_0000 + be16(s, at + 2)
}

/// The 64-bit integer at an offset, most significant byte first.
pub open spec fn be64(s: Seq<u8>, at: int) -> nat {
    be32(s, at) * 0x1_0000_0000 + be32(s, at + 4)
}

/// The 16-bit integer at an offset, least significant byte first.
pub open spec fn le16(s: Seq<u8>, at: int) -> nat {
    s[at] as nat + (s[at + 1] as nat) * 0x100
}

/// The 32-bit integer at an offset, least significant byte first.
pub open spec fn le32(s: Seq<u8>, at: int) -> nat {
    le16(s, at) + le16(s, at + 2) * 0x1_0000
}

/// The 64-bit integer at an offset, least significant byte first.
pub open spec fn le64(s: Seq<u8>, at: int) -> nat {
    le32(s, at) + le32(s, at + 4) * 0x1_0000_0000
}

/// The 16-bit integer at an offset, in a byte order.
pub open spec fn word16(s: Seq<u8>, at: int, order: ByteOrder) -> nat {
    match order {
        ByteOrder::Little => le16(s, at),
        ByteOrder::Big => be16(s, at),
    }
}

/// The 32-bit integer at an offset, in a byte order.
pub open spec fn word32(s: Seq<u8>, at: int, order: ByteOrder) -> nat {
    match order {
        ByteOrder::Little => le32(s, at),
        ByteOrder::Big => be32(s, at),
    }
}

/// The 64-bit integer at an offset, in a byte order.
pub open spec fn word64(s: Seq<u8>, at: int, order: ByteOrder) -> nat {
    match order {
        ByteOrder::Little => le64(s, at),
        ByteOrder::Big => be64(s, at),
    }
}

/// The lowest `n` bytes of a number, most significant byte first.
pub open spec fn be_bytes(v: nat, n: nat) -> Seq<u8>
    decreases n,
{
    if n == 0 {
        seq![]
    } else {
        be_bytes(v / 256, (n - 1) as nat).push((v % 256) as u8)
    }
}

/// The lowest `n` bytes of a number, least significant byte first.
pub open spec fn le_bytes(v: nat, n: nat) -> Seq<u8>
    decreases n,
{
    if n == 0 {
        seq![]
    } else {
        seq![(v % 256) as u8] + le_bytes(v / 256, (n - 1) as nat)
    }
}

pub(crate) fn read_be16(s: &[u8], at: usize) -> (r: u16)
    requires
        at + 2 <= s@.len(),
    ensures
        r == be16(s@, at as int),
{
    (s[at] as u16) * 0x100 + s[at + 1] as u16
}

pub(crate) fn read_be32(s: &[u8], at: usize) -> (r: u32)
    requires
        at + 4 <= s@.len(),
    ensures
        r == be32(s@, at as int),
{
    assert(s.len() == s@.len());
    (read_be16(s, at) as u32) * 0x1_0000 + read_be16(s, at + 2) as u32
}

pub(crate) fn read_be64(s: &[u8], at: usize) -> (r: u64)
    requires
        at + 8 <= s@.len(),
    ensures
        r == be64(s@, at as int),
{
    assert(s.len() == s@.len());
    (read_be32(s, at) as u64) * 0x1_0000_0000 + read_be32(s, at + 4) as u64
}

pub(crate) fn read_le16(s: &[u8], at: usize) -> (r: u16)
    requires
        at + 2 <= s@.len(),
    ensures
        r == le16(s@, at as int),
{
    s[at] as u16 + (s[at + 1] as u16) * 0x100
}

pub(crate) fn read_le32(s: &[u8], at: usize) -> (r: u32)
    requires
        at + 4 <= s@.len(),
    ensures
        r == le32(s@, at as int),
{
    assert(s.len() == s@.len());
    read_le16(s, at) as u32 + (read_le16(s, at + 2) as u32) * 0x1_0000
}

pub(crate) fn read_le64(s: &[u8], at: usize) -> (r: u64)
    requires
        at + 8 <= s@.len(),
    ensures
        r == le64(s@, at as int),
{
    assert(s.len() == s@.len());
    read_le32(s, at) as u64 + (read_le32(s, at + 4) as u64) * 0x1_0000_0000
}

pub(crate) fn read16(s: &[u8], at: usize, order: ByteOrder) -> (r: u16)
    requires
        at + 2 <= s@.len(),
    ensures
        r == word16(s@, at as int, order),
{
    match order {
        ByteOrder::Little => read_le16(s, at),
        ByteOrder::Big => read_be16(s, at),
    }
}

pub(crate) fn read32(s: &[u8], at: usize, order: ByteOrder) -> (r: u32)
    requires
        at + 4 <= s@.len(),
    ensures
        r == word32(s@, at as int, order),
{
    match order {
        ByteOrder::Little => read_le32(s, at),
        ByteOrder::Big => read_be32(s, at),
    }
}

pub(crate) fn read64(s: &[u8], at: usize, order: ByteOrder) -> (r: u64)
    requires
        at + 8 <= s@.len(),
    ensures
        r == word64(s@, at as int, order),
{
    match order {
        ByteOrder::Little => read_le64(s, at),
        ByteOrder::Big => read_be64(s, at),
    }
}

/// Appends the lowest `n` bytes of a number, most significant byte first.
pub(crate) fn push_be(out: &mut Vec<u8>, v: u64, n: usize)
    ensures
        final(out)@ == old(out)@ + be_bytes(v as nat, n as nat),
    decreases n,
{
    if n > 0 {
        push_be(out, v / 256, n - 1);
        out.push((v % 256) as u8);
    }
    assert(out@ == old(out)@ + be_bytes(v as nat, n as nat));
}

/// Appends the lowest `n` bytes of a number, least significant byte first.
pub(crate) fn push_le(out: &mut Vec<u8>, v: u64, n: usize)
    ensures
        final(out)@ == old(out)@ + le_bytes(v as nat, n as nat),
    decreases n,
{
    if n > 0 {
        out.push((v % 256) as u8);
        push_le(out, v / 256, n - 1);
    }
    assert(out@ == old(out)@ + le_bytes(v as nat, n as nat));
}

/// Appends a byte string.
pub(crate) fn push_bytes(out: &mut Vec<u8>, data: &[u8])
    ensures
        final(out)@ == old(out)@ + data@,
{
    let mut i: usize = 0;
    while i < data.len()
        invariant
            i <= data@.len(),
            out@ == old(out)@ + data@.take(i as int),
        decreases data@.len() - i,
    {
        out.push(data[i]);
        i += 1;
        assert(data@.take(i as int) == data@.take(i - 1).push(data@[i - 1]));
    }
    assert(data@.take(i as int) == data@);
}

/// The index of the first zero byte, or the length where there is none.
pub open spec fn zero_at(s: Seq<u8>) -> int
    decreases s.len(),
{
    if s.len() == 0 || s[0] == 0 {
        0
    } else {
        1 + zero_at(s.skip(1))
    }
}

/// A byte string up to its first zero byte.
pub open spec fn until_zero(s: Seq<u8>) -> Seq<u8> {
    s.take(zero_at(s))
}

/// Where the first zero byte of a byte string is.
pub(crate) fn find_zero(s: &[u8]) -> (i: usize)
    ensures
        i == zero_at(s@),
        i <= s@.len(),
{
    let mut i: usize = 0;
    assert(s@.skip(0) == s@);
    while i < s.len() && s[i] != 0
        invariant
            i <= s@.len(),
            i + zero_at(s@.skip(i as int)) == zero_at(s@),
        decreases s@.len() - i,
    {
        assert(s@.skip(i as int)[0] == s@[i as int]);
        assert(s@.skip(i as int).skip(1) == s@.skip(i + 1));
        i += 1;
    }
    if i < s.len() {
        assert(s@.skip(i as int)[0] == s@[i as int]);
    }
    i
}

/// A number of 32 bits is made of its four bytes.
pub(crate) proof fn lemma_four_bytes(v: nat)
    requires
        v < 0x1_0000_0000,
    ensures
        v == v % 256 + 256 * (v / 256 % 256) + 0x1_0000 * (v / 0x1_0000 % 256) + 0x100_0000 * (v
            / 0x100_0000 % 256),
{
    let w = v / 256;
    let x = w / 256;
    let y = x / 256;
    assert(v == v % 256 + 256 * w);
    assert(w == w % 256 + 256 * x);
    assert(x == x % 256 + 256 * y);
    assert(y < 256);
    assert(x == v / 0x1_0000);
    assert(y == v / 0x100_0000);
}

pub(crate) proof fn lemma_le4(v: nat)
    requires
        v < 0x1_0000_0000,
    ensures
        le_bytes(v, 4) == seq![
            (v % 256) as u8,
            (v / 256 % 256) as u8,
            (v / 0x1_0000 % 256) as u8,
            (v / 0x100_0000 % 256) as u8,
        ],
        be_bytes(v, 4) == seq![
            (v / 0x100_0000 % 256) as u8,
            (v / 0x1_0000 % 256) as u8,
            (v / 256 % 256) as u8,
            (v % 256) as u8,
        ],
{
    reveal_with_fuel(le_bytes, 5);
    reveal_with_fuel(be_bytes, 5);
    assert(v / 256 / 256 == v / 0x1_0000);
    assert(v / 256 / 256 / 256 == v / 0x100_0000);
}

pub(crate) proof fn lemma_word8(v: nat)
    requires
        v < 0x1_0000_0000_0000_0000,
    ensures
        le_bytes(v, 8) == le_bytes(v % 0x1_0000_0000, 4) + le_bytes(v / 0x1_0000_0000, 4),
        be_bytes(v, 8) == be_bytes(v / 0x1_0000_0000, 4) + be_bytes(v % 0x1_0000_0000, 4),
{
    reveal_with_fuel(le_bytes, 9);
    reveal_with_fuel(be_bytes, 9);
    let lo = v % 0x1_0000_0000;
    let hi = v / 0x1_0000_0000;
    assert(v / 256 / 256 / 256 / 256 == hi);
    assert(lo % 256 == v % 256);
    assert(lo / 256 % 256 == v / 256 % 256);
    assert(lo / 256 / 256 % 256 == v / 256 / 256 % 256);
    assert(lo / 256 / 256 / 256 % 256 == v / 256 / 256 / 256 % 256);
    assert(le_bytes(v, 8) == le_bytes(lo, 4) + le_bytes(hi, 4));
    assert(be_bytes(v, 8) == be_bytes(hi, 4) + be_bytes(lo, 4));
}

} // verus!
