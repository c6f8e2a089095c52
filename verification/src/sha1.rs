//! SHA-1, for the service-SID derivation only.

use crate::bytes::{be32, be_bytes, push_be, push_bytes, read_be32};
use vstd::prelude::*;

verus! {

/// The five chaining words.
#[derive(Clone, Copy)]
pub struct Chain {
    pub a: u32,
    pub b: u32,
    pub c: u32,
    pub d: u32,
    pub e: u32,
}

/// A word turned left by `n` bits.
pub open spec fn rotated(x: u32, n: u32) -> u32 {
    (x << n) | (x >> ((32 - n) as u32))
}

/// The chaining words before the first block.
pub open spec fn initial() -> Chain {
    Chain {
        a: 0x6745_2301,
        b: 0xEFCD_AB89,
        c: 0x98BA_DCFE,
        d: 0x1032_5476,
        e: 0xC3D2_E1F0,
    }
}

/// A message with its padding: a one bit, zero bits up to eight bytes short of
/// a whole block, and the length of the message in bits.
pub open spec fn padded(data: Seq<u8>) -> Seq<u8> {
    data.push(0x80) + Seq::new(((55 - data.len()) % 64) as nat, |i: int| 0u8) + be_bytes(
        (data.len() * 8) % 0x1_0000_0000_0000_0000,
        8,
    )
}

/// Word `i` of the message schedule of a block.
pub open spec fn schedule(block: Seq<u8>, i: int) -> u32
    decreases i,
{
    if i < 16 {
        be32(block, i * 4) as u32
    } else {
        rotated(
            schedule(block, i - 3) ^ schedule(block, i - 8) ^ schedule(block, i - 14) ^ schedule(
                block,
                i - 16,
            ),
            1,
        )
    }
}

/// The logical function of a round.
pub open spec fn mix(i: int, b: u32, c: u32, d: u32) -> u32 {
    if i < 20 {
        (b & c) | (!b & d)
    } else if i < 40 {
        b ^ c ^ d
    } else if i < 60 {
        (b & c) | (b & d) | (c & d)
    } else {
        b ^ c ^ d
    }
}

/// The constant of a round.
pub open spec fn constant(i: int) -> u32 {
    if i < 20 {
        0x5A82_7999
    } else if i < 40 {
        0x6ED9_EBA1
    } else if i < 60 {
        0x8F1B_BCDC
    } else {
        0xCA62_C1D6
    }
}

/// The chaining words after `n` rounds on a block.
pub open spec fn rounds(h: Chain, block: Seq<u8>, n: int) -> Chain
    decreases n,
{
    if n <= 0 {
        h
    } else {
        let s = rounds(h, block, n - 1);
        Chain {
            a: rotated(s.a, 5).wrapping_add(mix(n - 1, s.b, s.c, s.d)).wrapping_add(
                s.e,
            ).wrapping_add(constant(n - 1)).wrapping_add(schedule(block, n - 1)),
            b: s.a,
            c: rotated(s.b, 30),
            d: s.c,
            e: s.d,
        }
    }
}

/// The chaining words after a block.
pub open spec fn compressed(h: Chain, block: Seq<u8>) -> Chain {
    let s = rounds(h, block, 80);
    Chain {
        a: h.a.wrapping_add(s.a),
        b: h.b.wrapping_add(s.b),
        c: h.c.wrapping_add(s.c),
        d: h.d.wrapping_add(s.d),
        e: h.e.wrapping_add(s.e),
    }
}

/// The chaining words after the first `n` blocks of a padded message.
pub open spec fn absorbed(msg: Seq<u8>, n: nat) -> Chain
    decreases n,
{
    if n == 0 {
        initial()
    } else {
        compressed(absorbed(msg, (n - 1) as nat), msg.subrange(64 * (n - 1), 64 * n as int))
    }
}

/// The chaining words as bytes.
pub open spec fn chain_bytes(h: Chain) -> Seq<u8> {
    be_bytes(h.a as nat, 4) + be_bytes(h.b as nat, 4) + be_bytes(h.c as nat, 4) + be_bytes(
        h.d as nat,
        4,
    ) + be_bytes(h.e as nat, 4)
}

/// The SHA-1 digest of a message.
pub open spec fn digest(data: Seq<u8>) -> Seq<u8> {
    chain_bytes(absorbed(padded(data), padded(data).len() / 64))
}

pub(crate) proof fn lemma_be_bytes_len(v: nat, n: nat)
    ensures
        be_bytes(v, n).len() == n,
    decreases n,
{
    if n > 0 {
        lemma_be_bytes_len(v / 256, (n - 1) as nat);
    }
}

/// A digest is twenty bytes long.
pub proof fn law_digest_len(data: Seq<u8>)
    ensures
        digest(data).len() == 20,
{
    let h = absorbed(padded(data), padded(data).len() / 64);
    lemma_be_bytes_len(h.a as nat, 4);
    lemma_be_bytes_len(h.b as nat, 4);
    lemma_be_bytes_len(h.c as nat, 4);
    lemma_be_bytes_len(h.d as nat, 4);
    lemma_be_bytes_len(h.e as nat, 4);
}

/// A padded message is a whole number of blocks.
pub proof fn law_padding_fills_blocks(data: Seq<u8>)
    ensures
        padded(data).len() % 64 == 0,
        padded(data).len() >= data.len() + 9,
{
    lemma_be_bytes_len((data.len() * 8) % 0x1_0000_0000_0000_0000, 8);
}

fn rotate(x: u32, n: u32) -> (r: u32)
    requires
        0 < n < 32,
    ensures
        r == rotated(x, n),
{
    (x << n) | (x >> (32 - n))
}

/// The eighty words of the message schedule.
fn expand(msg: &[u8], at: usize) -> (w: Vec<u32>)
    requires
        at + 64 <= msg@.len(),
    ensures
        w@.len() == 80,
        forall|i: int|
            0 <= i < 80 ==> #[trigger] w@[i] == schedule(
                msg@.subrange(at as int, at + 64),
                i,
            ),
{
    let ghost block = msg@.subrange(at as int, at + 64);
    let mut w: Vec<u32> = Vec::new();
    assert(msg.len() == msg@.len());
    let mut i: usize = 0;
    while i < 16
        invariant
            i <= 16,
            w@.len() == i,
            at + 64 <= msg@.len() <= usize::MAX,
            block == msg@.subrange(at as int, at + 64),
            forall|k: int| 0 <= k < i ==> #[trigger] w@[k] == schedule(block, k),
        decreases 16 - i,
    {
        w.push(read_be32(msg, at + i * 4));
        i += 1;
    }
    while i < 80
        invariant
            16 <= i <= 80,
            w@.len() == i,
            forall|k: int| 0 <= k < i ==> #[trigger] w@[k] == schedule(block, k),
        decreases 80 - i,
    {
        w.push(rotate(w[i - 3] ^ w[i - 8] ^ w[i - 14] ^ w[i - 16], 1));
        i += 1;
    }
    w
}

/// One block.
fn compress(h: Chain, msg: &[u8], at: usize) -> (r: Chain)
    requires
        at + 64 <= msg@.len(),
    ensures
        r == compressed(h, msg@.subrange(at as int, at + 64)),
{
    let ghost block = msg@.subrange(at as int, at + 64);
    let w = expand(msg, at);
    let mut s = h;
    let mut i: usize = 0;
    while i < 80
        invariant
            i <= 80,
            w@.len() == 80,
            forall|k: int| 0 <= k < 80 ==> #[trigger] w@[k] == schedule(block, k),
            s == rounds(h, block, i as int),
        decreases 80 - i,
    {
        let (f, k): (u32, u32) = if i < 20 {
            ((s.b & s.c) | (!s.b & s.d), 0x5A82_7999)
        } else if i < 40 {
            (s.b ^ s.c ^ s.d, 0x6ED9_EBA1)
        } else if i < 60 {
            ((s.b & s.c) | (s.b & s.d) | (s.c & s.d), 0x8F1B_BCDC)
        } else {
            (s.b ^ s.c ^ s.d, 0xCA62_C1D6)
        };
        let t: u32 = rotate(s.a, 5).wrapping_add(f).wrapping_add(s.e).wrapping_add(k).wrapping_add(
            w[i],
        );
        s = Chain { a: t, b: s.a, c: rotate(s.b, 30), d: s.c, e: s.d };
        i += 1;
    }
    Chain {
        a: h.a.wrapping_add(s.a),
        b: h.b.wrapping_add(s.b),
        c: h.c.wrapping_add(s.c),
        d: h.d.wrapping_add(s.d),
        e: h.e.wrapping_add(s.e),
    }
}

/// The padded message.
fn pad(data: &[u8]) -> (msg: Vec<u8>)
    ensures
        msg@ == padded(data@),
{
    let bit_len: u64 = (data.len() as u64).wrapping_mul(8);
    let mut msg: Vec<u8> = Vec::new();
    push_bytes(&mut msg, data);
    msg.push(0x80);
    let zeros: usize = (119 - data.len() % 64) % 64;
    let mut i: usize = 0;
    while i < zeros
        invariant
            i <= zeros,
            msg@ == data@.push(0x80) + Seq::new(i as nat, |k: int| 0u8),
        decreases zeros - i,
    {
        msg.push(0);
        i += 1;
        assert(msg@ == data@.push(0x80) + Seq::new(i as nat, |k: int| 0u8));
    }
    push_be(&mut msg, bit_len, 8);
    msg
}

/// SHA-1 of a message.
pub fn sha1(data: &[u8]) -> (out: Vec<u8>)
    ensures
        out@ == digest(data@),
        out@.len() == 20,
{
    let msg = pad(data);
    let count: usize = msg.len() / 64;
    let mut h = Chain {
        a: 0x6745_2301,
        b: 0xEFCD_AB89,
        c: 0x98BA_DCFE,
        d: 0x1032_5476,
        e: 0xC3D2_E1F0,
    };
    let mut n: usize = 0;
    while n < count
        invariant
            n <= count,
            count == msg@.len() / 64,
            msg@.len() <= usize::MAX,
            h == absorbed(msg@, n as nat),
        decreases count - n,
    {
        h = compress(h, msg.as_slice(), n * 64);
        n += 1;
    }
    let mut out: Vec<u8> = Vec::new();
    push_be(&mut out, h.a as u64, 4);
    push_be(&mut out, h.b as u64, 4);
    push_be(&mut out, h.c as u64, 4);
    push_be(&mut out, h.d as u64, 4);
    push_be(&mut out, h.e as u64, 4);
    proof {
        law_digest_len(data@);
        assert(out@ == chain_bytes(h));
    }
    out
}

} // verus!
