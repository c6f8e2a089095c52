//! What the shown identifiers promise: a SID, a GUID and a service name read back
//! from their texts, part by part.

use crate::bytes::{be32, be_bytes, le32, le_bytes};
use crate::json::hex_text;
use crate::sha1::{
    absorbed, chain_bytes, constant, digest, law_padding_fills_blocks, lemma_be_bytes_len, mix,
    padded, rotated, rounds, schedule, Chain,
};
use crate::sid::{
    guid_form, is_service_sid, is_sid, name_in, read_keys, service_behind, service_form, service_of,
    services, services_read, sid_form, stale, utf16le, utf16le_char, well_known, words_text,
    Service, ServiceMap, ServiceView,
};
use crate::text::{
    bytes_text, decimal, join, law_decimals_read_back, law_join_splits_back, lemma_decimal_value,
    lemma_join_push, parse_nat, split, uppercase_text,
};
use vstd::prelude::*;

verus! {

// ---------------------------------------------------------------------------
// SIDs
// ---------------------------------------------------------------------------
/// A byte string is a binary SID exactly where it begins with a one, says at most
/// fifteen sub-authorities, and is long enough for them behind its eight bytes.
pub proof fn law_sids_by_their_bytes(b: Seq<u8>)
    ensures
        is_sid(b) <==> b.len() >= 8 && b[0] == 1 && b[1] <= 15 && b.len() >= 8 + 4 * b[1],
{
}

spec fn sid_parts(b: Seq<u8>, n: nat) -> Seq<Seq<char>> {
    seq![
        seq!['S'],
        seq!['1'],
        decimal(crate::bytes::be16(b, 2) * 0x1_0000_0000 + be32(b, 4)),
    ] + Seq::new(n, |i: int| decimal(le32(b, 8 + 4 * i)))
}

proof fn lemma_sid_parts(b: Seq<u8>, n: nat)
    ensures
        join(sid_parts(b, n), seq!['-']) == "S-1-"@ + decimal(
            crate::bytes::be16(b, 2) * 0x1_0000_0000 + be32(b, 4),
        ) + words_text(b, 8, n),
    decreases n,
{
    let parts = sid_parts(b, n);
    let a = decimal(crate::bytes::be16(b, 2) * 0x1_0000_0000 + be32(b, 4));
    let sep = seq!['-'];
    if n > 0 {
        let before = sid_parts(b, (n - 1) as nat);
        lemma_sid_parts(b, (n - 1) as nat);
        let last = decimal(le32(b, 8 + 4 * (n - 1)));
        assert(parts == before.push(last));
        lemma_join_push(before, sep, last);
        assert("S-1-"@ + a + words_text(b, 8, (n - 1) as nat) + sep + last == "S-1-"@ + a + (
        words_text(b, 8, (n - 1) as nat) + sep + last));
    } else {
        reveal_strlit("S-1-");
        assert(parts.drop_last().drop_last() == seq![seq!['S']]);
        assert(join(seq![seq!['S']], sep) == seq!['S']);
        assert(parts.drop_last() == seq![seq!['S'], seq!['1']]);
        assert(join(parts.drop_last(), sep) == seq!['S'] + sep + seq!['1']);
        assert(join(parts, sep) == seq!['S'] + sep + seq!['1'] + sep + a);
        assert(words_text(b, 8, 0) == Seq::<char>::empty());
        assert(seq!['S'] + sep + seq!['1'] + sep + a == "S-1-"@ + a + Seq::<char>::empty());
    }
}

/// The text of a SID gives its numbers back: between its hyphens stand an S, the
/// revision, the authority from bytes two to seven with the highest first, and
/// each sub-authority from its own four bytes with the lowest first.
pub proof fn law_sids_read_back(b: Seq<u8>)
    requires
        is_sid(b),
    ensures
        ({
            let parts = split(sid_form(b), '-');
            &&& parts.len() == 3 + b[1]
            &&& parts[0] == seq!['S']
            &&& parts[1] == seq!['1']
            &&& parse_nat(parts[2], 0xffff_ffff_ffff) == Some(
                (0x100_0000_0000 * b[2] + 0x1_0000_0000 * b[3] + 0x100_0000 * b[4] + 0x1_0000 * b[5]
                    + 0x100 * b[6] + b[7]) as nat,
            )
            &&& forall|i: int|
                0 <= i < b[1] ==> parse_nat(#[trigger] parts[3 + i], 0xffff_ffff) == Some(
                    (b[8 + 4 * i] + 0x100 * b[9 + 4 * i] + 0x1_0000 * b[10 + 4 * i] + 0x100_0000
                        * b[11 + 4 * i]) as nat,
                )
        }),
{
    let n = b[1] as nat;
    let parts = sid_parts(b, n);
    let authority = crate::bytes::be16(b, 2) * 0x1_0000_0000 + be32(b, 4);
    lemma_sid_parts(b, n);
    assert forall|i: int| 0 <= i < parts.len() implies !(#[trigger] parts[i]).contains('-') by {
        if i == 2 {
            lemma_decimal_value(authority);
        } else if i >= 3 {
            lemma_decimal_value(le32(b, 8 + 4 * (i - 3)));
            assert(parts[i] == decimal(le32(b, 8 + 4 * (i - 3))));
        }
    }
    law_join_splits_back(parts, '-');
    law_decimals_read_back(authority, 0xffff_ffff_ffff);
    assert forall|i: int| 0 <= i < n implies parse_nat(#[trigger] parts[3 + i], 0xffff_ffff)
        == Some(
        (b[8 + 4 * i] + 0x100 * b[9 + 4 * i] + 0x1_0000 * b[10 + 4 * i] + 0x100_0000 * b[11 + 4
            * i]) as nat,
    ) by {
        assert(parts[3 + i] == decimal(le32(b, 8 + 4 * i)));
        law_decimals_read_back(le32(b, 8 + 4 * i), 0xffff_ffff);
    }
}

/// The text of a GUID of sixteen bytes is its digits in groups of eight, four,
/// four, four and twelve, and of anything else its digits alone: without the
/// hyphens it is the bytes in hexadecimal.
pub proof fn law_guids_are_grouped_digits(guid: Seq<u8>)
    ensures
        guid.len() != 16 ==> guid_form(guid) == hex_text(guid),
        guid.len() == 16 ==> {
            let t = guid_form(guid);
            let h = hex_text(guid);
            &&& t.len() == 36
            &&& t[8] == '-' && t[13] == '-' && t[18] == '-' && t[23] == '-'
            &&& forall|i: int| 0 <= i < 8 ==> t[i] == h[i]
            &&& forall|i: int| 9 <= i < 13 ==> t[i] == h[i - 1]
            &&& forall|i: int| 14 <= i < 18 ==> t[i] == h[i - 2]
            &&& forall|i: int| 19 <= i < 23 ==> t[i] == h[i - 3]
            &&& forall|i: int| 24 <= i < 36 ==> t[i] == h[i - 4]
        },
{
    crate::json::lemma_hex_len(guid);
}

/// The principals that have a name of their own, each by its SID; no other SID
/// has one.
pub proof fn law_well_known_principals(sid: Seq<char>)
    ensures
        well_known(sid) is Some <==> sid == "S-1-1-0"@ || sid == "S-1-3-0"@ || sid == "S-1-5-2"@
            || sid == "S-1-5-4"@ || sid == "S-1-5-6"@ || sid == "S-1-5-7"@ || sid == "S-1-5-11"@
            || sid == "S-1-5-18"@ || sid == "S-1-5-19"@ || sid == "S-1-5-20"@ || sid
            == "S-1-5-32-544"@ || sid == "S-1-5-32-545"@ || sid == "S-1-5-32-546"@,
        sid == "S-1-1-0"@ ==> well_known(sid) == Some("Everyone"@),
        sid == "S-1-3-0"@ ==> well_known(sid) == Some("CreatorOwner"@),
        sid == "S-1-5-2"@ ==> well_known(sid) == Some("Network"@),
        sid == "S-1-5-4"@ ==> well_known(sid) == Some("Interactive"@),
        sid == "S-1-5-6"@ ==> well_known(sid) == Some("Service"@),
        sid == "S-1-5-7"@ ==> well_known(sid) == Some("Anonymous"@),
        sid == "S-1-5-11"@ ==> well_known(sid) == Some("AuthenticatedUsers"@),
        sid == "S-1-5-18"@ ==> well_known(sid) == Some("SYSTEM"@),
        sid == "S-1-5-19"@ ==> well_known(sid) == Some("LocalService"@),
        sid == "S-1-5-20"@ ==> well_known(sid) == Some("NetworkService"@),
        sid == "S-1-5-32-544"@ ==> well_known(sid) == Some("Administrators"@),
        sid == "S-1-5-32-545"@ ==> well_known(sid) == Some("Users"@),
        sid == "S-1-5-32-546"@ ==> well_known(sid) == Some("Guests"@),
{
    reveal_strlit("S-1-1-0");
    reveal_strlit("S-1-3-0");
    reveal_strlit("S-1-5-2");
    reveal_strlit("S-1-5-4");
    reveal_strlit("S-1-5-6");
    reveal_strlit("S-1-5-7");
    reveal_strlit("S-1-5-11");
    reveal_strlit("S-1-5-18");
    reveal_strlit("S-1-5-19");
    reveal_strlit("S-1-5-20");
    reveal_strlit("S-1-5-32-544");
    reveal_strlit("S-1-5-32-545");
    reveal_strlit("S-1-5-32-546");
    assert("S-1-1-0"@.len() == 7 && "S-1-3-0"@.len() == 7 && "S-1-5-2"@.len() == 7 && "S-1-5-4"@.len()
        == 7 && "S-1-5-6"@.len() == 7 && "S-1-5-7"@.len() == 7);
    assert("S-1-5-11"@.len() == 8 && "S-1-5-18"@.len() == 8 && "S-1-5-19"@.len() == 8
        && "S-1-5-20"@.len() == 8);
    assert("S-1-5-32-544"@.len() == 12 && "S-1-5-32-545"@.len() == 12 && "S-1-5-32-546"@.len()
        == 12);
    assert("S-1-1-0"@[4] == '1' && "S-1-3-0"@[4] == '3' && "S-1-5-2"@[4] == '5' && "S-1-5-4"@[4]
        == '5' && "S-1-5-6"@[4] == '5' && "S-1-5-7"@[4] == '5');
    assert("S-1-5-2"@[6] == '2' && "S-1-5-4"@[6] == '4' && "S-1-5-6"@[6] == '6' && "S-1-5-7"@[6]
        == '7');
    assert("S-1-5-11"@[7] == '1' && "S-1-5-18"@[7] == '8' && "S-1-5-19"@[7] == '9' && "S-1-5-20"@[7]
        == '0');
    assert("S-1-5-32-544"@[11] == '4' && "S-1-5-32-545"@[11] == '5' && "S-1-5-32-546"@[11] == '6');
}

// ---------------------------------------------------------------------------
// Services
// ---------------------------------------------------------------------------
/// A character in UTF-16LE by its code units: one unit is the character itself,
/// and two are a high and a low surrogate that give it back.
pub proof fn law_utf16_gives_characters_back(c: char)
    ensures
        (c as int) < 0x1_0000 ==> {
            let b = utf16le_char(c);
            b.len() == 2 && b[0] + 0x100 * b[1] == c as int
        },
        c as int >= 0x1_0000 ==> {
            let b = utf16le_char(c);
            let hi = b[0] + 0x100 * b[1];
            let lo = b[2] + 0x100 * b[3];
            &&& b.len() == 4
            &&& 0xd800 <= hi < 0xdc00
            &&& 0xdc00 <= lo < 0xe000
            &&& 0x1_0000 + 0x400 * (hi - 0xd800) + (lo - 0xdc00) == c as int
        },
{
    let u = c as nat;
    assert(u <= 0x10_ffff);
    if u < 0x1_0000 {
        lemma_two_bytes(u);
    } else {
        let v = (u - 0x1_0000) as nat;
        lemma_two_bytes(0xd800 + v / 0x400);
        lemma_two_bytes(0xdc00 + v % 0x400);
    }
}

proof fn lemma_two_bytes(v: nat)
    requires
        v < 0x1_0000,
    ensures
        le_bytes(v, 2).len() == 2,
        le_bytes(v, 2)[0] + 0x100 * le_bytes(v, 2)[1] == v,
{
    reveal_with_fuel(le_bytes, 3);
    assert(le_bytes(v, 2) == seq![(v % 256) as u8, (v / 256 % 256) as u8]);
}

/// Texts one behind the other are encoded one behind the other.
pub proof fn law_utf16_goes_character_by_character(s: Seq<char>, c: char)
    ensures
        utf16le(s.push(c)) == utf16le(s) + utf16le_char(c),
        utf16le(seq![]) == Seq::<u8>::empty(),
{
    assert(s.push(c).drop_last() == s);
}

/// The SID of a service is eight numbers behind its S: the revision, authority
/// five, sub-authority eighty, and the five words of the digest of its name in
/// uppercase.
pub proof fn law_service_sids_read_back(upper: Seq<char>)
    ensures
        ({
            let parts = split(service_form(upper), '-');
            let d = digest(utf16le(upper));
            &&& parts.len() == 9
            &&& parts[0] == seq!['S']
            &&& parts[1] == seq!['1']
            &&& parse_nat(parts[2], 0xffff_ffff_ffff) == Some(5nat)
            &&& parse_nat(parts[3], 0xffff_ffff) == Some(80nat)
            &&& forall|i: int|
                0 <= i < 5 ==> parse_nat(#[trigger] parts[4 + i], 0xffff_ffff) == Some(
                    (d[4 * i] + 0x100 * d[4 * i + 1] + 0x1_0000 * d[4 * i + 2] + 0x100_0000 * d[4 * i
                        + 3]) as nat,
                )
        }),
{
    let b = crate::sid::service_binary(upper);
    let d = digest(utf16le(upper));
    crate::sid::law_service_sid_is_a_sid(upper);
    law_sids_read_back(b);
    crate::sha1::law_digest_len(utf16le(upper));
    let parts = split(service_form(upper), '-');
    assert(b[1] == 6);
    assert(parse_nat(parts[3 + 0int], 0xffff_ffff) == Some(80nat));
    assert forall|i: int| 0 <= i < 5 implies parse_nat(#[trigger] parts[4 + i], 0xffff_ffff) == Some(
        (d[4 * i] + 0x100 * d[4 * i + 1] + 0x1_0000 * d[4 * i + 2] + 0x100_0000 * d[4 * i
            + 3]) as nat,
    ) by {
        assert(parts[3 + (i + 1)] == parts[4 + i]);
        assert(b[12 + 4 * i] == d[4 * i] && b[13 + 4 * i] == d[4 * i + 1] && b[14 + 4 * i] == d[4 * i
            + 2] && b[15 + 4 * i] == d[4 * i + 3]);
    }
}

/// A service goes by the text of its key and by the SID of that text in
/// uppercase.
pub proof fn law_services_by_their_key(key: Seq<u8>)
    ensures
        service_of(key).name == bytes_text(key),
        service_of(key).sid == service_form(uppercase_text(bytes_text(key))),
{
}

/// The keys of a listing that could be read, in order.
pub proof fn law_unread_keys_are_left_out(listed: Seq<Option<Vec<u8>>>, next: Option<Vec<u8>>)
    ensures
        read_keys(listed.push(next)) == match next {
            Some(key) => read_keys(listed).push(key@),
            None => read_keys(listed),
        },
        read_keys(seq![]) == Seq::<Seq<u8>>::empty(),
{
    assert(listed.push(next).drop_last() == listed);
}

/// The name behind a SID is that of the first service with it, and there is none
/// where no service has it.
pub proof fn law_first_service_with_a_sid(all: Seq<Service>, sid: Seq<char>, i: int)
    requires
        0 <= i <= all.len(),
        forall|k: int| 0 <= k < i ==> (#[trigger] all[k]).sid != sid,
        i < all.len() ==> all[i].sid == sid,
    ensures
        name_in(all, sid) == if i < all.len() {
            Some(all[i].name)
        } else {
            None
        },
    decreases all.len(),
{
    if i > 0 {
        let rest = all.skip(1);
        assert(all[0].sid != sid);
        assert forall|k: int| 0 <= k < i - 1 implies (#[trigger] rest[k]).sid != sid by {
            assert(rest[k] == all[k + 1]);
        }
        law_first_service_with_a_sid(rest, sid, i - 1);
    }
}

/// The services are read again where they never were, or more than thirty
/// seconds ago, and only for a SID that begins as a service's does; in between
/// the answer is what was read.
pub proof fn law_services_are_read_when_stale(map: ServiceMap, sid: Seq<char>, now: u64)
    ensures
        stale(map, now) <==> (map.read_at matches Some(t) ==> now - t > 30_000_000_000),
        is_service_sid(sid) <==> sid.len() >= 9 && sid.take(9) == "S-1-5-80-"@,
        service_behind(map, sid, now) == ServiceView::ReadServices <==> is_service_sid(sid)
            && stale(map, now),
        !is_service_sid(sid) ==> service_behind(map, sid, now) == ServiceView::Known(None),
        is_service_sid(sid) && !stale(map, now) ==> service_behind(map, sid, now)
            == ServiceView::Known(name_in(services(map.by_sid@), sid)),
{
    reveal_strlit("S-1-5-80-");
}

// ---------------------------------------------------------------------------
// The digest
// ---------------------------------------------------------------------------
/// A padded message is the message, a byte with its highest bit alone, as few
/// zero bytes as fill the last block, and the message's length in bits in the
/// last eight bytes, the highest first.
pub proof fn law_padding_by_position(data: Seq<u8>)
    requires
        data.len() < 0x2000_0000_0000_0000,
    ensures
        ({
            let p = padded(data);
            let n = p.len() as int;
            &&& n % 64 == 0
            &&& data.len() + 9 <= n < data.len() + 73
            &&& forall|i: int| 0 <= i < data.len() ==> p[i] == data[i]
            &&& p[data.len() as int] == 0x80
            &&& forall|i: int| data.len() < i < n - 8 ==> p[i] == 0
            &&& crate::bytes::be64(p, n - 8) == 8 * data.len()
        }),
{
    let bits = (data.len() * 8) % 0x1_0000_0000_0000_0000;
    assert(bits == data.len() * 8);
    law_padding_fills_blocks(data);
    let p = padded(data);
    let n = p.len() as int;
    lemma_be_bytes_len(bits, 8);
    let zeros = ((55 - data.len()) % 64) as nat;
    assert(zeros < 64);
    let tail = be_bytes(bits, 8);
    assert(n == data.len() + 1 + zeros + 8);
    assert(p.skip(n - 8) == tail);
    let hi = bits / 0x1_0000_0000;
    let lo = bits % 0x1_0000_0000;
    crate::bytes::lemma_word8(bits);
    crate::bytes::lemma_le4(hi);
    crate::bytes::lemma_le4(lo);
    crate::bytes::lemma_four_bytes(hi);
    crate::bytes::lemma_four_bytes(lo);
    assert(forall|k: int| 0 <= k < 8 ==> p[n - 8 + k] == #[trigger] tail[k]);
    assert(tail == be_bytes(hi, 4) + be_bytes(lo, 4));
    assert(p[n - 8] == tail[0] && p[n - 7] == tail[1] && p[n - 6] == tail[2] && p[n - 5] == tail[3]
        && p[n - 4] == tail[4] && p[n - 3] == tail[5] && p[n - 2] == tail[6] && p[n - 1]
        == tail[7]);
    assert(be32(p, n - 8) == hi);
    assert(be32(p, n - 4) == lo);
}

/// The round functions bit by bit: the first picks the second word where the
/// first has a one and the third where it has a zero; the third is the majority;
/// the others are the parity. Each serves twenty rounds, under its own constant.
pub proof fn law_round_functions_bit_by_bit(i: int, b: u32, c: u32, d: u32)
    requires
        0 <= i < 80,
    ensures
        i < 20 ==> b & mix(i, b, c, d) == b & c && !b & mix(i, b, c, d) == !b & d,
        20 <= i < 40 || 60 <= i ==> mix(i, b, c, d) ^ d == b ^ c,
        40 <= i < 60 ==> mix(i, b, b, d) == b && mix(i, b, c, b) == b && mix(i, b, c, c) == c,
        constant(i) == if i < 20 {
            0x5A82_7999
        } else if i < 40 {
            0x6ED9_EBA1
        } else if i < 60 {
            0x8F1B_BCDC
        } else {
            0xCA62_C1D6u32
        },
{
    assert(b & ((b & c) | (!b & d)) == b & c && !b & ((b & c) | (!b & d)) == !b & d && (b ^ c ^ d)
        ^ d == b ^ c && (b & b) | (b & d) | (b & d) == b && (b & c) | (b & b) | (c & b) == b && (b
        & c) | (b & c) | (c & c) == c) by (bit_vector);
}

/// A word turned left keeps all its bits: turning it on by the rest gives it
/// back.
pub proof fn law_words_turn_all_the_way(x: u32)
    ensures
        rotated(rotated(x, 5), 27) == x,
        rotated(rotated(x, 30), 2) == x,
        rotated(rotated(x, 1), 31) == x,
        x < 0x8000_0000 ==> rotated(x, 1) == 2 * x,
        x >= 0x8000_0000 ==> rotated(x, 1) == 2 * x - 0xffff_ffff,
        x < 0x800_0000 ==> rotated(x, 5) == 32 * x,
        x % 4 == 0 ==> rotated(x, 30) == x / 4,
{
    assert((((x << 5u32) | (x >> 27u32)) << 27u32) | (((x << 5u32) | (x >> 27u32)) >> 5u32) == x
        && (((x << 30u32) | (x >> 2u32)) << 2u32) | (((x << 30u32) | (x >> 2u32)) >> 30u32) == x
        && (((x << 1u32) | (x >> 31u32)) << 31u32) | (((x << 1u32) | (x >> 31u32)) >> 1u32) == x)
        by (bit_vector);
    assert((x < 0x8000_0000 ==> (x << 1u32) | (x >> 31u32) == 2 * x) && (x >= 0x8000_0000 ==> (x
        << 1u32) | (x >> 31u32) == 2 * x - 0xffff_ffff) && (x < 0x800_0000 ==> (x << 5u32) | (x
        >> 27u32) == 32 * x) && (x % 4 == 0 ==> (x << 30u32) | (x >> 2u32) == x / 4)) by (bit_vector);
}

/// The message schedule begins with the words of the block, the highest byte
/// first, and each later word, turned back by one bit, is the parity of those
/// three, eight, fourteen and sixteen before it.
pub proof fn law_the_schedule_extends_the_block(block: Seq<u8>, i: int)
    requires
        block.len() == 64,
        0 <= i < 80,
    ensures
        i < 16 ==> schedule(block, i) == 0x100_0000 * block[4 * i] + 0x1_0000 * block[4 * i + 1]
            + 0x100 * block[4 * i + 2] + block[4 * i + 3],
        i >= 16 ==> rotated(schedule(block, i), 31) == schedule(block, i - 3) ^ schedule(
            block,
            i - 8,
        ) ^ schedule(block, i - 14) ^ schedule(block, i - 16),
{
    if i >= 16 {
        law_words_turn_all_the_way(
            schedule(block, i - 3) ^ schedule(block, i - 8) ^ schedule(block, i - 14) ^ schedule(
                block,
                i - 16,
            ),
        );
    }
}

/// A round moves the words on by one place, the second turned by thirty bits, and
/// makes the new first word of the others: without what the round adds to it,
/// the old last word is left.
pub proof fn law_rounds_move_the_words_on(h: Chain, block: Seq<u8>, n: int)
    requires
        0 <= n < 80,
    ensures
        ({
            let s = rounds(h, block, n);
            let t = rounds(h, block, n + 1);
            &&& t.b == s.a
            &&& rotated(t.c, 2) == s.b
            &&& t.d == s.c
            &&& t.e == s.d
            &&& t.a as int == (rotated(s.a, 5) + mix(n, s.b, s.c, s.d) + s.e + constant(n)
                + schedule(block, n)) % 0x1_0000_0000
        }),
        rounds(h, block, 0) == h,
{
    let s = rounds(h, block, n);
    law_words_turn_all_the_way(s.b);
    lemma_wrapping_sum(
        rotated(s.a, 5),
        mix(n, s.b, s.c, s.d),
        s.e,
        constant(n),
        schedule(block, n),
    );
}

proof fn lemma_wrapping_sum(a: u32, b: u32, c: u32, d: u32, e: u32)
    ensures
        a.wrapping_add(b).wrapping_add(c).wrapping_add(d).wrapping_add(e) as int == (a + b + c + d
            + e) % 0x1_0000_0000,
{
}

/// The blocks of a message are taken in one by one, each added to what the ones
/// before it gave; the digest is the five words behind the last, the highest
/// byte of each first.
pub proof fn law_blocks_add_up(msg: Seq<u8>, n: nat)
    requires
        64 * (n + 1) <= msg.len(),
    ensures
        ({
            let before = absorbed(msg, n);
            let after = absorbed(msg, n + 1);
            let s = rounds(before, msg.subrange(64 * n as int, 64 * (n + 1) as int), 80);
            &&& after.a as int == (before.a + s.a) % 0x1_0000_0000
            &&& after.b as int == (before.b + s.b) % 0x1_0000_0000
            &&& after.c as int == (before.c + s.c) % 0x1_0000_0000
            &&& after.d as int == (before.d + s.d) % 0x1_0000_0000
            &&& after.e as int == (before.e + s.e) % 0x1_0000_0000
        }),
        absorbed(msg, 0) == (Chain {
            a: 0x6745_2301,
            b: 0xEFCD_AB89,
            c: 0x98BA_DCFE,
            d: 0x1032_5476,
            e: 0xC3D2_E1F0,
        }),
{
    assert((n + 1 - 1) as nat == n);
    assert(64 * (n + 1) as int == 64 * (n + 1));
}

/// The digest is the five words behind the last block, the highest byte of each
/// first.
pub proof fn law_digests_are_the_last_words(data: Seq<u8>)
    ensures
        ({
            let h = absorbed(padded(data), padded(data).len() / 64);
            let d = digest(data);
            &&& d.len() == 20
            &&& be32(d, 0) == h.a
            &&& be32(d, 4) == h.b
            &&& be32(d, 8) == h.c
            &&& be32(d, 12) == h.d
            &&& be32(d, 16) == h.e
        }),
{
    let h = absorbed(padded(data), padded(data).len() / 64);
    let d = chain_bytes(h);
    crate::sha1::law_digest_len(data);
    lemma_be_bytes_len(h.a as nat, 4);
    lemma_be_bytes_len(h.b as nat, 4);
    lemma_be_bytes_len(h.c as nat, 4);
    lemma_be_bytes_len(h.d as nat, 4);
    lemma_be_bytes_len(h.e as nat, 4);
    assert(d.subrange(0, 4) == be_bytes(h.a as nat, 4));
    assert(d.subrange(4, 8) == be_bytes(h.b as nat, 4));
    assert(d.subrange(8, 12) == be_bytes(h.c as nat, 4));
    assert(d.subrange(12, 16) == be_bytes(h.d as nat, 4));
    assert(d.subrange(16, 20) == be_bytes(h.e as nat, 4));
    lemma_be_word(d, 0, h.a);
    lemma_be_word(d, 4, h.b);
    lemma_be_word(d, 8, h.c);
    lemma_be_word(d, 12, h.d);
    lemma_be_word(d, 16, h.e);
}

proof fn lemma_be_word(d: Seq<u8>, at: int, w: u32)
    ensures
        0 <= at && at + 4 <= d.len() && d.subrange(at, at + 4) == be_bytes(w as nat, 4) ==> be32(
            d,
            at,
        ) == w,
{
    let v = w as nat;
    crate::bytes::lemma_le4(v);
    crate::bytes::lemma_four_bytes(v);
    if 0 <= at && at + 4 <= d.len() && d.subrange(at, at + 4) == be_bytes(v, 4) {
        let u = d.subrange(at, at + 4);
        assert(d[at] == u[0] && d[at + 1] == u[1] && d[at + 2] == u[2] && d[at + 3] == u[3]);
    }
}

/// What a listing of the services gives: one for each key that could be read, in
/// order, each by its key; and nothing without a listing.
pub proof fn law_services_come_from_the_listing(listed: Option<Vec<Option<Vec<u8>>>>, i: int)
    ensures
        listed is None ==> services_read(listed).len() == 0,
        listed matches Some(l) ==> services_read(listed).len() == read_keys(l@).len(),
        listed matches Some(l) ==> 0 <= i < read_keys(l@).len() ==> services_read(listed)[i]
            == service_of(read_keys(l@)[i]),
{
}

} // verus!
