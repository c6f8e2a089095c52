//! Security identifiers as the viewer shows them: the textual form of a
//! binary SID, the well-known names an owner would recognise, and the
//! service names behind `S-1-5-80-...` SIDs, derived from the service
//! definitions in the registry exactly as the service manager derives a
//! service's SID (the SHA-1 of the uppercased UTF-16LE name). The kernel never
//! resolves a name; the viewer does, and says when it cannot.

use crate::bytes::{be16, be32, le32, le_bytes, push_le, read_be16, read_be32, read_le32};
use crate::json::{hex, hex_text, lemma_hex_len};
use crate::sha1::{digest, law_digest_len, sha1};
use crate::text::{
    bytes_text, chars_of, decimal, has_prefix, push_decimal, same_text, starts_with, text_from,
    text_of, to_uppercase, uppercase_text,
};
use vstd::prelude::*;
use vstd::string::StringExecFns;

verus! {

/// Each 32-bit word of a byte string, as `-` and a decimal numeral: `count` of
/// them, from an offset on, least significant byte first.
pub open spec fn words_text(bytes: Seq<u8>, at: int, count: nat) -> Seq<char>
    decreases count,
{
    if count == 0 {
        seq![]
    } else {
        words_text(bytes, at, (count - 1) as nat) + seq!['-'] + decimal(
            le32(bytes, at + 4 * (count - 1)),
        )
    }
}

/// Whether a byte string holds a binary SID: revision one, at most fifteen
/// sub-authorities, and all of them there.
pub open spec fn is_sid(bytes: Seq<u8>) -> bool {
    &&& bytes.len() >= 8
    &&& bytes[0] == 1
    &&& bytes[1] <= 15
    &&& bytes.len() >= 8 + bytes[1] * 4
}

/// The textual form of a binary SID.
pub open spec fn sid_form(bytes: Seq<u8>) -> Seq<char> {
    "S-1-"@ + decimal(be16(bytes, 2) * 0x1_0000_0000 + be32(bytes, 4)) + words_text(
        bytes,
        8,
        bytes[1] as nat,
    )
}

/// Appends the words of a byte string.
fn push_words(out: &mut String, bytes: &[u8], at: usize, count: usize)
    requires
        at + 4 * count <= bytes@.len(),
    ensures
        final(out)@ == old(out)@ + words_text(bytes@, at as int, count as nat),
{
    let mut i: usize = 0;
    assert(bytes.len() == bytes@.len());
    assert(out@ == old(out)@ + words_text(bytes@, at as int, 0));
    while i < count
        invariant
            i <= count,
            at + 4 * count <= bytes@.len() <= usize::MAX,
            out@ == old(out)@ + words_text(bytes@, at as int, i as nat),
        decreases count - i,
    {
        out.push('-');
        push_decimal(out, read_le32(bytes, at + 4 * i) as u128);
        i += 1;
        assert(out@ == old(out)@ + words_text(bytes@, at as int, i as nat));
    }
}

/// The textual form of a binary SID (`S-1-5-18`), or `None` for an absent
/// (all-zero) or malformed one.
pub fn sid_text(bytes: &[u8]) -> (r: Option<String>)
    ensures
        match r {
            Some(text) => is_sid(bytes@) && text@ == sid_form(bytes@),
            None => !is_sid(bytes@),
        },
{
    if bytes.len() < 8 || bytes[0] != 1 {
        return None;
    }
    let count: usize = bytes[1] as usize;
    if count > 15 || bytes.len() < 8 + count * 4 {
        return None;
    }
    let authority: u64 = (read_be16(bytes, 2) as u64) * 0x1_0000_0000 + read_be32(bytes, 4) as u64;
    let mut out = String::new();
    out.append("S-1-");
    push_decimal(&mut out, authority as u128);
    push_words(&mut out, bytes, 8, count);
    assert(out@ == sid_form(bytes@));
    Some(out)
}

/// The textual form of a GUID: its digits in groups of 8, 4, 4, 4 and 12; of
/// anything that is not sixteen bytes, its digits alone.
pub open spec fn guid_form(guid: Seq<u8>) -> Seq<char> {
    let h = hex_text(guid);
    if guid.len() != 16 {
        h
    } else {
        h.subrange(0, 8) + seq!['-'] + h.subrange(8, 12) + seq!['-'] + h.subrange(12, 16) + seq![
            '-',
        ] + h.subrange(16, 20) + seq!['-'] + h.subrange(20, 32)
    }
}

/// A process GUID as lowercase hyphenated text (8-4-4-4-12).
pub fn guid_text(guid: &[u8]) -> (r: String)
    ensures
        r@ == guid_form(guid@),
{
    let h = hex(guid);
    proof {
        lemma_hex_len(guid@);
    }
    if guid.len() != 16 {
        return h;
    }
    let c = chars_of(h.as_str());
    let mut out = String::new();
    out.append(text_of(c.as_slice(), 0, 8).as_str());
    out.push('-');
    out.append(text_of(c.as_slice(), 8, 12).as_str());
    out.push('-');
    out.append(text_of(c.as_slice(), 12, 16).as_str());
    out.push('-');
    out.append(text_of(c.as_slice(), 16, 20).as_str());
    out.push('-');
    out.append(text_of(c.as_slice(), 20, 32).as_str());
    assert(out@ == guid_form(guid@));
    out
}

/// The principals an owner is likely to meet: their SIDs and names.
pub open spec fn well_known(sid: Seq<char>) -> Option<Seq<char>> {
    if sid == "S-1-1-0"@ {
        Some("Everyone"@)
    } else if sid == "S-1-3-0"@ {
        Some("CreatorOwner"@)
    } else if sid == "S-1-5-2"@ {
        Some("Network"@)
    } else if sid == "S-1-5-4"@ {
        Some("Interactive"@)
    } else if sid == "S-1-5-6"@ {
        Some("Service"@)
    } else if sid == "S-1-5-7"@ {
        Some("Anonymous"@)
    } else if sid == "S-1-5-11"@ {
        Some("AuthenticatedUsers"@)
    } else if sid == "S-1-5-18"@ {
        Some("SYSTEM"@)
    } else if sid == "S-1-5-19"@ {
        Some("LocalService"@)
    } else if sid == "S-1-5-20"@ {
        Some("NetworkService"@)
    } else if sid == "S-1-5-32-544"@ {
        Some("Administrators"@)
    } else if sid == "S-1-5-32-545"@ {
        Some("Users"@)
    } else if sid == "S-1-5-32-546"@ {
        Some("Guests"@)
    } else {
        None
    }
}

/// The names of the principals an owner is likely to meet.
pub fn well_known_name(sid: &str) -> (r: Option<&'static str>)
    ensures
        match r {
            Some(name) => well_known(sid@) == Some(name@),
            None => well_known(sid@) is None,
        },
{
    if same_text(sid, "S-1-1-0") {
        Some("Everyone")
    } else if same_text(sid, "S-1-3-0") {
        Some("CreatorOwner")
    } else if same_text(sid, "S-1-5-2") {
        Some("Network")
    } else if same_text(sid, "S-1-5-4") {
        Some("Interactive")
    } else if same_text(sid, "S-1-5-6") {
        Some("Service")
    } else if same_text(sid, "S-1-5-7") {
        Some("Anonymous")
    } else if same_text(sid, "S-1-5-11") {
        Some("AuthenticatedUsers")
    } else if same_text(sid, "S-1-5-18") {
        Some("SYSTEM")
    } else if same_text(sid, "S-1-5-19") {
        Some("LocalService")
    } else if same_text(sid, "S-1-5-20") {
        Some("NetworkService")
    } else if same_text(sid, "S-1-5-32-544") {
        Some("Administrators")
    } else if same_text(sid, "S-1-5-32-545") {
        Some("Users")
    } else if same_text(sid, "S-1-5-32-546") {
        Some("Guests")
    } else {
        None
    }
}

// ---------------------------------------------------------------------------
// Service SIDs
// ---------------------------------------------------------------------------
/// A character in UTF-16LE: one unit, or a surrogate pair.
pub open spec fn utf16le_char(c: char) -> Seq<u8> {
    let u = c as nat;
    if u < 0x1_0000 {
        le_bytes(u, 2)
    } else {
        le_bytes(0xd800 + (u - 0x1_0000) as nat / 0x400, 2) + le_bytes(
            0xdc00 + (u - 0x1_0000) as nat % 0x400,
            2,
        )
    }
}

/// A text in UTF-16LE.
pub open spec fn utf16le(s: Seq<char>) -> Seq<u8>
    decreases s.len(),
{
    if s.len() == 0 {
        seq![]
    } else {
        utf16le(s.drop_last()) + utf16le_char(s.last())
    }
}

fn push_utf16le(out: &mut Vec<u8>, c: char)
    ensures
        final(out)@ == old(out)@ + utf16le_char(c),
{
    let u: u32 = c as u32;
    if u < 0x1_0000 {
        push_le(out, u as u64, 2);
    } else {
        let v: u32 = u - 0x1_0000;
        push_le(out, (0xd800 + v / 0x400) as u64, 2);
        push_le(out, (0xdc00 + v % 0x400) as u64, 2);
    }
    assert(out@ == old(out)@ + utf16le_char(c));
}

/// A text as UTF-16LE bytes.
pub fn encode_utf16le(s: &str) -> (r: Vec<u8>)
    ensures
        r@ == utf16le(s@),
{
    let mut out: Vec<u8> = Vec::new();
    assert(s@.take(0) == Seq::<char>::empty());
    for c in it: s.chars()
        invariant
            it.seq() == s@,
            out@ == utf16le(s@.take(it.index() as int)),
    {
        let ghost i = it.index() as int;
        push_utf16le(&mut out, c);
        assert(s@.take(i + 1).drop_last() == s@.take(i));
        assert(s@.take(i + 1).last() == c);
    }
    assert(s@.take(s@.len() as int) == s@);
    out
}

/// The per-service SID of a service whose name, in uppercase, is `upper`.
pub open spec fn service_form(upper: Seq<char>) -> Seq<char> {
    "S-1-5-80"@ + words_text(digest(utf16le(upper)), 0, 5)
}

/// The per-service SID of an uppercased service name.
pub fn service_sid_of_uppercase(upper: &str) -> (r: String)
    ensures
        r@ == service_form(upper@),
{
    let encoded = encode_utf16le(upper);
    let hash = sha1(encoded.as_slice());
    let mut out = String::new();
    out.append("S-1-5-80");
    push_words(&mut out, hash.as_slice(), 0, 5);
    assert(out@ == service_form(upper@));
    out
}

/// The per-service SID of a service name, as the service manager derives it.
pub fn service_sid(name: &str) -> (r: String)
    ensures
        r@ == service_form(uppercase_text(name@)),
{
    let upper = to_uppercase(name);
    service_sid_of_uppercase(upper.as_str())
}

/// How long a service-name map is trusted before the registry is read again,
/// in nanoseconds.
pub const SERVICES_TTL: u64 = 30_000_000_000;

/// A service: its SID and its name.
pub struct Service {
    pub sid: Seq<char>,
    pub name: Seq<char>,
}

/// The service that a registry key of a given name defines.
pub open spec fn service_of(key: Seq<u8>) -> Service {
    Service { sid: service_form(uppercase_text(bytes_text(key))), name: bytes_text(key) }
}

/// The services as they stand in a table.
pub open spec fn services(table: Seq<(String, String)>) -> Seq<Service> {
    table.map_values(|e: (String, String)| Service { sid: e.0@, name: e.1@ })
}

/// The name of the first service with a SID.
pub open spec fn name_in(services: Seq<Service>, sid: Seq<char>) -> Option<Seq<char>>
    decreases services.len(),
{
    if services.len() == 0 {
        None
    } else if services[0].sid == sid {
        Some(services[0].name)
    } else {
        name_in(services.skip(1), sid)
    }
}

/// The key names of a listing that could be read.
pub open spec fn read_keys(listed: Seq<Option<Vec<u8>>>) -> Seq<Seq<u8>>
    decreases listed.len(),
{
    if listed.len() == 0 {
        seq![]
    } else {
        match listed.last() {
            Some(key) => read_keys(listed.drop_last()).push(key@),
            None => read_keys(listed.drop_last()),
        }
    }
}

/// Each service definition with the SID it derives to, in the order of the
/// definitions' key names; nothing for one whose name could not be read.
pub fn service_table(listed: &[Option<Vec<u8>>]) -> (r: Vec<(String, String)>)
    ensures
        services(r@) == read_keys(listed@).map_values(|k: Seq<u8>| service_of(k)),
{
    let ghost made = |k: Seq<u8>| service_of(k);
    let mut r: Vec<(String, String)> = Vec::new();
    let mut i: usize = 0;
    assert(listed@.take(0) == Seq::<Option<Vec<u8>>>::empty());
    assert(services(r@) == read_keys(listed@.take(0)).map_values(made));
    while i < listed.len()
        invariant
            i <= listed@.len(),
            made == (|k: Seq<u8>| service_of(k)),
            services(r@) == read_keys(listed@.take(i as int)).map_values(made),
        decreases listed@.len() - i,
    {
        let ghost before = services(r@);
        let ghost had = read_keys(listed@.take(i as int));
        proof {
            assert(listed@.take(i + 1).drop_last() == listed@.take(i as int));
            assert(listed@.take(i + 1).last() == listed@[i as int]);
        }
        if let Some(key) = &listed[i] {
            let name = text_from(key.as_slice());
            let sid = service_sid(name.as_str());
            r.push((sid, name));
            assert(services(r@) == before.push(service_of(key@)));
            assert(had.push(key@).map_values(made) == had.map_values(made).push(service_of(key@)));
        }
        i += 1;
    }
    assert(listed@.take(i as int) == listed@);
    r
}

/// The services of the machine as last read, and when that was (in nanoseconds
/// on a clock that never goes back).
pub struct ServiceMap {
    pub read_at: Option<u64>,
    /// (service SID, service name); a machine has dozens of services, so
    /// a scan is fine.
    pub by_sid: Vec<(String, String)>,
}

/// What is known of the service behind a SID.
pub enum ServiceAnswer {
    /// The services have to be read first.
    ReadServices,
    /// The service's name, where a definition derives to the SID.
    Known(Option<String>),
}

/// Whether a map is too old to be trusted.
pub open spec fn stale(map: ServiceMap, now: u64) -> bool {
    match map.read_at {
        Some(t) => now - t > SERVICES_TTL,
        None => true,
    }
}

/// The services of a listing of their key names, or none without one.
pub open spec fn services_read(listed: Option<Vec<Option<Vec<u8>>>>) -> Seq<Service> {
    match listed {
        Some(listed) => read_keys(listed@).map_values(|k: Seq<u8>| service_of(k)),
        None => Seq::empty(),
    }
}

impl ServiceMap {
    /// A map that was never read.
    pub fn new() -> (r: ServiceMap)
        ensures
            r.read_at is None,
            r.by_sid@ == Seq::<(String, String)>::empty(),
    {
        ServiceMap { read_at: None, by_sid: Vec::new() }
    }

    /// Takes the listed key names of the service definitions as just read (one
    /// that could not be read has none), or nothing where there was no listing.
    pub fn refresh(&mut self, listed: Option<Vec<Option<Vec<u8>>>>, now: u64)
        ensures
            final(self).read_at == Some(now),
            services(final(self).by_sid@) == services_read(listed),
    {
        self.by_sid = match &listed {
            Some(listed) => service_table(listed.as_slice()),
            None => Vec::new(),
        };
        self.read_at = Some(now);
        assert(listed is None ==> services(self.by_sid@) == Seq::<Service>::empty());
    }
}

/// What the text of a per-service SID starts with.
pub open spec fn is_service_sid(sid: Seq<char>) -> bool {
    starts_with(sid, "S-1-5-80-"@)
}

/// What is known of the service behind a SID, as texts.
#[verifier::ext_equal]
pub enum ServiceView {
    ReadServices,
    Known(Option<Seq<char>>),
}

impl View for ServiceAnswer {
    type V = ServiceView;

    open spec fn view(&self) -> ServiceView {
        match self {
            ServiceAnswer::ReadServices => ServiceView::ReadServices,
            ServiceAnswer::Known(Some(name)) => ServiceView::Known(Some(name@)),
            ServiceAnswer::Known(None) => ServiceView::Known(None),
        }
    }
}

/// What is known of the service behind a SID: nothing for a SID that is not a
/// service's, nothing yet where the map is stale, and otherwise the name of the
/// first service with it.
pub open spec fn service_behind(map: ServiceMap, sid: Seq<char>, now: u64) -> ServiceView {
    if !is_service_sid(sid) {
        ServiceView::Known(None)
    } else if stale(map, now) {
        ServiceView::ReadServices
    } else {
        ServiceView::Known(name_in(services(map.by_sid@), sid))
    }
}

/// The service name behind a per-service SID, from the service definitions;
/// `None` when no definition derives to it (a service defined elsewhere, or a
/// SID that is not a service's). The definitions are read again where the map
/// is stale, and never for a SID that is not a service's.
pub fn service_name(map: &ServiceMap, sid: &str, now: u64) -> (r: ServiceAnswer)
    ensures
        r@ == service_behind(*map, sid@, now),
{
    let c = chars_of(sid);
    assert(c@.skip(0) == sid@);
    if !has_prefix(c.as_slice(), 0, "S-1-5-80-") {
        return ServiceAnswer::Known(None);
    }
    let expired: bool = match map.read_at {
        Some(t) => now > t && now - t > SERVICES_TTL,
        None => true,
    };
    if expired {
        return ServiceAnswer::ReadServices;
    }
    let ghost all = services(map.by_sid@);
    let mut i: usize = 0;
    assert(all.skip(0) == all);
    while i < map.by_sid.len()
        invariant
            i <= map.by_sid@.len(),
            all == services(map.by_sid@),
            name_in(all.skip(i as int), sid@) == name_in(all, sid@),
            is_service_sid(sid@),
            !stale(*map, now),
        decreases map.by_sid@.len() - i,
    {
        let (s, name) = &map.by_sid[i];
        assert(all.skip(i as int)[0] == all[i as int]);
        assert(all.skip(i as int).skip(1) == all.skip(i + 1));
        if same_text(s.as_str(), sid) {
            return ServiceAnswer::Known(Some(name.clone()));
        }
        i += 1;
    }
    ServiceAnswer::Known(None)
}

/// The binary SID of a service: authority 5, sub-authority 80, and the five
/// words of the digest of its name.
pub open spec fn service_binary(upper: Seq<char>) -> Seq<u8> {
    seq![1u8, 6, 0, 0, 0, 0, 0, 5, 80, 0, 0, 0] + digest(utf16le(upper))
}

proof fn lemma_service_words(upper: Seq<char>, n: nat)
    requires
        n <= 5,
    ensures
        words_text(service_binary(upper), 8, n + 1) == seq!['-'] + decimal(80) + words_text(
            digest(utf16le(upper)),
            0,
            n,
        ),
    decreases n,
{
    let d = digest(utf16le(upper));
    let b = service_binary(upper);
    law_digest_len(utf16le(upper));
    if n == 0 {
        assert(words_text(b, 8, 0) == Seq::<char>::empty());
        assert(words_text(d, 0, 0) == Seq::<char>::empty());
        assert(le32(b, 8) == 80);
        assert(Seq::<char>::empty() + seq!['-'] + decimal(80) == seq!['-'] + decimal(80)
            + Seq::<char>::empty());
    } else {
        lemma_service_words(upper, (n - 1) as nat);
        let k = 4 * (n - 1);
        assert(b[12 + k] == d[k] && b[13 + k] == d[k + 1] && b[14 + k] == d[k + 2] && b[15 + k]
            == d[k + 3]);
        assert(le32(b, 8 + 4 * (n + 1 - 1)) == le32(d, 0 + 4 * (n - 1)));
        assert(words_text(b, 8, n + 1) == words_text(b, 8, n) + seq!['-'] + decimal(
            le32(d, 4 * (n - 1)),
        ));
        assert(words_text(b, 8, n + 1) == seq!['-'] + decimal(80) + words_text(d, 0, n));
    }
}

/// The SID that a service name derives to is the text of a binary SID.
pub proof fn law_service_sid_is_a_sid(upper: Seq<char>)
    ensures
        is_sid(service_binary(upper)),
        sid_form(service_binary(upper)) == service_form(upper),
{
    let b = service_binary(upper);
    law_digest_len(utf16le(upper));
    lemma_service_words(upper, 5);
    reveal_strlit("S-1-");
    reveal_strlit("S-1-5-80");
    assert(be16(b, 2) == 0 && be32(b, 4) == 5);
    assert(decimal(5) == seq!['5']);
    assert(decimal(80) == seq!['8', '0']) by {
        reveal_with_fuel(crate::text::numeral, 3);
    }
    let w = words_text(digest(utf16le(upper)), 0, 5);
    assert("S-1-"@ + seq!['5'] + (seq!['-'] + seq!['8', '0'] + w) == "S-1-5-80"@ + w);
}

/// Every SID that a service name derives to is recognised as a service's.
pub proof fn law_service_sids_are_recognised(upper: Seq<char>)
    ensures
        is_service_sid(service_form(upper)),
{
    let d = digest(utf16le(upper));
    lemma_words_start(d, 0, 5);
    reveal_strlit("S-1-5-80");
    reveal_strlit("S-1-5-80-");
    assert(service_form(upper).take(9) == "S-1-5-80-"@);
}

proof fn lemma_words_start(bytes: Seq<u8>, at: int, count: nat)
    requires
        count > 0,
    ensures
        words_text(bytes, at, count).len() > 0,
        words_text(bytes, at, count)[0] == '-',
    decreases count,
{
    if count > 1 {
        lemma_words_start(bytes, at, (count - 1) as nat);
    } else {
        assert(words_text(bytes, at, 0) == Seq::<char>::empty());
    }
}

/// Looking up the SID of a service that was read finds a service with that
/// SID: the first one among the definitions.
pub proof fn law_read_services_are_found(keys: Seq<Seq<u8>>, i: int)
    requires
        0 <= i < keys.len(),
    ensures
        exists|k: int|
            0 <= k <= i && (#[trigger] service_of(keys[k])).sid == service_of(keys[i]).sid && name_in(
                keys.map_values(|k: Seq<u8>| service_of(k)),
                service_of(keys[i]).sid,
            ) == Some(service_of(keys[k]).name) && (forall|j: int|
                0 <= j < k ==> (#[trigger] service_of(keys[j])).sid != service_of(keys[i]).sid),
    decreases keys.len(),
{
    let all = keys.map_values(|k: Seq<u8>| service_of(k));
    let sid = service_of(keys[i]).sid;
    if all[0].sid == sid {
        assert(service_of(keys[0]).sid == sid);
    } else {
        let rest = keys.skip(1);
        assert(rest[i - 1] == keys[i]);
        law_read_services_are_found(rest, i - 1);
        assert(all.skip(1) == rest.map_values(|k: Seq<u8>| service_of(k)));
        let k = choose|k: int|
            0 <= k <= i - 1 && (#[trigger] service_of(rest[k])).sid == sid && name_in(
                rest.map_values(|k: Seq<u8>| service_of(k)),
                sid,
            ) == Some(service_of(rest[k]).name) && (forall|j: int|
                0 <= j < k ==> (#[trigger] service_of(rest[j])).sid != sid);
        assert(rest[k] == keys[k + 1]);
        assert forall|j: int| 0 <= j < k + 1 implies (#[trigger] service_of(keys[j])).sid != sid by {
            if j > 0 {
                assert(rest[j - 1] == keys[j]);
                assert(service_of(rest[j - 1]).sid != sid);
            }
        }
        assert(service_of(keys[k + 1]).sid == sid);
    }
}

/// A map that was just read is trusted.
pub proof fn law_fresh_map_is_trusted(map: ServiceMap, now: u64)
    requires
        map.read_at == Some(now),
    ensures
        !stale(map, now),
{
}

} // verus!
