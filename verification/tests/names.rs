//! Security identifiers and their names.

use pnpd::sha1::sha1;
use pnpd::sid::{
    encode_utf16le, guid_text, service_name, service_sid, service_sid_of_uppercase, service_table,
    sid_text, well_known_name, ServiceAnswer, ServiceMap, SERVICES_TTL,
};
use pnpd::json::hex;

fn key(name: &str) -> Option<Vec<u8>> {
    Some(name.as_bytes().to_vec())
}

#[test]
fn sid_text_reads_the_binary_form() {
    let mut bytes = vec![1u8, 2, 0, 0, 0, 0, 0, 5];
    bytes.extend_from_slice(&32u32.to_le_bytes());
    bytes.extend_from_slice(&544u32.to_le_bytes());
    assert_eq!(sid_text(&bytes).as_deref(), Some("S-1-5-32-544"));
    assert_eq!(well_known_name("S-1-5-32-544"), Some("Administrators"));
    assert_eq!(sid_text(&[0u8; 68]), None);
}

#[test]
fn service_sids_match_peinit() {
    assert_eq!(
        service_sid("app"),
        "S-1-5-80-2426739453-2501902915-3009591593-922485235-2122754908"
    );
    assert_eq!(
        service_sid("resolvd"),
        "S-1-5-80-3864064249-1823296737-2008945602-1354971773-2894779966"
    );
}

#[test]
fn guid_text_is_hyphenated_lowercase() {
    let guid: Vec<u8> = (0..16u8).collect();
    assert_eq!(guid_text(&guid), "00010203-0405-0607-0809-0a0b0c0d0e0f");
}

#[test]
fn guids_of_another_length_are_plain_digits() {
    assert_eq!(guid_text(&[]), "");
    assert_eq!(guid_text(&[0xab, 0xcd]), "abcd");
    assert_eq!(guid_text(&[1; 17]), "0101010101010101010101010101010101");
}

#[test]
fn malformed_sids_have_no_text() {
    assert_eq!(sid_text(&[]), None);
    assert_eq!(sid_text(&[1, 0, 0, 0, 0, 0, 0]), None);
    assert_eq!(sid_text(&[2, 0, 0, 0, 0, 0, 0, 5]), None);
    assert_eq!(sid_text(&[1, 1, 0, 0, 0, 0, 0, 5, 18, 0, 0]), None);
    assert_eq!(sid_text(&[1, 16, 0, 0, 0, 0, 0, 5]), None);
    let mut many = vec![1u8, 16, 0, 0, 0, 0, 0, 5];
    many.extend_from_slice(&[0; 64]);
    assert_eq!(sid_text(&many), None);
}

#[test]
fn sids_have_a_wide_authority_and_up_to_fifteen_parts() {
    assert_eq!(sid_text(&[1, 0, 0, 0, 0, 0, 0, 5]).as_deref(), Some("S-1-5"));
    assert_eq!(
        sid_text(&[1, 0, 0xff, 0xff, 0xff, 0xff, 0xff, 0xff]).as_deref(),
        Some("S-1-281474976710655")
    );
    let mut many = vec![1u8, 15, 0, 0, 0, 0, 0, 1];
    for i in 0..15u32 {
        many.extend_from_slice(&i.to_le_bytes());
    }
    assert_eq!(
        sid_text(&many).as_deref(),
        Some("S-1-1-0-1-2-3-4-5-6-7-8-9-10-11-12-13-14")
    );
    let mut max = vec![1u8, 1, 0, 0, 0, 0, 0, 5];
    max.extend_from_slice(&u32::MAX.to_le_bytes());
    max.push(99);
    assert_eq!(sid_text(&max).as_deref(), Some("S-1-5-4294967295"));
}

#[test]
fn well_known_names_are_all_there() {
    let all = [
        ("S-1-1-0", "Everyone"),
        ("S-1-3-0", "CreatorOwner"),
        ("S-1-5-2", "Network"),
        ("S-1-5-4", "Interactive"),
        ("S-1-5-6", "Service"),
        ("S-1-5-7", "Anonymous"),
        ("S-1-5-11", "AuthenticatedUsers"),
        ("S-1-5-18", "SYSTEM"),
        ("S-1-5-19", "LocalService"),
        ("S-1-5-20", "NetworkService"),
        ("S-1-5-32-544", "Administrators"),
        ("S-1-5-32-545", "Users"),
        ("S-1-5-32-546", "Guests"),
    ];
    for (sid, name) in all {
        assert_eq!(well_known_name(sid), Some(name));
    }
    assert_eq!(well_known_name("S-1-5-21"), None);
    assert_eq!(well_known_name(""), None);
}

#[test]
fn digests_match_the_published_values() {
    assert_eq!(hex(&sha1(b"")), "da39a3ee5e6b4b0d3255bfef95601890afd80709");
    assert_eq!(hex(&sha1(b"abc")), "a9993e364706816aba3e25717850c26c9cd0d89d");
    assert_eq!(
        hex(&sha1(b"abcdbcdecdefdefgefghfghighijhijkijkljklmklmnlmnomnopnopq")),
        "84983e441c3bd26ebaae4aa1f95129e5e54670f1"
    );
}

#[test]
fn digests_hold_at_the_padding_boundaries() {
    let a = |n: usize| hex(&sha1(&vec![b'a'; n]));
    assert_eq!(a(1), "86f7e437faa5a7fce15d1ddcb9eaeaea377667b8");
    assert_eq!(a(55), "c1c8bbdc22796e28c0e15163d20899b65621d65a");
    assert_eq!(a(56), "c2db330f6083854c99d4b5bfb6e8f29f201be699");
    assert_eq!(a(63), "03f09f5b158a7a8cdad920bddc29b81c18a551f5");
    assert_eq!(a(64), "0098ba824b5c16427bd7a1122a5a442a25ec644d");
    assert_eq!(a(119), "ee971065aaa017e0632a8ca6c77bb3bf8b1dfc56");
    assert_eq!(a(120), "f34c1488385346a55709ba056ddd08280dd4c6d6");
    assert_eq!(a(1000), "291e9a6c66994949b57ba5e650361e98fc36b1ba");
}

#[test]
fn names_are_encoded_in_two_byte_units() {
    assert_eq!(encode_utf16le(""), Vec::<u8>::new());
    assert_eq!(encode_utf16le("A\u{20ac}"), vec![0x41, 0x00, 0xac, 0x20]);
    assert_eq!(encode_utf16le("\u{1f600}"), vec![0x3d, 0xd8, 0x00, 0xde]);
    let s = "net\u{e4}\u{ffff}\u{10000}\u{10ffff}";
    let mut expected = Vec::new();
    for unit in s.encode_utf16() {
        expected.extend_from_slice(&unit.to_le_bytes());
    }
    assert_eq!(encode_utf16le(s), expected);
}

#[test]
fn service_sids_are_of_the_uppercase_name() {
    assert_eq!(service_sid("App"), service_sid("app"));
    assert_eq!(service_sid_of_uppercase("APP"), service_sid("app"));
    assert_ne!(service_sid_of_uppercase("app"), service_sid("app"));
    assert_eq!(
        service_sid("stra\u{df}e"),
        "S-1-5-80-3559530425-67736298-3855857694-1371103170-2639996927"
    );
    assert_eq!(
        service_sid("\u{1f600}net"),
        "S-1-5-80-1392204155-1444595925-2344885701-3934075003-2071087168"
    );
    assert_eq!(
        service_sid(""),
        "S-1-5-80-4003674586-223046494-4022293810-2417516693-151509167"
    );
}

#[test]
fn service_sids_are_texts_of_binary_sids() {
    let mut binary = vec![1u8, 6, 0, 0, 0, 0, 0, 5, 80, 0, 0, 0];
    binary.extend_from_slice(&sha1(&encode_utf16le("APP")));
    assert_eq!(sid_text(&binary), Some(service_sid("app")));
}

#[test]
fn unreadable_definitions_are_left_out_of_the_table() {
    let table = service_table(&[key("app"), None, Some(b"bad\xff".to_vec())]);
    assert_eq!(table.len(), 2);
    assert_eq!(table[0], (service_sid("app"), "app".to_string()));
    assert_eq!(table[1], (service_sid("bad\u{fffd}"), "bad\u{fffd}".to_string()));
}

#[test]
fn services_are_read_when_needed_and_trusted_for_a_while() {
    let mut map = ServiceMap::new();
    let sid = service_sid("app");
    assert!(matches!(service_name(&map, "S-1-5-18", 5), ServiceAnswer::Known(None)));
    assert!(matches!(service_name(&map, "S-1-5-80", 5), ServiceAnswer::Known(None)));
    assert!(matches!(service_name(&map, &sid, 5), ServiceAnswer::ReadServices));
    map.refresh(Some(vec![key("resolvd"), key("app"), key("APP")]), 5);
    match service_name(&map, &sid, 5) {
        ServiceAnswer::Known(Some(name)) => assert_eq!(name, "app", "the first that derives to it"),
        _ => panic!("not found"),
    }
    assert!(matches!(service_name(&map, "S-1-5-80-1-2-3-4-5", 5), ServiceAnswer::Known(None)));
    assert!(matches!(service_name(&map, &sid, 5 + SERVICES_TTL), ServiceAnswer::Known(Some(_))));
    assert!(matches!(service_name(&map, &sid, 6 + SERVICES_TTL), ServiceAnswer::ReadServices));
    map.refresh(None, 9);
    assert!(matches!(service_name(&map, &sid, 9), ServiceAnswer::Known(None)));
    assert_eq!(SERVICES_TTL, 30_000_000_000);
}
