use feedcore::ids::{fletcher16, time_bucket, EntryId};

#[test]
fn fletcher16_of_empty_is_zero() {
    assert_eq!(fletcher16(&[]), 0);
}

#[test]
fn fletcher16_known_values() {
    assert_eq!(fletcher16(b"abcde"), 0xC8F0);
    assert_eq!(fletcher16(b"a"), 0x6161);
    assert_eq!(fletcher16(b"b"), 0x6262);
}

#[test]
fn fletcher16_differs_on_different_input() {
    assert_ne!(fletcher16(b"abcde"), fletcher16(b"abcdf"));
}

#[test]
fn time_bucket_divides_by_thousand() {
    assert_eq!(time_bucket(1672531200), 1672531);
    assert_eq!(time_bucket(0), 0);
    assert_eq!(time_bucket(999), 0);
    assert_eq!(time_bucket(1000), 1);
}

#[test]
fn time_bucket_truncates_toward_zero_for_negative_times() {
    assert_eq!(time_bucket(-1), 0);
    assert_eq!(time_bucket(-999), 0);
    assert_eq!(time_bucket(-1000), 0xFFFF_FFFF);
    assert_eq!(time_bucket(-1500), 0xFFFF_FFFF);
}

#[test]
fn entry_id_packs_bucket_and_checksum() {
    let id = EntryId::from_ident_and_date("a", 1672531200);
    assert_eq!(id.0, 0x0019_8553_6161_0000);
    let epoch = EntryId::from_ident_and_date("x", 0);
    assert_eq!(epoch.0, 0x7878_0000);
}

#[test]
fn entry_id_is_deterministic() {
    let a = EntryId::from_ident_and_date("https://example.org/post/1", 1672531200);
    let b = EntryId::from_ident_and_date("https://example.org/post/1", 1672531200);
    assert_eq!(a, b);
}

#[test]
fn entry_id_orders_chronologically() {
    // later publish bucket gives the larger id, whatever the identities are
    let early = EntryId::from_ident_and_date("zzz", 1672531200);
    let late = EntryId::from_ident_and_date("aaa", 1685577600);
    assert!(early.0 < late.0);
}

#[test]
fn parse_u64_reads_decimal_digits() {
    assert_eq!(feedcore::ids::parse_u64("0"), Some(0));
    assert_eq!(feedcore::ids::parse_u64("42"), Some(42));
    assert_eq!(feedcore::ids::parse_u64("007"), Some(7));
    assert_eq!(feedcore::ids::parse_u64("18446744073709551615"), Some(u64::MAX));
}

#[test]
fn parse_u64_rejects_everything_else() {
    assert_eq!(feedcore::ids::parse_u64(""), None);
    assert_eq!(feedcore::ids::parse_u64("12a"), None);
    assert_eq!(feedcore::ids::parse_u64("-3"), None);
    assert_eq!(feedcore::ids::parse_u64(" 3"), None);
    assert_eq!(feedcore::ids::parse_u64("18446744073709551616"), None);
}

#[test]
fn id_from_str_reads_decimal_text() {
    assert_eq!(feedcore::ids::FeedId::from_str("19"), Some(feedcore::ids::FeedId(19)));
    assert_eq!(feedcore::ids::FeedId::from_str("x"), None);
    assert_eq!(feedcore::ids::TaggingId::from_str("7"), Some(feedcore::ids::TaggingId(7)));
}
