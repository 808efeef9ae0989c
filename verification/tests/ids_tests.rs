use vote_service::ids::LocationId;

#[test]
fn parse_canonical_form() {
    let id = LocationId::parse("11111111-1111-1111-1111-111111111111".as_bytes()).unwrap();
    assert_eq!(id.value, 0x11111111_1111_1111_1111_111111111111u128);
    let zero = LocationId::parse("00000000-0000-0000-0000-000000000000".as_bytes()).unwrap();
    assert_eq!(zero.value, 0);
    let max = LocationId::parse("ffffffff-ffff-ffff-ffff-ffffffffffff".as_bytes()).unwrap();
    assert_eq!(max.value, u128::MAX);
}

#[test]
fn parse_accepts_both_digit_cases() {
    let lower = LocationId::parse("67e55044-10b1-426f-9247-bb680e5fe0c8".as_bytes()).unwrap();
    let upper = LocationId::parse("67E55044-10B1-426F-9247-BB680E5FE0C8".as_bytes()).unwrap();
    assert_eq!(lower, upper);
}

#[test]
fn parse_rejects_malformed_text() {
    assert!(LocationId::parse("".as_bytes()).is_none());
    assert!(LocationId::parse("11111111-1111-1111-1111-11111111111".as_bytes()).is_none());
    assert!(LocationId::parse("11111111-1111-1111-1111-1111111111111".as_bytes()).is_none());
    assert!(LocationId::parse("11111111111111111111111111111111umop".as_bytes()).is_none());
    assert!(LocationId::parse("11111111-1111-1111-1111-11111111111g".as_bytes()).is_none());
    assert!(LocationId::parse("11111111x1111-1111-1111-111111111111".as_bytes()).is_none());
}

#[test]
fn canonical_bytes_round_trips() {
    for v in [
        0u128,
        1,
        0x11111111_1111_1111_1111_111111111111,
        0x67e55044_10b1_426f_9247_bb680e5fe0c8,
        u128::MAX,
    ] {
        let id = LocationId { value: v };
        let text = id.canonical_bytes();
        assert_eq!(text.len(), 36);
        let back = LocationId::parse(&text).expect("canonical output parses");
        assert_eq!(back, id);
    }
}

#[test]
fn agrees_with_the_uuid_crate() {
    for s in [
        "11111111-1111-1111-1111-111111111111",
        "67e55044-10b1-426f-9247-bb680e5fe0c8",
        "00000000-0000-0000-0000-000000000000",
        "a1a2a3a4-b1b2-c1c2-d1d2-d3d4d5d6d7d8",
    ] {
        let mine = LocationId::parse(s.as_bytes()).unwrap();
        let theirs = uuid::Uuid::parse_str(s).unwrap();
        assert_eq!(mine.value, theirs.as_u128());
        let formatted = String::from_utf8(mine.canonical_bytes()).unwrap();
        assert_eq!(formatted, theirs.hyphenated().to_string());
    }
}
