use ftl::token::Kind;

#[test]
fn macros_simple_match_passes() {
    assert!(matches!(1, 1));
}

#[test]
fn macros_match_on_enums() {
    let opt: Option<u8> = None;
    assert!(matches!(opt, None));
}

#[test]
fn match_multiple_patterns() {
    let opt: Option<u8> = None;
    assert!(matches!(opt, Some(1) | None));
}

#[test]
fn token_kinds_compare_by_variant() {
    assert!(matches!(Kind::Colon, Kind::Colon | Kind::At));
    assert_ne!(Kind::Colon, Kind::At);
}
