use jesse_rust::source::{chandelier_direction, t3_source, vwap_source, wt_source, Direction, SourceType};

#[test]
fn vwap_source_folds_case_and_defaults_to_hlc3() {
    assert_eq!(vwap_source("OPEN"), SourceType::Open);
    assert_eq!(vwap_source("Hl2"), SourceType::Hl2);
    assert_eq!(vwap_source("ohlc4"), SourceType::Ohlc4);
    assert_eq!(vwap_source("median"), SourceType::Hlc3);
    assert_eq!(vwap_source(""), SourceType::Hlc3);
}

#[test]
fn t3_source_folds_case_and_defaults_to_close() {
    assert_eq!(t3_source("High"), SourceType::High);
    assert_eq!(t3_source("LOW"), SourceType::Low);
    assert_eq!(t3_source("hlc3"), SourceType::Hlc3);
    assert_eq!(t3_source("volume"), SourceType::Close);
}

#[test]
fn wt_source_is_exact_and_knows_no_hl2() {
    assert_eq!(wt_source("open"), SourceType::Open);
    assert_eq!(wt_source("OPEN"), SourceType::Close);
    assert_eq!(wt_source("hl2"), SourceType::Close);
    assert_eq!(wt_source("ohlc4"), SourceType::Ohlc4);
}

#[test]
fn chandelier_direction_by_name() {
    assert_eq!(chandelier_direction("long"), Some(Direction::Long));
    assert_eq!(chandelier_direction("short"), Some(Direction::Short));
    assert_eq!(chandelier_direction("Long"), None);
    assert_eq!(chandelier_direction("longer"), None);
}
