use ytdlp_core::version::{compare_ytdlp_versions, parse_version, VersionId};

#[test]
fn same_stable_date_is_current() {
    assert_eq!(compare_ytdlp_versions("2024.01.01", "2024.01.01"), Ok(true));
}

#[test]
fn later_month_is_newer() {
    assert_eq!(compare_ytdlp_versions("2024.02.01", "2024.01.01"), Ok(true));
}

#[test]
fn earlier_year_is_outdated() {
    assert_eq!(compare_ytdlp_versions("2023.12.31", "2024.01.01"), Ok(false));
}

#[test]
fn nightly_beats_stable_of_same_date() {
    assert_eq!(compare_ytdlp_versions("nightly@2024.01.01.120000", "2024.01.01"), Ok(true));
    assert_eq!(compare_ytdlp_versions("2024.01.01", "nightly@2024.01.01.000000"), Ok(false));
}

#[test]
fn nightlies_of_same_date_go_by_time() {
    assert_eq!(
        compare_ytdlp_versions("nightly@2024.01.01.120000", "nightly@2024.01.01.130000"),
        Ok(false)
    );
    assert_eq!(
        compare_ytdlp_versions("nightly@2024.01.01.130000", "nightly@2024.01.01.130000"),
        Ok(true)
    );
    assert_eq!(compare_ytdlp_versions("nightly@2024.01.01", "nightly@2024.01.01.000001"), Ok(false));
}

#[test]
fn non_numeric_year_is_invalid() {
    assert!(compare_ytdlp_versions("abc.01.01", "2024.01.01").is_err());
    assert!(compare_ytdlp_versions("2024.01.01", "abc.01.01").is_err());
}

#[test]
fn missing_day_is_invalid() {
    assert!(compare_ytdlp_versions("2024.01", "2024.01.01").is_err());
    assert!(compare_ytdlp_versions("", "2024.01.01").is_err());
}

#[test]
fn malformed_month_is_invalid_even_when_years_differ() {
    assert!(compare_ytdlp_versions("2025.x.01", "2024.01.01").is_err());
}

#[test]
fn component_beyond_u32_is_invalid() {
    assert!(compare_ytdlp_versions("4294967296.01.01", "2024.01.01").is_err());
    assert_eq!(compare_ytdlp_versions("4294967295.01.01", "2024.01.01"), Ok(true));
}

#[test]
fn parse_version_reads_components() {
    assert_eq!(
        parse_version("nightly@2024.03.07.235959"),
        Some(VersionId { nightly: true, year: 2024, month: 3, day: 7, time: 235959 })
    );
    assert_eq!(
        parse_version("+2024.3.7"),
        Some(VersionId { nightly: false, year: 2024, month: 3, day: 7, time: 0 })
    );
    assert_eq!(parse_version("2024..07"), None);
}
