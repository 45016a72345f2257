use ytdlp_core::platform::{get_platform_asset_name, get_platform_specific_path, Platform};
use ytdlp_core::release::{
    get_download_url, latest_version_from_body, parse_release, version_from_tag, ReleaseAsset,
    ReleaseError, ReleaseInfo, VersionCache,
};

fn asset(name: &str) -> ReleaseAsset {
    ReleaseAsset { name: name.to_string(), download_url: format!("https://example.com/{}", name) }
}

fn release(names: &[&str]) -> ReleaseInfo {
    ReleaseInfo { tag_name: "2024.01.01".to_string(), assets: names.iter().map(|n| asset(n)).collect() }
}

#[test]
fn exact_name_beats_signature() {
    let r = release(&["tool-windows.exe", "tool-windows.exe.sig"]);
    assert_eq!(
        get_download_url(&r, "tool-windows.exe", Platform::Windows),
        Ok("https://example.com/tool-windows.exe".to_string())
    );
}

#[test]
fn exact_match_wins_over_earlier_partial_match() {
    let r = release(&["yt-dlp_linux.zip", "yt-dlp_linux"]);
    assert_eq!(
        get_download_url(&r, "yt-dlp_linux", Platform::LinuxX64),
        Ok("https://example.com/yt-dlp_linux".to_string())
    );
}

#[test]
fn partial_match_skips_signatures() {
    let r = release(&["yt-dlp_macos.sig", "yt-dlp_macos_legacy"]);
    assert_eq!(
        get_download_url(&r, "yt-dlp_macos", Platform::MacOs),
        Ok("https://example.com/yt-dlp_macos_legacy".to_string())
    );
}

#[test]
fn platform_rule_matches_lowercased_tokens() {
    let r = release(&["yt-dlp_LINUX.tar.gz", "yt-dlp_LINUX_aarch64.sig", "yt-dlp_Linux_ARM"]);
    assert_eq!(
        get_download_url(&r, "yt-dlp_linux_arm64", Platform::LinuxArm64),
        Ok("https://example.com/yt-dlp_Linux_ARM".to_string())
    );
}

#[test]
fn platform_rule_wants_exe_only_on_windows() {
    let r = release(&["yt-dlp_linux_x86.exe"]);
    assert!(matches!(
        get_download_url(&r, "yt-dlp_linux_amd64", Platform::LinuxX64),
        Err(ReleaseError::AssetNotFound(_))
    ));
}

#[test]
fn no_asset_is_asset_not_found() {
    let r = release(&[]);
    assert!(matches!(
        get_download_url(&r, "yt-dlp.exe", Platform::Windows),
        Err(ReleaseError::AssetNotFound(_))
    ));
}

#[test]
fn malformed_feed_is_parse_error() {
    assert!(matches!(parse_release("{not json"), Err(ReleaseError::Parse(_))));
    assert!(matches!(latest_version_from_body(""), Err(ReleaseError::Parse(_))));
    assert!(matches!(parse_release("{\"assets\": []}"), Err(ReleaseError::Parse(_))));
    assert!(matches!(parse_release("{\"tag_name\": \"v1\"}"), Err(ReleaseError::Parse(_))));
    assert!(matches!(parse_release("{\"tag_name\": 7, \"assets\": []}"), Err(ReleaseError::Parse(_))));
    assert!(matches!(
        parse_release("{\"tag_name\": \"v1\", \"assets\": [{\"name\": \"a\"}]}"),
        Err(ReleaseError::Parse(_))
    ));
    assert!(matches!(latest_version_from_body("[1, 2]"), Err(ReleaseError::Parse(_))));
}

#[test]
fn feed_is_read() {
    let body = "{\"tag_name\": \"v2024.05.27\", \"assets\": [{\"name\": \"yt-dlp_macos\", \"browser_download_url\": \"https://x/y\"}]}";
    let r = parse_release(body).unwrap();
    assert_eq!(r.tag_name, "v2024.05.27");
    assert_eq!(r.assets.len(), 1);
    assert_eq!(r.assets[0].name, "yt-dlp_macos");
    assert_eq!(r.assets[0].download_url, "https://x/y");
    assert_eq!(latest_version_from_body(body), Ok("2024.05.27".to_string()));
}

#[test]
fn tag_loses_leading_vs() {
    assert_eq!(version_from_tag("v2024.01.01"), "2024.01.01");
    assert_eq!(version_from_tag("vv2024.01.01"), "v2024.01.01");
    assert_eq!(version_from_tag("2024.01.01"), "2024.01.01");
    assert_eq!(version_from_tag(""), "");
}

#[test]
fn cache_holds_for_an_hour() {
    let mut c = VersionCache::new();
    assert_eq!(c.lookup(100), None);
    c.store("2024.01.01".to_string(), 1000);
    assert_eq!(c.lookup(1000), Some("2024.01.01".to_string()));
    assert_eq!(c.lookup(4599), Some("2024.01.01".to_string()));
    assert_eq!(c.lookup(4600), None);
    assert_eq!(c.lookup(999), None);
    c.store("2024.02.01".to_string(), 5000);
    assert_eq!(c.lookup(5000), Some("2024.02.01".to_string()));
}

#[test]
fn platform_file_names() {
    assert_eq!(get_platform_asset_name(Platform::Windows), "yt-dlp.exe");
    assert_eq!(get_platform_asset_name(Platform::MacOs), "yt-dlp_macos");
    assert_eq!(get_platform_asset_name(Platform::LinuxX64), "yt-dlp_linux");
    assert_eq!(get_platform_asset_name(Platform::LinuxArm64), "yt-dlp_linux_arm64");
    assert_eq!(Platform::from_os_arch("linux", "aarch64"), Platform::LinuxArm64);
    assert_eq!(Platform::from_os_arch("freebsd", "x86_64"), Platform::LinuxX64);
    assert_eq!(Platform::from_os_arch("macos", "aarch64"), Platform::MacOs);
    assert_eq!(Platform::from_os_arch("windows", "x86_64"), Platform::Windows);
}

#[test]
fn platform_paths_join() {
    assert_eq!(get_platform_specific_path("/opt/app/resources", Platform::LinuxX64), "/opt/app/resources/yt-dlp_linux");
    assert_eq!(get_platform_specific_path("res/", Platform::MacOs), "res/yt-dlp_macos");
    assert_eq!(get_platform_specific_path("", Platform::Windows), "yt-dlp.exe");
}
