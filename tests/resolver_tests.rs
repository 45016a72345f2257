use ytdlp_core::platform::Platform;
use ytdlp_core::resolver::{
    bundled_binary_candidates, bundled_dir_candidates, check_system_ytdlp_version, choose_binary,
    first_existing, get_ytdlp_source, BinaryCell, BinaryOrigin, ResolvedBinary,
};

#[test]
fn discovery_runs_once() {
    let mut cell = BinaryCell::new();
    let mut calls = 0u32;
    let first = cell.get_or_init(|| {
        calls += 1;
        Ok(ResolvedBinary { path: "/usr/bin/yt-dlp".to_string(), origin: BinaryOrigin::System })
    });
    let second = cell.get_or_init(|| {
        calls += 1;
        Err("should not run".to_string())
    });
    assert_eq!(calls, 1);
    let a = first.unwrap();
    let b = second.unwrap();
    assert_eq!(a.path, b.path);
    assert_eq!(a.origin, b.origin);
}

#[test]
fn failure_is_remembered_too() {
    let mut cell = BinaryCell::new();
    assert!(cell.lookup().is_none());
    let r = cell.fill(Err("not found".to_string()));
    assert_eq!(r.unwrap_err(), "not found");
    let again = cell.fill(Ok(ResolvedBinary { path: "x".to_string(), origin: BinaryOrigin::Bundled }));
    assert_eq!(again.unwrap_err(), "not found");
    assert_eq!(cell.lookup().unwrap().unwrap_err(), "not found");
}

#[test]
fn system_copy_used_only_when_current() {
    let r = choose_binary(Some("/usr/bin/yt-dlp".to_string()), Some(true), Some("/b".to_string())).unwrap();
    assert_eq!(r.origin, BinaryOrigin::System);
    let r = choose_binary(Some("/usr/bin/yt-dlp".to_string()), Some(false), Some("/b".to_string())).unwrap();
    assert_eq!((r.path.as_str(), r.origin), ("/b", BinaryOrigin::Bundled));
    let r = choose_binary(Some("/usr/bin/yt-dlp".to_string()), None, Some("/b".to_string())).unwrap();
    assert_eq!(r.origin, BinaryOrigin::Bundled);
    assert!(choose_binary(None, None, None).is_err());
    assert!(choose_binary(Some("/usr/bin/yt-dlp".to_string()), Some(false), None).is_err());
}

#[test]
fn system_version_check_trims_output() {
    assert_eq!(check_system_ytdlp_version("2024.05.27\n", "2024.05.27"), Ok(true));
    assert_eq!(check_system_ytdlp_version("  2023.01.01 \n", "2024.05.27"), Ok(false));
    assert!(check_system_ytdlp_version("garbage\n", "2024.05.27").is_err());
    assert_eq!(check_system_ytdlp_version("\u{a0}\t2024.05.27\u{3000}\r\n", "2024.05.27"), Ok(true));
}

#[test]
fn first_existing_candidate() {
    assert_eq!(first_existing(&vec![false, true, true]), Some(1));
    assert_eq!(first_existing(&vec![false, false]), None);
    assert_eq!(first_existing(&vec![]), None);
}

#[test]
fn binary_candidates_by_platform() {
    assert_eq!(
        bundled_binary_candidates("/opt/app", Platform::LinuxX64),
        vec![
            "/opt/app/resources/yt-dlp_linux".to_string(),
            "/opt/app/../resources/yt-dlp_linux".to_string(),
            "/opt/app/../../resources/yt-dlp_linux".to_string(),
            "src-tauri/resources/yt-dlp_linux".to_string(),
        ]
    );
    assert_eq!(
        bundled_binary_candidates("/A.app/Contents/MacOS", Platform::MacOs),
        vec![
            "/A.app/Contents/MacOS/../Resources/resources/yt-dlp_macos".to_string(),
            "/A.app/Contents/MacOS/../../resources/yt-dlp_macos".to_string(),
            "src-tauri/resources/yt-dlp_macos".to_string(),
        ]
    );
}

#[test]
fn resource_dirs_prefer_the_bundle_on_macos() {
    let d = bundled_dir_candidates("/A.app/Contents/MacOS", Platform::MacOs);
    assert_eq!(d[0], "/A.app/Contents/MacOS/../Resources/resources");
    assert_eq!(d[1], "/A.app/Contents/MacOS/../../Resources/resources");
    assert_eq!(d.len(), 7);
    let d = bundled_dir_candidates("/opt/app", Platform::Windows);
    assert_eq!(d.len(), 5);
    assert_eq!(d[1], "/opt/app/resources");
    assert_eq!(d[4], "src-tauri/resources");
}

#[test]
fn source_of_the_copy_in_use() {
    let p = Some("/usr/bin/yt-dlp".to_string());
    assert_eq!(get_ytdlp_source(p.clone(), "/usr/bin/yt-dlp", None, None), "system");
    assert_eq!(get_ytdlp_source(p.clone(), "/opt/yt-dlp_linux", None, None), "bundled");
    assert_eq!(
        get_ytdlp_source(p, "/usr/local/bin/yt-dlp", Some("/x".to_string()), Some("/x".to_string())),
        "system"
    );
    assert_eq!(get_ytdlp_source(None, "/usr/bin/yt-dlp", None, None), "bundled");
}
