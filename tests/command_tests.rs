use ytdlp_core::commands::{build_download_args, format_selector, parse_video_info};
use ytdlp_core::config::{check_download_location, get_download_path, AppConfig};

const BEST: &str = "bestvideo[ext=mp4][vcodec^=avc1]+bestaudio[ext=mp4][acodec^=mp4a]/bestvideo[ext=mp4]+bestaudio[ext=mp4]/best[ext=mp4]";

#[test]
fn selectors() {
    assert_eq!(format_selector(&None), BEST);
    assert_eq!(format_selector(&Some("best".to_string())), BEST);
    assert!(format_selector(&Some("worst".to_string())).starts_with("worstvideo[ext=mp4]"));
    assert_eq!(format_selector(&Some("137".to_string())), "137+bestaudio[ext=mp4]/best[ext=mp4]");
}

#[test]
fn download_arguments() {
    let a = build_download_args("https://v/1", &Some("22".to_string()), "/home/u/Downloads");
    assert_eq!(
        a,
        vec![
            "--output",
            "/home/u/Downloads/%(title)s.%(ext)s",
            "--newline",
            "--progress",
            "--no-warnings",
            "--merge-output-format",
            "mp4",
            "-f",
            "22+bestaudio[ext=mp4]/best[ext=mp4]",
            "https://v/1",
        ]
    );
}

#[test]
fn video_info_from_json() {
    let i = parse_video_info("{\"title\": \"T\", \"duration\": 61, \"uploader\": \"U\", \"view_count\": 5}").unwrap();
    assert_eq!(i.title, "T");
    assert_eq!(i.duration, Some(61));
    assert_eq!(i.uploader, Some("U".to_string()));
    assert_eq!(i.view_count, Some(5));
    let i = parse_video_info("{}").unwrap();
    assert_eq!(i.title, "Unknown Title");
    assert_eq!(i.duration, None);
    assert!(parse_video_info("nope").is_err());
}

#[test]
fn download_path_choice() {
    let c = AppConfig { download_location: Some("/data".to_string()) };
    assert_eq!(get_download_path(&c, true, Some("/home/u/Downloads".to_string())), Ok("/data".to_string()));
    assert_eq!(get_download_path(&c, false, Some("/home/u/Downloads".to_string())), Ok("/home/u/Downloads".to_string()));
    assert!(get_download_path(&AppConfig::default(), true, None).is_err());
}

#[test]
fn download_location_checks() {
    assert_eq!(check_download_location(false, false), Err("Path does not exist".to_string()));
    assert_eq!(check_download_location(true, false), Err("Path is not a directory".to_string()));
    assert_eq!(check_download_location(true, true), Ok(()));
}
