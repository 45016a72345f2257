use ytdlp_core::formats::{decimal_string, get_video_formats, list_formats, resolution_number, FormatEntry};

fn entry(id: &str, ext: &str, vcodec: &str, res: Option<&str>, size: Option<u64>) -> FormatEntry {
    FormatEntry {
        format_id: Some(id.to_string()),
        ext: Some(ext.to_string()),
        vcodec: Some(vcodec.to_string()),
        resolution: res.map(|r| r.to_string()),
        width: None,
        height: None,
        filesize: size,
        filesize_approx: None,
        fps: None,
    }
}

#[test]
fn formats_are_filtered_deduplicated_and_sorted() {
    let entries = vec![
        entry("a", "mp4", "avc1", Some("640x360"), Some(10)),
        entry("b", "webm", "vp9", Some("1920x1080"), Some(99)),
        entry("c", "mp4", "none", Some("audio only"), Some(5)),
        entry("d", "mp4", "avc1", Some("1920x1080"), Some(50)),
        entry("e", "mp4", "avc1", Some("640x360"), Some(30)),
        entry("f", "mp4", "avc1", Some("1920x1080"), Some(50)),
    ];
    let out = list_formats(&entries);
    let ids: Vec<&str> = out.iter().map(|f| f.format_id.as_str()).collect();
    assert_eq!(ids, vec!["d", "e"]);
    assert_eq!(out[0].quality_label, "1920x1080 (MP4)");
    assert_eq!(out[1].filesize, Some(30));
}

#[test]
fn resolution_from_width_and_height_and_labels() {
    let mut e = entry("22", "mp4", "avc1", None, None);
    e.width = Some(1280);
    e.height = Some(720);
    e.fps = Some(30);
    e.filesize_approx = Some(7);
    let mut u = entry("18", "mp4", "avc1", None, None);
    u.width = Some(0);
    let out = list_formats(&vec![u, e]);
    assert_eq!(out.len(), 2);
    assert_eq!(out[0].resolution, "1280x720");
    assert_eq!(out[0].quality_label, "1280x720 (MP4) @ 30fps");
    assert_eq!(out[0].filesize, Some(7));
    assert_eq!(out[1].resolution, "unknown");
    assert_eq!(out[1].quality_label, "Format 18 (MP4)");
}

#[test]
fn formats_from_json() {
    let json = "{\"formats\": [{\"format_id\": \"137\", \"ext\": \"mp4\", \"vcodec\": \"avc1\", \"width\": 1920, \"height\": 1080, \"fps\": 29.97, \"filesize\": 100}, {\"format_id\": \"140\", \"ext\": \"m4a\", \"vcodec\": \"none\"}]}";
    let out = get_video_formats(json).unwrap();
    assert_eq!(out.len(), 1);
    assert_eq!(out[0].quality_label, "1920x1080 (MP4) @ 29fps");
    assert!(get_video_formats("[oops").is_err());
    let two = "{\"formats\": [{\"format_id\": \"a\", \"ext\": \"mp4\", \"resolution\": \"640x360\", \"filesize\": 1}, {\"format_id\": \"b\", \"ext\": \"mp4\", \"resolution\": \"1280x720\"}, {\"format_id\": \"c\", \"ext\": \"mp4\", \"resolution\": \"640x360\", \"filesize\": 9}]}";
    let out = get_video_formats(two).unwrap();
    let ids: Vec<&str> = out.iter().map(|f| f.format_id.as_str()).collect();
    assert_eq!(ids, vec!["b", "c"]);
    assert_eq!(get_video_formats("{}").unwrap().len(), 0);
}

#[test]
fn numbers_and_keys() {
    assert_eq!(decimal_string(0), "0");
    assert_eq!(decimal_string(1080), "1080");
    assert_eq!(decimal_string(u64::MAX), "18446744073709551615");
    assert_eq!(resolution_number("1920x1080"), 1920);
    assert_eq!(resolution_number("audio only"), 0);
    assert_eq!(resolution_number(""), 0);
}
