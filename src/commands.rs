//! What the application's commands compute: the tool's command line for a
//! download, and the metadata read out of the tool's JSON answers.
use vstd::prelude::*;
use crate::json::{json_parses, json_top_str, json_top_u64, json_valid, opt_seq, top_str, top_u64};

verus! {

/// Metadata of a video, as the tool reports it.
#[derive(Clone, Debug)]
pub struct VideoInfo {
    pub title: String,
    pub duration: Option<u64>,
    pub uploader: Option<String>,
    pub view_count: Option<u64>,
}

/// One downloadable format of a video.
#[derive(Clone, Debug)]
pub struct VideoFormat {
    pub format_id: String,
    pub resolution: String,
    pub ext: String,
    pub filesize: Option<u64>,
    pub quality_label: String,
}

/// The tool's version and where the copy in use comes from (`"system"` or
/// `"bundled"`).
#[derive(Clone, Debug)]
pub struct YtdlpVersionInfo {
    pub version: String,
    pub source: String,
}

pub open spec fn best_selector() -> Seq<char> {
    "bestvideo[ext=mp4][vcodec^=avc1]+bestaudio[ext=mp4][acodec^=mp4a]/bestvideo[ext=mp4]+bestaudio[ext=mp4]/best[ext=mp4]"@
}

pub open spec fn worst_selector() -> Seq<char> {
    "worstvideo[ext=mp4][vcodec^=avc1]+worstaudio[ext=mp4][acodec^=mp4a]/worstvideo[ext=mp4]+worstaudio[ext=mp4]/worst[ext=mp4]"@
}

pub open spec fn audio_fallback() -> Seq<char> {
    "+bestaudio[ext=mp4]/best[ext=mp4]"@
}

/// The format expression for a quality: the best or worst MP4 preset by
/// name, the best preset where none is given, else the given format paired
/// with the best MP4 audio.
pub open spec fn format_selector_spec(quality: Option<Seq<char>>) -> Seq<char> {
    match quality {
        None => best_selector(),
        Some(q) => if q == "best"@ {
            best_selector()
        } else if q == "worst"@ {
            worst_selector()
        } else {
            q + audio_fallback()
        },
    }
}

pub open spec fn output_template(dir: Seq<char>) -> Seq<char> {
    dir + "/%(title)s.%(ext)s"@
}

/// The arguments of a download, the URL last.
pub open spec fn download_args_spec(url: Seq<char>, quality: Option<Seq<char>>, dir: Seq<char>) -> Seq<Seq<char>> {
    seq![
        "--output"@,
        output_template(dir),
        "--newline"@,
        "--progress"@,
        "--no-warnings"@,
        "--merge-output-format"@,
        "mp4"@,
        "-f"@,
        format_selector_spec(quality),
        url,
    ]
}

pub open spec fn opt_view(q: Option<String>) -> Option<Seq<char>> {
    match q {
        Some(s) => Some(s@),
        None => None,
    }
}

fn is_literal(s: &str, lit: &str) -> (r: bool)
    ensures
        r == (s@ == lit@),
{
    let a = crate::text::chars_of(s);
    let b = crate::text::chars_of(lit);
    crate::text::seq_eq(a.as_slice(), b.as_slice())
}

pub fn format_selector(quality: &Option<String>) -> (r: String)
    ensures
        r@ == format_selector_spec(opt_view(*quality)),
{
    match quality {
        None => "bestvideo[ext=mp4][vcodec^=avc1]+bestaudio[ext=mp4][acodec^=mp4a]/bestvideo[ext=mp4]+bestaudio[ext=mp4]/best[ext=mp4]".to_string(),
        Some(q) => {
            if is_literal(q.as_str(), "best") {
                "bestvideo[ext=mp4][vcodec^=avc1]+bestaudio[ext=mp4][acodec^=mp4a]/bestvideo[ext=mp4]+bestaudio[ext=mp4]/best[ext=mp4]".to_string()
            } else if is_literal(q.as_str(), "worst") {
                "worstvideo[ext=mp4][vcodec^=avc1]+worstaudio[ext=mp4][acodec^=mp4a]/worstvideo[ext=mp4]+worstaudio[ext=mp4]/worst[ext=mp4]".to_string()
            } else {
                let mut s = q.clone();
                s.append("+bestaudio[ext=mp4]/best[ext=mp4]");
                s
            }
        },
    }
}

/// The command line of a download into `download_dir`.
pub fn build_download_args(url: &str, quality: &Option<String>, download_dir: &str) -> (r: Vec<String>)
    ensures
        r@.map_values(|s: String| s@) == download_args_spec(url@, opt_view(*quality), download_dir@),
{
    let mut template = download_dir.to_string();
    template.append("/%(title)s.%(ext)s");
    let mut r: Vec<String> = Vec::new();
    r.push("--output".to_string());
    r.push(template);
    r.push("--newline".to_string());
    r.push("--progress".to_string());
    r.push("--no-warnings".to_string());
    r.push("--merge-output-format".to_string());
    r.push("mp4".to_string());
    r.push("-f".to_string());
    r.push(format_selector(quality));
    r.push(url.to_string());
    assert(r@.map_values(|s: String| s@) =~= download_args_spec(
        url@,
        opt_view(*quality),
        download_dir@,
    ));
    r
}

/// Reads a video's metadata out of the tool's JSON dump: the title (with a
/// placeholder where there is none), duration, uploader and view count.
/// Text that is not JSON is an error.
pub fn parse_video_info(json: &str) -> (r: Result<VideoInfo, String>)
    ensures
        r is Ok == json_parses(json@),
        r matches Ok(info) ==> {
            &&& info.title@ == match json_top_str(json@, "title"@) {
                Some(t) => t,
                None => "Unknown Title"@,
            }
            &&& info.duration == json_top_u64(json@, "duration"@)
            &&& opt_seq(info.uploader) == json_top_str(json@, "uploader"@)
            &&& info.view_count == json_top_u64(json@, "view_count"@)
        },
{
    if !json_valid(json) {
        return Err("Failed to parse JSON".to_string());
    }
    let title = match top_str(json, "title") {
        Some(t) => t,
        None => "Unknown Title".to_string(),
    };
    Ok(
        VideoInfo {
            title,
            duration: top_u64(json, "duration"),
            uploader: top_str(json, "uploader"),
            view_count: top_u64(json, "view_count"),
        },
    )
}

} // verus!
