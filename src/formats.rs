//! The list of formats offered for a video: MP4 formats with video, one per
//! resolution (the largest file of each), highest resolution first.
use vstd::prelude::*;
use vstd::seq_lib::{to_multiset_build, to_multiset_insert};
use crate::commands::VideoFormat;
use crate::json::{
    array_len, item_str, item_u64, item_whole_u32, json_array_len, json_item_str, json_item_u64,
    json_item_whole_u32, json_parses, json_valid, opt_seq,
};
use crate::text::{chars_of, parse_u32, parse_u32_spec, seq_eq, split_chars, split_on};

verus! {

/// The fields of one format of the tool's JSON answer that the listing reads.
#[derive(Clone, Debug)]
pub struct FormatEntry {
    pub format_id: Option<String>,
    pub ext: Option<String>,
    pub vcodec: Option<String>,
    pub resolution: Option<String>,
    pub width: Option<u64>,
    pub height: Option<u64>,
    pub filesize: Option<u64>,
    pub filesize_approx: Option<u64>,
    /// Frames per second, cut to a whole number.
    pub fps: Option<u32>,
}

/// What a format entry holds, as plain values.
pub struct FormatFields {
    pub format_id: Option<Seq<char>>,
    pub ext: Option<Seq<char>>,
    pub vcodec: Option<Seq<char>>,
    pub resolution: Option<Seq<char>>,
    pub width: Option<u64>,
    pub height: Option<u64>,
    pub filesize: Option<u64>,
    pub filesize_approx: Option<u64>,
    pub fps: Option<u32>,
}

pub open spec fn fields_of(e: FormatEntry) -> FormatFields {
    FormatFields {
        format_id: opt_seq(e.format_id),
        ext: opt_seq(e.ext),
        vcodec: opt_seq(e.vcodec),
        resolution: opt_seq(e.resolution),
        width: e.width,
        height: e.height,
        filesize: e.filesize,
        filesize_approx: e.filesize_approx,
        fps: e.fps,
    }
}

pub open spec fn entry_views(e: Seq<FormatEntry>) -> Seq<FormatFields> {
    e.map_values(|x: FormatEntry| fields_of(x))
}

/// The entries of the `formats` array of the tool's JSON answer; none where
/// there is no such array.
pub open spec fn format_entries_of(t: Seq<char>) -> Seq<FormatFields> {
    let n = match json_array_len(t, "formats"@) {
        Some(n) => n,
        None => 0,
    };
    Seq::new(
        n,
        |i: int|
            FormatFields {
                format_id: json_item_str(t, "formats"@, i, "format_id"@),
                ext: json_item_str(t, "formats"@, i, "ext"@),
                vcodec: json_item_str(t, "formats"@, i, "vcodec"@),
                resolution: json_item_str(t, "formats"@, i, "resolution"@),
                width: json_item_u64(t, "formats"@, i, "width"@),
                height: json_item_u64(t, "formats"@, i, "height"@),
                filesize: json_item_u64(t, "formats"@, i, "filesize"@),
                filesize_approx: json_item_u64(t, "formats"@, i, "filesize_approx"@),
                fps: json_item_whole_u32(t, "formats"@, i, "fps"@),
            },
    )
}

/// A listed format: id, resolution, extension, size and label.
pub type FormatModel = (Seq<char>, Seq<char>, Seq<char>, Option<u64>, Seq<char>);

pub open spec fn view_of(f: VideoFormat) -> FormatModel {
    (f.format_id@, f.resolution@, f.ext@, f.filesize, f.quality_label@)
}

pub open spec fn digits_text() -> Seq<char> {
    "0123456789"@
}

/// The decimal notation of a number.
pub open spec fn decimal_text(n: nat) -> Seq<char>
    decreases n,
{
    if n < 10 {
        digits_text().subrange(n as int, n as int + 1)
    } else {
        decimal_text(n / 10) + digits_text().subrange((n % 10) as int, (n % 10) as int + 1)
    }
}

pub open spec fn is_text(o: Option<Seq<char>>, lit: Seq<char>) -> bool {
    o == Some(lit)
}

pub open spec fn or_unknown(o: Option<Seq<char>>) -> Seq<char> {
    match o {
        Some(s) => s,
        None => "unknown"@,
    }
}

/// A format is listed when it has video and is MP4.
pub open spec fn listed(e: FormatFields) -> bool {
    !is_text(e.vcodec, "none"@) && is_text(e.ext, "mp4"@)
}

/// The resolution as given, else width by height where both are known.
pub open spec fn resolution_of(e: FormatFields) -> Seq<char> {
    match e.resolution {
        Some(r) => r,
        None => {
            let w = match e.width {
                Some(w) => w,
                None => 0,
            };
            let h = match e.height {
                Some(h) => h,
                None => 0,
            };
            if w > 0 && h > 0 {
                decimal_text(w as nat) + "x"@ + decimal_text(h as nat)
            } else {
                "unknown"@
            }
        },
    }
}

pub open spec fn size_of(e: FormatFields) -> Option<u64> {
    match e.filesize {
        Some(s) => Some(s),
        None => e.filesize_approx,
    }
}

pub open spec fn fps_text(f: Option<u32>) -> Seq<char> {
    match f {
        Some(v) => " @ "@ + decimal_text(v as nat) + "fps"@,
        None => Seq::<char>::empty(),
    }
}

/// The label shown for a format.
pub open spec fn label_of(e: FormatFields) -> Seq<char> {
    if resolution_of(e) != "unknown"@ {
        resolution_of(e) + " (MP4)"@ + fps_text(e.fps)
    } else {
        "Format "@ + or_unknown(e.format_id) + " (MP4)"@
    }
}

pub open spec fn model_of(e: FormatFields) -> FormatModel {
    (or_unknown(e.format_id), resolution_of(e), "mp4"@, size_of(e), label_of(e))
}

/// The listed formats, in the order of the answer.
pub open spec fn candidates(entries: Seq<FormatFields>) -> Seq<FormatModel>
    decreases entries.len(),
{
    if entries.len() == 0 {
        Seq::<FormatModel>::empty()
    } else {
        let c = candidates(entries.drop_last());
        if listed(entries.last()) {
            c.push(model_of(entries.last()))
        } else {
            c
        }
    }
}

pub open spec fn size_or_zero(m: FormatModel) -> u64 {
    match m.3 {
        Some(s) => s,
        None => 0,
    }
}

/// The first position of a format of resolution `r`.
pub open spec fn index_of_resolution(d: Seq<FormatModel>, r: Seq<char>, n: int) -> Option<int>
    decreases n,
{
    if n <= 0 {
        None
    } else {
        match index_of_resolution(d, r, n - 1) {
            Some(i) => Some(i),
            None => if d[n - 1].1 == r {
                Some(n - 1)
            } else {
                None
            },
        }
    }
}

/// One format per resolution, in the order resolutions first appear: the
/// first of the largest size.
pub open spec fn dedup(c: Seq<FormatModel>) -> Seq<FormatModel>
    decreases c.len(),
{
    if c.len() == 0 {
        Seq::<FormatModel>::empty()
    } else {
        let d = dedup(c.drop_last());
        let x = c.last();
        match index_of_resolution(d, x.1, d.len() as int) {
            Some(i) => if size_or_zero(x) > size_or_zero(d[i]) {
                d.update(i, x)
            } else {
                d
            },
            None => d.push(x),
        }
    }
}

/// The number a resolution starts with, before any `x`; 0 where there is none.
pub open spec fn resolution_key(r: Seq<char>) -> u32 {
    match parse_u32_spec(split_on(r, 'x')[0]) {
        Some(v) => v,
        None => 0,
    }
}

pub open spec fn sorted_by_key(s: Seq<FormatModel>) -> bool {
    forall|i: int, j: int| 0 <= i < j < s.len() ==> resolution_key(s[i].1) >= resolution_key(s[j].1)
}

/// No two formats share a resolution.
pub open spec fn distinct_resolutions(s: Seq<FormatModel>) -> bool {
    forall|a: int, b: int| 0 <= a < b < s.len() ==> s[a].1 != s[b].1
}

// ----- executable parts -----

fn digit_text(d: u64) -> (r: &'static str)
    requires
        d < 10,
    ensures
        r@ == digits_text().subrange(d as int, d + 1),
{
    proof {
        reveal_strlit("0123456789");
    }
    "0123456789".substring_char(d as usize, (d + 1) as usize)
}

/// The decimal notation of a number.
pub fn decimal_string(n: u64) -> (r: String)
    ensures
        r@ == decimal_text(n as nat),
    decreases n,
{
    if n < 10 {
        digit_text(n).to_string()
    } else {
        let mut s = decimal_string(n / 10);
        s.append(digit_text(n % 10));
        s
    }
}

fn text_is(o: &Option<String>, lit: &str) -> (r: bool)
    ensures
        r == is_text(opt_seq(*o), lit@),
{
    match o {
        Some(s) => {
            let a = chars_of(s.as_str());
            let b = chars_of(lit);
            seq_eq(a.as_slice(), b.as_slice())
        },
        None => false,
    }
}

fn text_or_unknown(o: &Option<String>) -> (r: String)
    ensures
        r@ == or_unknown(opt_seq(*o)),
{
    match o {
        Some(s) => s.clone(),
        None => "unknown".to_string(),
    }
}

fn entry_resolution(e: &FormatEntry) -> (r: String)
    ensures
        r@ == resolution_of(fields_of(*e)),
{
    match &e.resolution {
        Some(r) => r.clone(),
        None => {
            let w = match e.width {
                Some(w) => w,
                None => 0,
            };
            let h = match e.height {
                Some(h) => h,
                None => 0,
            };
            if w > 0 && h > 0 {
                let mut s = decimal_string(w);
                s.append("x");
                let hs = decimal_string(h);
                s.append(hs.as_str());
                s
            } else {
                "unknown".to_string()
            }
        },
    }
}

/// The listed format that an entry gives.
pub fn format_from_entry(e: &FormatEntry) -> (r: VideoFormat)
    ensures
        view_of(r) == model_of(fields_of(*e)),
{
    let format_id = text_or_unknown(&e.format_id);
    let resolution = entry_resolution(e);
    let filesize = match e.filesize {
        Some(s) => Some(s),
        None => e.filesize_approx,
    };
    let known = !text_is(&Some(resolution.clone()), "unknown");
    let quality_label = if known {
        let mut l = resolution.clone();
        l.append(" (MP4)");
        match e.fps {
            Some(v) => {
                l.append(" @ ");
                let vs = decimal_string(v as u64);
                l.append(vs.as_str());
                l.append("fps");
            },
            None => {},
        }
        l
    } else {
        let mut l = "Format ".to_string();
        l.append(format_id.as_str());
        l.append(" (MP4)");
        l
    };
    proof {
        if known {
            if let Some(v) = e.fps {
                assert(" @ "@ + decimal_text(v as nat) + "fps"@ =~= " @ "@ + decimal_text(v as nat)
                    + "fps"@);
            }
            assert(label_of(fields_of(*e)) =~= quality_label@);
        } else {
            assert(label_of(fields_of(*e)) =~= quality_label@);
        }
    }
    VideoFormat { format_id, resolution, ext: "mp4".to_string(), filesize, quality_label }
}

pub open spec fn views(v: Seq<VideoFormat>) -> Seq<FormatModel> {
    v.map_values(|f: VideoFormat| view_of(f))
}

proof fn lemma_index_stable(d: Seq<FormatModel>, r: Seq<char>, m: int, n: int)
    requires
        m <= n,
        index_of_resolution(d, r, m) is Some,
    ensures
        index_of_resolution(d, r, n) == index_of_resolution(d, r, m),
    decreases n - m,
{
    if m < n {
        lemma_index_stable(d, r, m, n - 1);
    }
}

proof fn lemma_index_range(d: Seq<FormatModel>, r: Seq<char>, n: int)
    ensures
        index_of_resolution(d, r, n) matches Some(i) ==> 0 <= i < n && d[i].1 == r,
    decreases n,
{
    if n > 0 {
        lemma_index_range(d, r, n - 1);
    }
}

fn find_resolution(d: &Vec<VideoFormat>, r: &String) -> (k: Option<usize>)
    ensures
        k matches Some(i) ==> index_of_resolution(views(d@), r@, d@.len() as int) == Some(i as int),
        k is None ==> index_of_resolution(views(d@), r@, d@.len() as int) is None,
{
    let rc = chars_of(r.as_str());
    let mut i: usize = 0;
    while i < d.len()
        invariant
            i <= d@.len(),
            rc@ == r@,
            index_of_resolution(views(d@), r@, i as int) is None,
        decreases d.len() - i,
    {
        let dc = chars_of(d[i].resolution.as_str());
        assert(views(d@)[i as int] == view_of(d@[i as int]));
        if seq_eq(dc.as_slice(), rc.as_slice()) {
            proof {
                lemma_index_stable(views(d@), r@, i + 1, d@.len() as int);
            }
            return Some(i);
        }
        i = i + 1;
    }
    None
}

/// One format per resolution, in the order resolutions first appear, keeping
/// for each the first format of the largest size.
pub fn dedup_formats(entries: &Vec<FormatEntry>) -> (r: Vec<VideoFormat>)
    ensures
        views(r@) == dedup(candidates(entry_views(entries@))),
{
    let mut d: Vec<VideoFormat> = Vec::new();
    let mut i: usize = 0;
    assert(entry_views(entries@.take(0)) =~= Seq::<FormatFields>::empty());
    assert(views(d@) =~= dedup(candidates(entry_views(entries@.take(0)))));
    while i < entries.len()
        invariant
            i <= entries@.len(),
            views(d@) == dedup(candidates(entry_views(entries@.take(i as int)))),
        decreases entries.len() - i,
    {
        let ghost pre = entry_views(entries@.take(i as int));
        let ghost next = entry_views(entries@.take(i + 1));
        assert(next.drop_last() =~= pre);
        assert(next.last() == fields_of(entries@[i as int]));
        let e = &entries[i];
        let listed_now = !text_is(&e.vcodec, "none") && text_is(&e.ext, "mp4");
        if listed_now {
            let f = format_from_entry(e);
            let ghost c = candidates(pre);
            assert(candidates(next) == c.push(model_of(fields_of(*e))));
            assert(c.push(model_of(fields_of(*e))).drop_last() =~= c);
            proof {
                lemma_index_range(views(d@), f.resolution@, d@.len() as int);
            }
            match find_resolution(&d, &f.resolution) {
                Some(k) => {
                    let new_size = match f.filesize {
                        Some(s) => s,
                        None => 0,
                    };
                    let old_size = match d[k].filesize {
                        Some(s) => s,
                        None => 0,
                    };
                    assert(views(d@)[k as int] == view_of(d@[k as int]));
                    if new_size > old_size {
                        let ghost before = d@;
                        d.set(k, f);
                        assert(views(d@) =~= views(before).update(k as int, model_of(fields_of(*e))));
                    }
                },
                None => {
                    let ghost before = d@;
                    d.push(f);
                    assert(views(d@) =~= views(before).push(model_of(fields_of(*e))));
                },
            }
        } else {
            assert(candidates(next) == candidates(pre));
        }
        i = i + 1;
    }
    assert(entries@.take(entries@.len() as int) =~= entries@);
    d
}

/// The number a resolution starts with, before any `x`; 0 where there is none.
pub fn resolution_number(r: &str) -> (k: u32)
    ensures
        k == resolution_key(r@),
{
    let cs = chars_of(r);
    let parts = split_chars(cs.as_slice(), 'x');
    proof {
        crate::text::lemma_split_nonempty(cs@, 'x');
    }
    assert(parts@.map_values(|v: Vec<char>| v@)[0] == parts@[0]@);
    match parse_u32(parts[0].as_slice()) {
        Some(v) => v,
        None => 0,
    }
}

fn duplicate_format(f: &VideoFormat) -> (r: VideoFormat)
    ensures
        r == *f,
{
    VideoFormat {
        format_id: f.format_id.clone(),
        resolution: f.resolution.clone(),
        ext: f.ext.clone(),
        filesize: f.filesize,
        quality_label: f.quality_label.clone(),
    }
}

pub open spec fn non_increasing(k: Seq<u32>) -> bool {
    forall|a: int, b: int| 0 <= a < b < k.len() ==> k[a] >= k[b]
}

proof fn lemma_insert_non_increasing(k: Seq<u32>, p: int, key: u32)
    requires
        non_increasing(k),
        0 <= p <= k.len(),
        forall|j: int| 0 <= j < p ==> k[j] >= key,
        p < k.len() ==> k[p] < key,
    ensures
        non_increasing(k.insert(p, key)),
{
    k.insert_ensures(p, key);
    let nk = k.insert(p, key);
    assert forall|a: int, b: int| 0 <= a < b < nk.len() implies nk[a] >= nk[b] by {
        if b < p {
        } else if b == p {
        } else {
            assert(nk[b] == k[b - 1]);
            if a < p {
            } else if a == p {
                assert(k[p] >= k[b - 1]);
            } else {
                assert(nk[a] == k[a - 1]);
            }
        }
    }
}

proof fn lemma_index_none(d: Seq<FormatModel>, r: Seq<char>, n: int)
    requires
        index_of_resolution(d, r, n) is None,
        n <= d.len(),
    ensures
        forall|k: int| 0 <= k < n ==> d[k].1 != r,
    decreases n,
{
    if n > 0 {
        lemma_index_none(d, r, n - 1);
    }
}

/// Deduplication leaves no two formats of one resolution.
pub proof fn lemma_dedup_distinct(c: Seq<FormatModel>)
    ensures
        distinct_resolutions(dedup(c)),
    decreases c.len(),
{
    if c.len() > 0 {
        lemma_dedup_distinct(c.drop_last());
        let d = dedup(c.drop_last());
        let x = c.last();
        lemma_index_range(d, x.1, d.len() as int);
        match index_of_resolution(d, x.1, d.len() as int) {
            Some(i) => {
                let u = d.update(i, x);
                assert forall|a: int, b: int| 0 <= a < b < u.len() implies u[a].1 != u[b].1 by {
                    assert(u[a].1 == d[a].1);
                    assert(u[b].1 == d[b].1);
                }
            },
            None => {
                lemma_index_none(d, x.1, d.len() as int);
                let u = d.push(x);
                assert forall|a: int, b: int| 0 <= a < b < u.len() implies u[a].1 != u[b].1 by {
                    if b == d.len() {
                        assert(u[a] == d[a]);
                    } else {
                        assert(u[a] == d[a]);
                        assert(u[b] == d[b]);
                    }
                }
            },
        }
    }
}

/// Sorts formats by the number their resolution starts with, highest first;
/// formats of equal number keep their order.
pub fn sort_formats(v: &Vec<VideoFormat>) -> (r: Vec<VideoFormat>)
    ensures
        sorted_by_key(views(r@)),
        views(r@).to_multiset() == views(v@).to_multiset(),
        distinct_resolutions(views(v@)) ==> distinct_resolutions(views(r@)),
{
    let ghost orig = views(v@);
    let mut out: Vec<VideoFormat> = Vec::new();
    let mut keys: Vec<u32> = Vec::new();
    let mut i: usize = 0;
    assert(orig.take(0) =~= Seq::<FormatModel>::empty());
    assert(views(out@) =~= Seq::<FormatModel>::empty());
    while i < v.len()
        invariant
            orig == views(v@),
            i <= v@.len(),
            out@.len() == i,
            keys@.len() == i,
            forall|j: int| 0 <= j < i ==> keys@[j] == resolution_key(#[trigger] out@[j].resolution@),
            non_increasing(keys@),
            views(out@).to_multiset() == orig.take(i as int).to_multiset(),
            forall|j: int| 0 <= j < i ==> orig.take(i as int).contains(#[trigger] views(out@)[j]),
            distinct_resolutions(orig) ==> distinct_resolutions(views(out@)),
        decreases v.len() - i,
    {
        let f = duplicate_format(&v[i]);
        let key = resolution_number(f.resolution.as_str());
        let mut p: usize = 0;
        while p < keys.len() && keys[p] >= key
            invariant
                p <= keys@.len(),
                forall|j: int| 0 <= j < p ==> keys@[j] >= key,
            decreases keys.len() - p,
        {
            p = p + 1;
        }
        let ghost out0 = out@;
        let ghost keys0 = keys@;
        let ghost x = view_of(f);
        let ghost vo0 = views(out0);
        out.insert(p, f);
        keys.insert(p, key);
        proof {
            lemma_insert_non_increasing(keys0, p as int, key);
            out0.insert_ensures(p as int, f);
            keys0.insert_ensures(p as int, key);
            vo0.insert_ensures(p as int, x);
            assert(orig[i as int] == x);
            let nv = views(out@);
            assert(nv =~= vo0.insert(p as int, x));
            to_multiset_insert(vo0, p as int, x);
            let t0 = orig.take(i as int);
            let t1 = orig.take(i + 1);
            assert(t1 =~= t0.push(x));
            to_multiset_build(t0, x);
            assert forall|j: int| 0 <= j < i + 1 implies keys@[j] == resolution_key(
                #[trigger] out@[j].resolution@,
            ) by {
                if j > p {
                    assert(out@[j] == out0[j - 1]);
                }
            }
            assert forall|j: int| 0 <= j < i + 1 implies t1.contains(#[trigger] nv[j]) by {
                if j == p {
                    assert(t1[i as int] == x);
                } else {
                    let j0 = if j < p {
                        j
                    } else {
                        j - 1
                    };
                    assert(nv[j] == vo0[j0]);
                    assert(t0.contains(vo0[j0]));
                    let k = choose|k: int| 0 <= k < t0.len() && t0[k] == vo0[j0];
                    assert(t1[k] == vo0[j0]);
                }
            }
            if distinct_resolutions(orig) {
                assert forall|a: int, b: int| 0 <= a < b < nv.len() implies nv[a].1 != nv[b].1 by {
                    if a != p && b != p {
                        let a0 = if a < p {
                            a
                        } else {
                            a - 1
                        };
                        let b0 = if b < p {
                            b
                        } else {
                            b - 1
                        };
                        assert(nv[a] == vo0[a0]);
                        assert(nv[b] == vo0[b0]);
                    } else {
                        let o = if a == p {
                            b
                        } else {
                            a
                        };
                        let o0 = if o < p {
                            o
                        } else {
                            o - 1
                        };
                        assert(nv[o] == vo0[o0]);
                        assert(t0.contains(vo0[o0]));
                        let k = choose|k: int| 0 <= k < t0.len() && t0[k] == vo0[o0];
                        assert(orig[k] == vo0[o0]);
                        assert(orig[k].1 != orig[i as int].1);
                    }
                }
            }
        }
        i = i + 1;
    }
    proof {
        assert(orig.take(orig.len() as int) =~= orig);
        let s = views(out@);
        assert forall|a: int, b: int| 0 <= a < b < s.len() implies resolution_key(s[a].1)
            >= resolution_key(s[b].1) by {
            assert(keys@[a] == resolution_key(out@[a].resolution@));
            assert(keys@[b] == resolution_key(out@[b].resolution@));
        }
    }
    out
}

/// The formats to offer, from the entries of the tool's answer: one per
/// resolution, highest first, holding exactly the deduplicated listed formats.
pub fn list_formats(entries: &Vec<FormatEntry>) -> (r: Vec<VideoFormat>)
    ensures
        sorted_by_key(views(r@)),
        distinct_resolutions(views(r@)),
        views(r@).to_multiset() == dedup(candidates(entry_views(entries@))).to_multiset(),
{
    let d = dedup_formats(entries);
    proof {
        lemma_dedup_distinct(candidates(entry_views(entries@)));
    }
    sort_formats(&d)
}

/// Reads the formats out of the tool's JSON answer: the listed formats of
/// its `formats` array, one per resolution, highest first. Text that is not
/// JSON is an error.
pub fn get_video_formats(json: &str) -> (r: Result<Vec<VideoFormat>, String>)
    ensures
        r is Ok == json_parses(json@),
        r matches Ok(v) ==> {
            &&& sorted_by_key(views(v@))
            &&& distinct_resolutions(views(v@))
            &&& views(v@).to_multiset() == dedup(candidates(format_entries_of(json@))).to_multiset()
        },
{
    if !json_valid(json) {
        return Err("Failed to parse JSON".to_string());
    }
    let n = match array_len(json, "formats") {
        Some(n) => n,
        None => 0,
    };
    let ghost want = format_entries_of(json@);
    let mut entries: Vec<FormatEntry> = Vec::new();
    let mut i: usize = 0;
    while i < n
        invariant
            i <= n,
            want == format_entries_of(json@),
            want.len() == n,
            entries@.len() == i,
            forall|j: int| 0 <= j < i ==> fields_of(#[trigger] entries@[j]) == want[j],
        decreases n - i,
    {
        let e = FormatEntry {
            format_id: item_str(json, "formats", i, "format_id"),
            ext: item_str(json, "formats", i, "ext"),
            vcodec: item_str(json, "formats", i, "vcodec"),
            resolution: item_str(json, "formats", i, "resolution"),
            width: item_u64(json, "formats", i, "width"),
            height: item_u64(json, "formats", i, "height"),
            filesize: item_u64(json, "formats", i, "filesize"),
            filesize_approx: item_u64(json, "formats", i, "filesize_approx"),
            fps: item_whole_u32(json, "formats", i, "fps"),
        };
        assert(fields_of(e) == want[i as int]);
        entries.push(e);
        i = i + 1;
    }
    assert(entry_views(entries@) =~= want);
    Ok(list_formats(&entries))
}

} // verus!
