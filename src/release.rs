//! The release feed: reading the latest-release document, choosing the asset
//! to download for a platform, and keeping the latest version for an hour.
use vstd::prelude::*;
use crate::json::{array_len, item_str, json_array_len, json_item_str, json_parses, json_top_str, top_str};
use crate::platform::Platform;
use crate::text::{chars_of, contains, contains_seq, ends_with, has_suffix, lower_of, lowercase, seq_eq};

verus! {

/// One downloadable file of a release.
#[derive(Clone, Debug)]
pub struct ReleaseAsset {
    pub name: String,
    pub download_url: String,
}

/// The parts of a release that the updater reads.
#[derive(Clone, Debug)]
pub struct ReleaseInfo {
    pub tag_name: String,
    pub assets: Vec<ReleaseAsset>,
}

#[derive(Clone, Debug, PartialEq, Eq)]
pub enum ReleaseError {
    /// The feed could not be reached.
    Network(String),
    /// The feed's answer is not a release document.
    Parse(String),
    /// No asset of the release fits the platform.
    AssetNotFound(String),
}

/// How long a fetched latest version stays valid, in seconds.
pub const CACHE_TTL_SECS: u64 = 3600;

// ----- the release document -----

/// The assets of a release document, where each item of its `assets` array
/// has a string `name` and `browser_download_url`.
pub open spec fn assets_complete(t: Seq<char>, n: nat) -> bool {
    forall|i: int|
        0 <= i < n ==> (#[trigger] json_item_str(t, "assets"@, i, "name"@)) is Some && json_item_str(
            t,
            "assets"@,
            i,
            "browser_download_url"@,
        ) is Some
}

/// A release document: a JSON object with a string `tag_name` and an array
/// `assets` of objects that each have a string `name` and
/// `browser_download_url`.
pub open spec fn is_release_doc(t: Seq<char>) -> bool {
    &&& json_top_str(t, "tag_name"@) is Some
    &&& json_array_len(t, "assets"@) matches Some(n) && assets_complete(t, n)
}

/// The release that a document describes: its tag, and each asset's name and
/// URL in the order of the document.
pub open spec fn describes_release(r: ReleaseInfo, t: Seq<char>) -> bool {
    &&& Some(r.tag_name@) == json_top_str(t, "tag_name"@)
    &&& json_array_len(t, "assets"@) == Some(r.assets@.len())
    &&& forall|i: int|
        0 <= i < r.assets@.len() ==> Some((#[trigger] r.assets@[i]).name@) == json_item_str(
            t,
            "assets"@,
            i,
            "name"@,
        ) && Some(r.assets@[i].download_url@) == json_item_str(
            t,
            "assets"@,
            i,
            "browser_download_url"@,
        )
}

/// Reads a release document. Anything else, text that is not JSON included,
/// is a parse error.
pub fn parse_release(body: &str) -> (r: Result<ReleaseInfo, ReleaseError>)
    ensures
        r is Ok == is_release_doc(body@),
        !json_parses(body@) ==> r matches Err(ReleaseError::Parse(_)),
        r matches Err(e) ==> e matches ReleaseError::Parse(_),
        r matches Ok(rel) ==> describes_release(rel, body@),
{
    let tag_name = match top_str(body, "tag_name") {
        Some(t) => t,
        None => {
            return Err(ReleaseError::Parse("release info has no tag_name".to_string()));
        },
    };
    let n = match array_len(body, "assets") {
        Some(n) => n,
        None => {
            return Err(ReleaseError::Parse("release info has no assets".to_string()));
        },
    };
    let mut assets: Vec<ReleaseAsset> = Vec::new();
    let mut i: usize = 0;
    while i < n
        invariant
            i <= n,
            json_array_len(body@, "assets"@) == Some(n as nat),
            assets@.len() == i,
            forall|j: int|
                0 <= j < i ==> Some((#[trigger] assets@[j]).name@) == json_item_str(
                    body@,
                    "assets"@,
                    j,
                    "name"@,
                ) && Some(assets@[j].download_url@) == json_item_str(
                    body@,
                    "assets"@,
                    j,
                    "browser_download_url"@,
                ),
            forall|j: int|
                0 <= j < i ==> (#[trigger] json_item_str(body@, "assets"@, j, "name"@)) is Some
                    && json_item_str(body@, "assets"@, j, "browser_download_url"@) is Some,
        decreases n - i,
    {
        let name = item_str(body, "assets", i, "name");
        let url = item_str(body, "assets", i, "browser_download_url");
        match (name, url) {
            (Some(name), Some(download_url)) => {
                assets.push(ReleaseAsset { name, download_url });
            },
            _ => {
                return Err(ReleaseError::Parse("release asset lacks name or URL".to_string()));
            },
        }
        i = i + 1;
    }
    Ok(ReleaseInfo { tag_name, assets })
}

/// A tag with its leading `v`, if any, taken off.
pub open spec fn strip_v(s: Seq<char>) -> Seq<char> {
    if s.len() > 0 && s[0] == 'v' {
        s.drop_first()
    } else {
        s
    }
}

/// The version that a release tag names.
pub fn version_from_tag(tag: &str) -> (r: String)
    ensures
        r@ == strip_v(tag@),
{
    let n = tag.unicode_len();
    let k: usize = if n > 0 && tag.get_char(0) == 'v' {
        1
    } else {
        0
    };
    assert(tag@.subrange(k as int, n as int) =~= strip_v(tag@));
    tag.substring_char(k, n).to_string()
}

/// The latest version that a release document announces: its tag without
/// the leading `v`.
pub fn latest_version_from_body(body: &str) -> (r: Result<String, ReleaseError>)
    ensures
        r is Ok == is_release_doc(body@),
        !json_parses(body@) ==> r matches Err(ReleaseError::Parse(_)),
        r matches Err(e) ==> e matches ReleaseError::Parse(_),
        r matches Ok(v) ==> (json_top_str(body@, "tag_name"@) matches Some(t) && v@ == strip_v(t)),
{
    let release = parse_release(body)?;
    Ok(version_from_tag(release.tag_name.as_str()))
}

// ----- choosing an asset -----

/// The tokens of which an asset's lower-cased name must hold one to count as
/// built for the platform.
pub open spec fn holds_platform_token(lower: Seq<char>, p: Platform) -> bool {
    match p {
        Platform::Windows => contains_seq(lower, "yt-dlp.exe"@),
        Platform::MacOs => contains_seq(lower, "macos"@),
        Platform::LinuxX64 => contains_seq(lower, "linux"@),
        Platform::LinuxArm64 => contains_seq(lower, "linux"@) || contains_seq(lower, "arm64"@)
            || contains_seq(lower, "aarch64"@),
    }
}

/// The last-resort rule, given the asset's name and its lower-cased form: a
/// binary of the tool that is not a signature or an archive, names the
/// platform, and has an `.exe` ending exactly on Windows.
pub open spec fn platform_binary_with(name: Seq<char>, lower: Seq<char>, p: Platform) -> bool {
    &&& contains_seq(name, "yt-dlp"@)
    &&& !contains_seq(name, ".sig"@)
    &&& !has_suffix(name, ".tar.gz"@)
    &&& !has_suffix(name, ".zip"@)
    &&& holds_platform_token(lower, p)
    &&& if p == Platform::Windows {
        has_suffix(name, ".exe"@)
    } else {
        !has_suffix(name, ".exe"@)
    }
}

/// Whether an asset name passes the rule of a tier: 0 is the exact name, 1 a
/// name that holds the wanted one and is no signature, 2 the platform rule.
pub open spec fn in_tier(tier: nat, name: Seq<char>, want: Seq<char>, p: Platform) -> bool {
    if tier == 0 {
        name == want
    } else if tier == 1 {
        contains_seq(name, want) && !contains_seq(name, ".sig"@)
    } else {
        platform_binary_with(name, lower_of(name), p)
    }
}

/// The first of the first `n` names that passes a tier's rule.
pub open spec fn first_in_tier(names: Seq<Seq<char>>, n: int, tier: nat, want: Seq<char>, p: Platform) -> Option<int>
    decreases n,
{
    if n <= 0 {
        None
    } else {
        match first_in_tier(names, n - 1, tier, want, p) {
            Some(i) => Some(i),
            None => if in_tier(tier, names[n - 1], want, p) {
                Some(n - 1)
            } else {
                None
            },
        }
    }
}

pub open spec fn asset_names(assets: Seq<ReleaseAsset>) -> Seq<Seq<char>> {
    assets.map_values(|a: ReleaseAsset| a.name@)
}

/// The asset chosen for `want`: the first match of the first tier that has one.
pub open spec fn select_asset(assets: Seq<ReleaseAsset>, want: Seq<char>, p: Platform) -> Option<int> {
    let names = asset_names(assets);
    let n = names.len() as int;
    match first_in_tier(names, n, 0, want, p) {
        Some(i) => Some(i),
        None => match first_in_tier(names, n, 1, want, p) {
            Some(i) => Some(i),
            None => first_in_tier(names, n, 2, want, p),
        },
    }
}

proof fn lemma_first_in_tier_range(names: Seq<Seq<char>>, n: int, tier: nat, want: Seq<char>, p: Platform)
    ensures
        first_in_tier(names, n, tier, want, p) matches Some(i) ==> 0 <= i < n,
    decreases n,
{
    if n > 0 {
        lemma_first_in_tier_range(names, n - 1, tier, want, p);
    }
}

proof fn lemma_first_in_tier_stable(names: Seq<Seq<char>>, m: int, n: int, tier: nat, want: Seq<char>, p: Platform)
    requires
        m <= n,
        first_in_tier(names, m, tier, want, p) is Some,
    ensures
        first_in_tier(names, n, tier, want, p) == first_in_tier(names, m, tier, want, p),
    decreases n - m,
{
    if m < n {
        lemma_first_in_tier_stable(names, m, n - 1, tier, want, p);
    }
}

/// Whether the lower-cased name holds one of the platform's tokens.
fn has_platform_token(lower: &[char], p: Platform) -> (r: bool)
    ensures
        r == holds_platform_token(lower@, p),
{
    proof {
        reveal_strlit("yt-dlp.exe");
    }
    match p {
        Platform::Windows => contains(lower, chars_of("yt-dlp.exe").as_slice()),
        Platform::MacOs => contains(lower, chars_of("macos").as_slice()),
        Platform::LinuxX64 => contains(lower, chars_of("linux").as_slice()),
        Platform::LinuxArm64 => contains(lower, chars_of("linux").as_slice()) || contains(
            lower,
            chars_of("arm64").as_slice(),
        ) || contains(lower, chars_of("aarch64").as_slice()),
    }
}

/// The last-resort rule on an asset name, given the name lower-cased.
pub fn is_platform_binary(name: &str, name_lower: &str, platform: Platform) -> (r: bool)
    ensures
        r == platform_binary_with(name@, name_lower@, platform),
{
    let n = chars_of(name);
    let l = chars_of(name_lower);
    let s = n.as_slice();
    let exe = ends_with(s, chars_of(".exe").as_slice());
    contains(s, chars_of("yt-dlp").as_slice()) && !contains(s, chars_of(".sig").as_slice())
        && !ends_with(s, chars_of(".tar.gz").as_slice()) && !ends_with(
        s,
        chars_of(".zip").as_slice(),
    ) && has_platform_token(l.as_slice(), platform) && (if platform.is_windows() {
        exe
    } else {
        !exe
    })
}

fn asset_in_tier(name: &str, tier: u8, want: &[char], platform: Platform) -> (r: bool)
    requires
        tier <= 2,
    ensures
        r == in_tier(tier as nat, name@, want@, platform),
{
    let n = chars_of(name);
    if tier == 0 {
        seq_eq(n.as_slice(), want)
    } else if tier == 1 {
        contains(n.as_slice(), want) && !contains(n.as_slice(), chars_of(".sig").as_slice())
    } else {
        let lower = lowercase(name);
        is_platform_binary(name, lower.as_str(), platform)
    }
}

fn find_in_tier(assets: &Vec<ReleaseAsset>, tier: u8, want: &[char], platform: Platform) -> (r: Option<usize>)
    requires
        tier <= 2,
    ensures
        r matches Some(i) ==> first_in_tier(asset_names(assets@), assets@.len() as int, tier as nat, want@, platform) == Some(i as int),
        r is None ==> first_in_tier(asset_names(assets@), assets@.len() as int, tier as nat, want@, platform) is None,
{
    let ghost names = asset_names(assets@);
    let mut i: usize = 0;
    while i < assets.len()
        invariant
            tier <= 2,
            i <= assets@.len(),
            names == asset_names(assets@),
            first_in_tier(names, i as int, tier as nat, want@, platform) is None,
        decreases assets.len() - i,
    {
        assert(names[i as int] == assets@[i as int].name@);
        if asset_in_tier(assets[i].name.as_str(), tier, want, platform) {
            proof {
                lemma_first_in_tier_stable(names, i + 1, assets@.len() as int, tier as nat, want@, platform);
            }
            return Some(i);
        }
        i = i + 1;
    }
    None
}

/// The download URL of the asset chosen for `asset_name` on `platform`: the
/// first asset of the exact name; else the first whose name holds
/// `asset_name` and is no signature; else the first that the platform rule
/// accepts. Fails with `AssetNotFound` where no tier has a match.
pub fn get_download_url(release: &ReleaseInfo, asset_name: &str, platform: Platform) -> (r: Result<String, ReleaseError>)
    ensures
        match select_asset(release.assets@, asset_name@, platform) {
            Some(i) => r matches Ok(u) && 0 <= i < release.assets@.len() && u@
                == release.assets@[i].download_url@,
            None => r matches Err(ReleaseError::AssetNotFound(_)),
        },
{
    let want = chars_of(asset_name);
    let ghost names = asset_names(release.assets@);
    let ghost n = names.len() as int;
    proof {
        lemma_first_in_tier_range(names, n, 0, asset_name@, platform);
        lemma_first_in_tier_range(names, n, 1, asset_name@, platform);
        lemma_first_in_tier_range(names, n, 2, asset_name@, platform);
    }
    let found = match find_in_tier(&release.assets, 0, want.as_slice(), platform) {
        Some(i) => Some(i),
        None => match find_in_tier(&release.assets, 1, want.as_slice(), platform) {
            Some(i) => Some(i),
            None => find_in_tier(&release.assets, 2, want.as_slice(), platform),
        },
    };
    match found {
        Some(i) => Ok(release.assets[i].download_url.clone()),
        None => {
            let mut e = "No suitable binary found for asset: ".to_string();
            e.append(asset_name);
            Err(ReleaseError::AssetNotFound(e))
        },
    }
}

// ----- the latest-version cache -----

/// A fetched latest version and the time, in seconds, at which it was stored.
#[derive(Clone, Debug)]
pub struct CachedVersion {
    pub version: String,
    pub cached_at: u64,
}

/// A cached entry is fresh at `now` while less than the time-to-live has
/// passed since it was stored; a clock that went back makes it stale.
pub open spec fn is_fresh(cached_at: u64, now: u64) -> bool {
    cached_at <= now && now - cached_at < CACHE_TTL_SECS
}

/// The latest version as last fetched, valid for an hour.
pub struct VersionCache {
    pub entry: Option<CachedVersion>,
}

impl VersionCache {
    pub fn new() -> (r: VersionCache)
        ensures
            r.entry is None,
    {
        VersionCache { entry: None }
    }

    /// The cached version, where there is one and it is fresh at `now`.
    pub fn lookup(&self, now: u64) -> (r: Option<String>)
        ensures
            match self.entry {
                Some(c) => if is_fresh(c.cached_at, now) {
                    r matches Some(v) && v@ == c.version@
                } else {
                    r is None
                },
                None => r is None,
            },
    {
        match &self.entry {
            Some(c) => {
                if c.cached_at <= now && now - c.cached_at < CACHE_TTL_SECS {
                    Some(c.version.clone())
                } else {
                    None
                }
            },
            None => None,
        }
    }

    /// Replaces the entry wholesale with a version fetched at `now`.
    pub fn store(&mut self, version: String, now: u64)
        ensures
            final(self).entry matches Some(c) && c.version == version && c.cached_at == now,
    {
        self.entry = Some(CachedVersion { version, cached_at: now });
    }
}

} // verus!
