//! The platforms the tool ships for, and the file names and asset-matching
//! tokens that go with each: one table shared by the resolver and the installer.
use vstd::prelude::*;
use crate::text::{chars_of, seq_eq};

verus! {

#[derive(Clone, Copy, Debug, PartialEq, Eq, Structural)]
pub enum Platform {
    Windows,
    MacOs,
    LinuxX64,
    LinuxArm64,
}

/// The platform for an operating-system and architecture name as Rust spells
/// them (`"windows"`, `"macos"`, `"aarch64"`, ...): every system that is
/// neither Windows nor macOS is treated as Linux.
pub open spec fn platform_for_spec(os: Seq<char>, arch: Seq<char>) -> Platform {
    if os == "windows"@ {
        Platform::Windows
    } else if os == "macos"@ {
        Platform::MacOs
    } else if arch == "aarch64"@ {
        Platform::LinuxArm64
    } else {
        Platform::LinuxX64
    }
}

/// The file name of the tool's binary for a platform, as bundled and as
/// published in a release.
pub open spec fn binary_file_name(p: Platform) -> Seq<char> {
    match p {
        Platform::Windows => "yt-dlp.exe"@,
        Platform::MacOs => "yt-dlp_macos"@,
        Platform::LinuxX64 => "yt-dlp_linux"@,
        Platform::LinuxArm64 => "yt-dlp_linux_arm64"@,
    }
}

/// The name under which the tool is looked up on the search path.
pub open spec fn system_binary_name(p: Platform) -> Seq<char> {
    match p {
        Platform::Windows => "yt-dlp.exe"@,
        _ => "yt-dlp"@,
    }
}

/// `name` appended to the directory `dir` as one more path component.
pub open spec fn join_path(dir: Seq<char>, name: Seq<char>) -> Seq<char> {
    if dir.len() == 0 {
        name
    } else if dir.last() == '/' {
        dir + name
    } else {
        dir + seq!['/'] + name
    }
}

impl Platform {
    pub fn from_os_arch(os: &str, arch: &str) -> (r: Platform)
        ensures
            r == platform_for_spec(os@, arch@),
    {
        let o = chars_of(os);
        let a = chars_of(arch);
        if seq_eq(o.as_slice(), chars_of("windows").as_slice()) {
            Platform::Windows
        } else if seq_eq(o.as_slice(), chars_of("macos").as_slice()) {
            Platform::MacOs
        } else if seq_eq(a.as_slice(), chars_of("aarch64").as_slice()) {
            Platform::LinuxArm64
        } else {
            Platform::LinuxX64
        }
    }

    pub fn is_windows(&self) -> (r: bool)
        ensures
            r == (*self == Platform::Windows),
    {
        match self {
            Platform::Windows => true,
            _ => false,
        }
    }
}

/// The release asset, and bundled file, name of the tool's binary.
pub fn get_platform_asset_name(platform: Platform) -> (r: String)
    ensures
        r@ == binary_file_name(platform),
{
    match platform {
        Platform::Windows => "yt-dlp.exe".to_string(),
        Platform::MacOs => "yt-dlp_macos".to_string(),
        Platform::LinuxX64 => "yt-dlp_linux".to_string(),
        Platform::LinuxArm64 => "yt-dlp_linux_arm64".to_string(),
    }
}

/// The name of the tool on the system search path.
pub fn get_system_binary_name(platform: Platform) -> (r: String)
    ensures
        r@ == system_binary_name(platform),
{
    match platform {
        Platform::Windows => "yt-dlp.exe".to_string(),
        _ => "yt-dlp".to_string(),
    }
}

/// Appends one path component to a directory.
pub fn join(dir: &str, name: &str) -> (r: String)
    ensures
        r@ == join_path(dir@, name@),
{
    let d = chars_of(dir);
    if d.len() == 0 {
        return name.to_string();
    }
    let mut r = dir.to_string();
    if d[d.len() - 1] != '/' {
        r.append("/");
        proof {
            reveal_strlit("/");
        }
    }
    r.append(name);
    proof {
        assert(d@.last() == dir@.last());
    }
    r
}

/// Where the tool's binary for `platform` stands inside `resource_dir`.
pub fn get_platform_specific_path(resource_dir: &str, platform: Platform) -> (r: String)
    ensures
        r@ == join_path(resource_dir@, binary_file_name(platform)),
{
    let name = get_platform_asset_name(platform);
    join(resource_dir, name.as_str())
}

} // verus!
