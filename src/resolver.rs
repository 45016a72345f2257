//! Which copy of the tool to run: a current one on the search path, else
//! the first bundled copy found; decided once and remembered.
use vstd::prelude::*;
use crate::platform::{binary_file_name, get_platform_specific_path, join, join_path, Platform};
use crate::text::{chars_of, contains, contains_seq, seq_eq, trim, trim_ws};
use crate::version::{compare_spec, compare_ytdlp_versions};

verus! {

#[derive(Clone, Copy, Debug, PartialEq, Eq, Structural)]
pub enum BinaryOrigin {
    /// Found on the system search path.
    System,
    /// Shipped with the application.
    Bundled,
}

/// The copy of the tool that is run.
#[derive(Debug)]
pub struct ResolvedBinary {
    pub path: String,
    pub origin: BinaryOrigin,
}

impl ResolvedBinary {
    pub fn duplicate(&self) -> (r: ResolvedBinary)
        ensures
            r == *self,
    {
        ResolvedBinary { path: self.path.clone(), origin: self.origin }
    }
}

fn duplicate_result(r: &Result<ResolvedBinary, String>) -> (c: Result<ResolvedBinary, String>)
    ensures
        c == *r,
{
    match r {
        Ok(b) => Ok(b.duplicate()),
        Err(e) => Err(e.clone()),
    }
}

/// Whether the version that the system copy printed is current with the
/// latest release or newer; an error where either version is malformed.
pub fn check_system_ytdlp_version(version_output: &str, latest_version: &str) -> (r: Result<bool, String>)
    ensures
        r.is_ok() == compare_spec(trim_ws(version_output@), latest_version@).is_some(),
        r matches Ok(b) ==> compare_spec(trim_ws(version_output@), latest_version@) == Some(b),
{
    let v = trim(version_output);
    compare_ytdlp_versions(v.as_str(), latest_version)
}

/// The first candidate that exists, where `exists[i]` tells whether
/// `candidates[i]` does.
pub open spec fn first_true(exists: Seq<bool>, n: int) -> Option<int>
    decreases n,
{
    if n <= 0 {
        None
    } else {
        match first_true(exists, n - 1) {
            Some(i) => Some(i),
            None => if exists[n - 1] {
                Some(n - 1)
            } else {
                None
            },
        }
    }
}

proof fn lemma_first_true_stable(exists: Seq<bool>, m: int, n: int)
    requires
        m <= n,
        first_true(exists, m) is Some,
    ensures
        first_true(exists, n) == first_true(exists, m),
    decreases n - m,
{
    if m < n {
        lemma_first_true_stable(exists, m, n - 1);
    }
}

pub fn first_existing(exists: &Vec<bool>) -> (r: Option<usize>)
    ensures
        r matches Some(i) ==> first_true(exists@, exists@.len() as int) == Some(i as int),
        r is None ==> first_true(exists@, exists@.len() as int) is None,
{
    let mut i: usize = 0;
    while i < exists.len()
        invariant
            i <= exists@.len(),
            first_true(exists@, i as int) is None,
        decreases exists.len() - i,
    {
        if exists[i] {
            proof {
                lemma_first_true_stable(exists@, i + 1, exists@.len() as int);
            }
            return Some(i);
        }
        i = i + 1;
    }
    None
}

/// The copy to run: the system copy where there is one and its version is
/// current; else the bundled copy, where one was found; else none.
pub open spec fn choose_spec(system_path: Option<String>, system_current: Option<bool>, bundled: Option<String>) -> Result<ResolvedBinary, ()> {
    if system_path is Some && system_current == Some(true) {
        Ok(ResolvedBinary { path: system_path.unwrap(), origin: BinaryOrigin::System })
    } else if bundled is Some {
        Ok(ResolvedBinary { path: bundled.unwrap(), origin: BinaryOrigin::Bundled })
    } else {
        Err(())
    }
}

/// Chooses the copy to run from what discovery found: `system_current` is
/// the outcome of the version check of the system copy, `None` where it could
/// not be made.
pub fn choose_binary(system_path: Option<String>, system_current: Option<bool>, bundled: Option<String>) -> (r: Result<ResolvedBinary, String>)
    ensures
        match choose_spec(system_path, system_current, bundled) {
            Ok(b) => r == Ok::<ResolvedBinary, String>(b),
            Err(_) => r is Err,
        },
{
    let current = match system_current {
        Some(c) => c,
        None => false,
    };
    match system_path {
        Some(p) if current => {
            return Ok(ResolvedBinary { path: p, origin: BinaryOrigin::System });
        },
        _ => {},
    }
    match bundled {
        Some(p) => Ok(ResolvedBinary { path: p, origin: BinaryOrigin::Bundled }),
        None => Err(
            "The tool was not found: install it on the search path or bundle it with the application".to_string(),
        ),
    }
}

/// The directories searched for a bundled copy, most likely first, given the
/// directory of the running executable.
pub open spec fn binary_dirs_spec(exe_dir: Seq<char>, p: Platform) -> Seq<Seq<char>> {
    let near = if p == Platform::MacOs {
        seq![join_path(exe_dir, "../Resources/resources"@)]
    } else {
        seq![join_path(exe_dir, "resources"@), join_path(exe_dir, "../resources"@)]
    };
    near + seq![join_path(exe_dir, "../../resources"@), "src-tauri/resources"@]
}

/// The paths at which a bundled copy may stand, in the order searched.
pub fn bundled_binary_candidates(exe_dir: &str, platform: Platform) -> (r: Vec<String>)
    ensures
        r@.len() == binary_dirs_spec(exe_dir@, platform).len(),
        forall|i: int|
            0 <= i < r@.len() ==> #[trigger] r@[i]@ == join_path(
                binary_dirs_spec(exe_dir@, platform)[i],
                binary_file_name(platform),
            ),
{
    let mut dirs: Vec<String> = Vec::new();
    if platform != Platform::MacOs {
        dirs.push(join(exe_dir, "resources"));
        dirs.push(join(exe_dir, "../resources"));
    } else {
        dirs.push(join(exe_dir, "../Resources/resources"));
    }
    dirs.push(join(exe_dir, "../../resources"));
    dirs.push("src-tauri/resources".to_string());
    assert(dirs@.map_values(|d: String| d@) =~= binary_dirs_spec(exe_dir@, platform));
    let mut r: Vec<String> = Vec::new();
    let mut i: usize = 0;
    while i < dirs.len()
        invariant
            i <= dirs@.len(),
            dirs@.map_values(|d: String| d@) == binary_dirs_spec(exe_dir@, platform),
            r@.len() == i,
            forall|j: int|
                0 <= j < i ==> #[trigger] r@[j]@ == join_path(
                    binary_dirs_spec(exe_dir@, platform)[j],
                    binary_file_name(platform),
                ),
        decreases dirs.len() - i,
    {
        assert(dirs@.map_values(|d: String| d@)[i as int] == dirs@[i as int]@);
        r.push(get_platform_specific_path(dirs[i].as_str(), platform));
        i = i + 1;
    }
    r
}

/// The resource directories searched for the installer's target, most
/// likely first. In a macOS application bundle the bundle's own resource
/// directory is tried first.
pub open spec fn resource_dirs_spec(exe_dir: Seq<char>, p: Platform) -> Seq<Seq<char>> {
    let base = seq![
        join_path(exe_dir, "../Resources/resources"@),
        join_path(exe_dir, "resources"@),
        join_path(exe_dir, "../resources"@),
        join_path(exe_dir, "../../resources"@),
        "src-tauri/resources"@,
    ];
    if p == Platform::MacOs {
        let with_bundle = if contains_seq(exe_dir, "Contents/MacOS"@) {
            seq![join_path(exe_dir, "../../Resources/resources"@)] + base
        } else {
            base
        };
        seq![join_path(exe_dir, "../Resources/resources"@)] + with_bundle
    } else {
        base
    }
}

pub open spec fn fallback_resource_dir() -> Seq<char> {
    "src-tauri/resources"@
}

/// The directory where the bundled copy is kept when no candidate exists.
pub fn fallback_dir() -> (r: String)
    ensures
        r@ == fallback_resource_dir(),
{
    "src-tauri/resources".to_string()
}

pub fn bundled_dir_candidates(exe_dir: &str, platform: Platform) -> (r: Vec<String>)
    ensures
        r@.map_values(|d: String| d@) == resource_dirs_spec(exe_dir@, platform),
{
    let mut r: Vec<String> = Vec::new();
    if platform == Platform::MacOs {
        r.push(join(exe_dir, "../Resources/resources"));
        let e = chars_of(exe_dir);
        if contains(e.as_slice(), chars_of("Contents/MacOS").as_slice()) {
            r.push(join(exe_dir, "../../Resources/resources"));
        }
    }
    r.push(join(exe_dir, "../Resources/resources"));
    r.push(join(exe_dir, "resources"));
    r.push(join(exe_dir, "../resources"));
    r.push(join(exe_dir, "../../resources"));
    r.push("src-tauri/resources".to_string());
    assert(r@.map_values(|d: String| d@) =~= resource_dirs_spec(exe_dir@, platform));
    r
}

/// Where the copy in use comes from: `"system"` where the copy in use is
/// the one the search path finds, the same path or the same file once
/// canonicalized; `"bundled"` otherwise.
pub open spec fn is_search_path_copy(found: Option<String>, resolved: Seq<char>, canonical_found: Option<String>, canonical_resolved: Option<String>) -> bool {
    match found {
        Some(f) => f@ == resolved || (canonical_found matches Some(cf) && canonical_resolved matches Some(
            cr,
        ) && cf@ == cr@),
        None => false,
    }
}

pub fn get_ytdlp_source(found: Option<String>, resolved: &str, canonical_found: Option<String>, canonical_resolved: Option<String>) -> (r: String)
    ensures
        r@ == if is_search_path_copy(found, resolved@, canonical_found, canonical_resolved) {
            "system"@
        } else {
            "bundled"@
        },
{
    let same = match &found {
        Some(f) => {
            let a = chars_of(f.as_str());
            let b = chars_of(resolved);
            let canonical_same = match (&canonical_found, &canonical_resolved) {
                (Some(cf), Some(cr)) => {
                    let x = chars_of(cf.as_str());
                    let y = chars_of(cr.as_str());
                    seq_eq(x.as_slice(), y.as_slice())
                },
                _ => false,
            };
            seq_eq(a.as_slice(), b.as_slice()) || canonical_same
        },
        None => false,
    };
    if same {
        "system".to_string()
    } else {
        "bundled".to_string()
    }
}

/// A resolution from the cell's slot: the remembered result where there is
/// one, else the result that discovery returned, which is then remembered.
pub open spec fn after_resolve(slot: Option<Result<ResolvedBinary, String>>, discovered: Result<ResolvedBinary, String>) -> (Option<Result<ResolvedBinary, String>>, Result<ResolvedBinary, String>) {
    match slot {
        Some(v) => (Some(v), v),
        None => (Some(discovered), discovered),
    }
}

/// Whether a resolution from this slot runs discovery.
pub open spec fn runs_discovery(slot: Option<Result<ResolvedBinary, String>>) -> bool {
    slot is None
}

/// The result of discovery, computed once and then handed to every caller.
pub struct BinaryCell {
    pub slot: Option<Result<ResolvedBinary, String>>,
}

impl BinaryCell {
    pub fn new() -> (r: BinaryCell)
        ensures
            r.slot is None,
    {
        BinaryCell { slot: None }
    }

    /// The remembered result, if discovery has run.
    pub fn lookup(&self) -> (r: Option<Result<ResolvedBinary, String>>)
        ensures
            r == self.slot,
    {
        match &self.slot {
            Some(v) => Some(duplicate_result(v)),
            None => None,
        }
    }

    /// Remembers a result of discovery. The first result stays: a later one
    /// is dropped, and the one remembered is returned.
    pub fn fill(&mut self, result: Result<ResolvedBinary, String>) -> (r: Result<ResolvedBinary, String>)
        ensures
            old(self).slot is None ==> final(self).slot == Some(result),
            old(self).slot is Some ==> final(self).slot == old(self).slot,
            final(self).slot == Some(r),
    {
        match &self.slot {
            Some(v) => duplicate_result(v),
            None => {
                let r = duplicate_result(&result);
                self.slot = Some(result);
                r
            },
        }
    }

    /// The remembered result; `discover` runs only where there is none yet.
    pub fn get_or_init<F: FnOnce() -> Result<ResolvedBinary, String>>(&mut self, discover: F) -> (r: Result<ResolvedBinary, String>)
        requires
            runs_discovery(old(self).slot) ==> discover.requires(()),
        ensures
            (final(self).slot, r) == after_resolve(old(self).slot, r),
            runs_discovery(old(self).slot) ==> discover.ensures((), r),
    {
        match &self.slot {
            Some(v) => duplicate_result(v),
            None => {
                let found = discover();
                let r = duplicate_result(&found);
                self.slot = Some(found);
                r
            },
        }
    }
}

/// Once discovery has run, a second resolution hands back the same result
/// as the first and runs no discovery, whatever a discovery would find then.
pub proof fn lemma_resolved_once(first: Result<ResolvedBinary, String>, later: Result<ResolvedBinary, String>)
    ensures
        ({
            let (slot1, r1) = after_resolve(None, first);
            let (slot2, r2) = after_resolve(slot1, later);
            &&& r1 == first
            &&& r2 == r1
            &&& slot2 == slot1
            &&& !runs_discovery(slot1)
        }),
{
}

} // verus!
