//! Ordering of the tool's version identifiers: stable `Y.M.D` releases and
//! nightly `nightly@Y.M.D.HHMMSS` builds.
use vstd::prelude::*;
use crate::text::{
    chars_of, has_prefix, parse_u32, parse_u32_spec, split_chars, split_on, starts_with,
};

verus! {

/// A parsed version identifier. `time` is the sub-day component of a nightly
/// build, and 0 where there is none.
#[derive(Clone, Copy, Debug, PartialEq, Eq, Structural)]
pub struct VersionId {
    pub nightly: bool,
    pub year: u32,
    pub month: u32,
    pub day: u32,
    pub time: u32,
}

pub open spec fn nightly_prefix() -> Seq<char> {
    seq!['n', 'i', 'g', 'h', 't', 'l', 'y', '@']
}

/// The dotted part of a version string, after the nightly prefix if any.
pub open spec fn version_base(s: Seq<char>) -> Seq<char> {
    if has_prefix(s, nightly_prefix()) {
        s.skip(nightly_prefix().len() as int)
    } else {
        s
    }
}

/// The `k`-th dotted component, read as a number.
pub open spec fn component(parts: Seq<Seq<char>>, k: int) -> Option<u32> {
    if 0 <= k < parts.len() {
        parse_u32_spec(parts[k])
    } else {
        None
    }
}

/// A version string is valid when year, month and day are all numbers; a
/// missing or malformed time component counts as 0.
pub open spec fn parse_version_spec(s: Seq<char>) -> Option<VersionId> {
    let parts = split_on(version_base(s), '.');
    match (component(parts, 0), component(parts, 1), component(parts, 2)) {
        (Some(y), Some(m), Some(d)) => Some(
            VersionId {
                nightly: has_prefix(s, nightly_prefix()),
                year: y,
                month: m,
                day: d,
                time: match component(parts, 3) {
                    Some(t) => t,
                    None => 0,
                },
            },
        ),
        _ => None,
    }
}

/// `a` is current with `b` or newer: the first of year, month and day that
/// differs decides; on the same date two nightlies go by their time, a
/// nightly beats a stable release, and two stable releases are equal.
pub open spec fn current_or_newer(a: VersionId, b: VersionId) -> bool {
    if a.year != b.year {
        a.year >= b.year
    } else if a.month != b.month {
        a.month >= b.month
    } else if a.day != b.day {
        a.day >= b.day
    } else if a.nightly && b.nightly {
        a.time >= b.time
    } else if a.nightly {
        true
    } else if b.nightly {
        false
    } else {
        true
    }
}

/// The comparison of two version strings, or `None` where either is invalid.
pub open spec fn compare_spec(a: Seq<char>, b: Seq<char>) -> Option<bool> {
    match (parse_version_spec(a), parse_version_spec(b)) {
        (Some(x), Some(y)) => Some(current_or_newer(x, y)),
        _ => None,
    }
}

fn component_of(parts: &Vec<Vec<char>>, k: usize) -> (r: Option<u32>)
    ensures
        r == component(parts@.map_values(|v: Vec<char>| v@), k as int),
{
    if k < parts.len() {
        parse_u32(parts[k].as_slice())
    } else {
        None
    }
}

/// Parses a version string into its components.
pub fn parse_version(s: &str) -> (r: Option<VersionId>)
    ensures
        r == parse_version_spec(s@),
{
    let cs = chars_of(s);
    let prefix = chars_of("nightly@");
    proof {
        reveal_strlit("nightly@");
        assert(prefix@ =~= nightly_prefix());
    }
    let nightly = starts_with(cs.as_slice(), prefix.as_slice());
    let base: Vec<char> = if nightly {
        let mut b: Vec<char> = Vec::new();
        let mut i: usize = prefix.len();
        while i < cs.len()
            invariant
                prefix@.len() <= i <= cs@.len(),
                b@ == cs@.subrange(prefix@.len() as int, i as int),
            decreases cs.len() - i,
        {
            b.push(cs[i]);
            i = i + 1;
            assert(b@ =~= cs@.subrange(prefix@.len() as int, i as int));
        }
        assert(b@ =~= cs@.skip(prefix@.len() as int));
        b
    } else {
        cs
    };
    let parts = split_chars(base.as_slice(), '.');
    match (component_of(&parts, 0), component_of(&parts, 1), component_of(&parts, 2)) {
        (Some(y), Some(m), Some(d)) => {
            let time = match component_of(&parts, 3) {
                Some(t) => t,
                None => 0,
            };
            Some(VersionId { nightly, year: y, month: m, day: d, time })
        },
        _ => None,
    }
}

/// Whether `a` is current with `b` or newer.
pub fn is_current_or_newer(a: &VersionId, b: &VersionId) -> (r: bool)
    ensures
        r == current_or_newer(*a, *b),
{
    if a.year != b.year {
        a.year >= b.year
    } else if a.month != b.month {
        a.month >= b.month
    } else if a.day != b.day {
        a.day >= b.day
    } else if a.nightly && b.nightly {
        a.time >= b.time
    } else if a.nightly {
        true
    } else if b.nightly {
        false
    } else {
        true
    }
}

fn invalid_version(v: &str) -> String {
    let mut e = "Invalid version: ".to_string();
    e.append(v);
    e
}

/// Compares two version strings: `Ok(true)` where `version1` is current with
/// `version2` or newer, `Ok(false)` where it is older, and an error where
/// either lacks a numeric year, month or day.
pub fn compare_ytdlp_versions(version1: &str, version2: &str) -> (r: Result<bool, String>)
    ensures
        r.is_ok() == compare_spec(version1@, version2@).is_some(),
        r matches Ok(b) ==> compare_spec(version1@, version2@) == Some(b),
{
    let a = match parse_version(version1) {
        Some(a) => a,
        None => {
            return Err(invalid_version(version1));
        },
    };
    let b = match parse_version(version2) {
        Some(b) => b,
        None => {
            return Err(invalid_version(version2));
        },
    };
    Ok(is_current_or_newer(&a, &b))
}

} // verus!
