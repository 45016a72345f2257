//! The user's preferences: where downloads go.
use vstd::prelude::*;

verus! {

/// The stored preferences.
#[derive(Clone, Debug)]
pub struct AppConfig {
    pub download_location: Option<String>,
}

impl Default for AppConfig {
    fn default() -> (r: Self)
        ensures
            r.download_location is None,
    {
        AppConfig { download_location: None }
    }
}

/// The directory downloads go to: the configured location where one is set
/// and names an existing directory (`configured_is_dir`), else the user's
/// download directory where the system has one.
pub fn get_download_path(config: &AppConfig, configured_is_dir: bool, default_dir: Option<String>) -> (r: Result<String, String>)
    ensures
        match config.download_location {
            Some(l) if configured_is_dir => r matches Ok(p) && p@ == l@,
            _ => match default_dir {
                Some(d) => r matches Ok(p) && p@ == d@,
                None => r is Err,
            },
        },
{
    match &config.download_location {
        Some(l) => {
            if configured_is_dir {
                return Ok(l.clone());
            }
        },
        None => {},
    }
    match default_dir {
        Some(d) => Ok(d),
        None => Err("Failed to get Downloads directory".to_string()),
    }
}

/// Accepts a new download location only where it exists and is a directory.
pub fn check_download_location(exists: bool, is_dir: bool) -> (r: Result<(), String>)
    ensures
        r is Ok == (exists && is_dir),
        !exists ==> (r matches Err(e) && e@ == "Path does not exist"@),
        exists && !is_dir ==> (r matches Err(e) && e@ == "Path is not a directory"@),
{
    if !exists {
        return Err("Path does not exist".to_string());
    }
    if !is_dir {
        return Err("Path is not a directory".to_string());
    }
    Ok(())
}

} // verus!
