//! The per-user directories the package manager works in: the binary
//! directory for executable symlinks, the cache and config directories,
//! and the package store. Their roots come from the environment, so
//! nothing more is promised of them than the fixed suffix this library
//! appends.

use vstd::prelude::*;

use crate::text::ends_with;

verus! {

/// Relies on `dirs::executable_dir`: the user's executable directory,
/// if the environment defines one; `None` also when the path is not
/// UTF-8.
#[verifier::external_body]
fn dirs_executable_dir() -> (r: Option<String>) {
    dirs::executable_dir().and_then(|p| p.into_os_string().into_string().ok())
}

/// Relies on `dirs::cache_dir`: the user's cache directory, if the
/// environment defines one; `None` also when the path is not UTF-8.
#[verifier::external_body]
fn dirs_cache_dir() -> (r: Option<String>) {
    dirs::cache_dir().and_then(|p| p.into_os_string().into_string().ok())
}

/// Relies on `dirs::config_dir`: the user's config directory, if the
/// environment defines one; `None` also when the path is not UTF-8.
#[verifier::external_body]
fn dirs_config_dir() -> (r: Option<String>) {
    dirs::config_dir().and_then(|p| p.into_os_string().into_string().ok())
}

/// Relies on `dirs::state_dir`: the user's state directory, if the
/// environment defines one; `None` also when the path is not UTF-8.
#[verifier::external_body]
fn dirs_state_dir() -> (r: Option<String>) {
    dirs::state_dir().and_then(|p| p.into_os_string().into_string().ok())
}

/// The directory executable symlinks go into; what the environment
/// calls the user's executable directory.
pub fn bin_dir() -> (r: Option<String>) {
    dirs_executable_dir()
}

/// This tool's cache directory: the user's cache directory plus a
/// fixed subdirectory.
pub fn cache_dir() -> (r: Option<String>)
    ensures
        r matches Some(s) ==> ends_with(s@, "/aether"@),
{
    match dirs_cache_dir() {
        None => None,
        Some(d) => {
            let s = d.concat("/aether");
            proof {
                reveal_strlit("/aether");
                assert(s@.skip(s@.len() - "/aether"@.len()) =~= "/aether"@);
            }
            Some(s)
        },
    }
}

/// This tool's config directory: the user's config directory plus a
/// fixed subdirectory.
pub fn config_dir() -> (r: Option<String>)
    ensures
        r matches Some(s) ==> ends_with(s@, "/aether"@),
{
    match dirs_config_dir() {
        None => None,
        Some(d) => {
            let s = d.concat("/aether");
            proof {
                reveal_strlit("/aether");
                assert(s@.skip(s@.len() - "/aether"@.len()) =~= "/aether"@);
            }
            Some(s)
        },
    }
}

/// The package store: the user's state directory plus a fixed
/// subdirectory, one subdirectory per installed package inside it.
pub fn pkg_dir() -> (r: Option<String>)
    ensures
        r matches Some(s) ==> ends_with(s@, "/aether/pkg"@),
{
    match dirs_state_dir() {
        None => None,
        Some(d) => {
            let s = d.concat("/aether/pkg");
            proof {
                reveal_strlit("/aether/pkg");
                assert(s@.skip(s@.len() - "/aether/pkg"@.len()) =~= "/aether/pkg"@);
            }
            Some(s)
        },
    }
}

} // verus!
