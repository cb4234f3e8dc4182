//! The cache layer's decisions over an abstract cache file.
//!
//! The cache is one whole-file snapshot of the rewritten bulk listing,
//! replaced wholesale and never partially invalidated.  [`CacheFile`] holds
//! the file's state as a value — `None` when the file is absent — so that
//! the layer's rules (absent-on-delete is success, populate on miss exactly
//! once, whole-file read-back) are verified here; the surrounding program
//! grounds that state in the real file at a platform cache path.

use vstd::prelude::*;

use crate::proc::CommandError;

verus! {

/// The cache file's contents, or `None` when the file is absent.
#[derive(Debug, PartialEq, Clone)]
pub struct CacheFile {
    pub contents: Option<String>,
}

/// A failure of the cache layer.
#[derive(Debug, PartialEq, Clone)]
pub enum CacheIoError {
    /// No platform cache directory could be resolved.
    NoCachePath,
    /// Producing a fresh listing failed.
    Command(CommandError),
    /// Reading or writing the cache file failed; the message describes the
    /// I/O failure.
    Io(String),
}

/// Whether the cache file exists.
pub fn cache_exists(c: &CacheFile) -> (r: bool)
    ensures
        r == (c.contents is Some),
{
    c.contents.is_some()
}

/// Removes the cache file.  A file that is already absent is success, not
/// an error.
pub fn clear_cache(c: &mut CacheFile) -> (r: Result<(), CacheIoError>)
    ensures
        r is Ok,
        final (c).contents is None,
{
    c.contents = None;
    Ok(())
}

/// Replaces the cache file's contents wholesale.
pub fn write_cache(c: &mut CacheFile, nix_attrs: &str) -> (r: Result<(), CacheIoError>)
    ensures
        r is Ok,
        final (c).contents matches Some(s) && s@ == nix_attrs@,
{
    c.contents = Some(nix_attrs.to_owned());
    Ok(())
}

/// Reads the whole cache file back; fails when the file is absent.
pub fn read_cache(c: &CacheFile) -> (r: Result<String, CacheIoError>)
    ensures
        match c.contents {
            Some(s) => r matches Ok(x) && x@ == s@,
            None => r is Err,
        },
{
    match &c.contents {
        Some(s) => Ok(s.clone()),
        None => Err(CacheIoError::Io("cache file is absent".to_owned())),
    }
}

/// Read-through access: returns the cached listing when the file exists,
/// and otherwise populates the cache from `fresh` — the outcome of
/// producing a fresh bulk listing, consulted only on a miss — before
/// returning it.  A failed `fresh` propagates as a command failure and
/// leaves the cache untouched.
pub fn ensure_cache(c: &mut CacheFile, fresh: Result<String, CommandError>) -> (r: Result<
    String,
    CacheIoError,
>)
    ensures
        old(c).contents matches Some(s) ==> final (c).contents == old(c).contents && (r matches Ok(
            x,
        ) && x@ == s@),
        old(c).contents is None ==> match fresh {
            Ok(a) => (final (c).contents matches Some(w) && w@ == a@) && (r matches Ok(x) && x@
                == a@),
            Err(e) => final (c).contents is None && r == Err::<String, CacheIoError>(
                CacheIoError::Command(e),
            ),
        },
{
    if !cache_exists(c) {
        match fresh {
            Ok(attrs) => {
                let res = write_cache(c, attrs.as_str());
                match res {
                    Ok(()) => Ok(attrs),
                    Err(e) => Err(e),
                }
            },
            Err(e) => Err(CacheIoError::Command(e)),
        }
    } else {
        read_cache(c)
    }
}

} // verus!
