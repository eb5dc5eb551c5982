//! A verified build pipeline for a package repository: manifest validation,
//! content-addressed digests, a deterministic text artifact codec, and an
//! incrementally merged index that persists across runs.

use vstd::prelude::*;

pub mod builder;
pub mod codec;
pub mod digest;
pub mod index;
pub mod json;
pub mod manifest;
pub mod package;
pub mod text;

verus! {

/// Everything that can go wrong while building a package repository from
/// in-memory values. Reading and writing the disk is the caller's business;
/// its failures are not listed here.
#[derive(Debug)]
pub enum Error {
    /// The manifest text is not a well-formed manifest document.
    ParseManifest,
    /// The manifest's author list is empty.
    MissingAuthors,
    /// The manifest's maintainer list is empty.
    MissingMaintainers,
    /// The manifest's license is not a valid SPDX expression; carries the
    /// SPDX parser's diagnostic.
    InvalidLicenseId(String),
    /// An artifact's text does not decode back to a package.
    DecodePackage,
    /// An existing index file's text is not a well-formed index document.
    DeserializeIndex,
}

/// Decide whether a directory argument names a usable directory.
///
/// The caller supplies what it observed of the path (whether it exists and
/// whether it is a directory); the path string is returned unchanged when it
/// is acceptable.
pub fn validate_dir_path(arg: String, exists: bool, is_dir: bool) -> (r: Result<String, String>)
    ensures
        r is Ok <==> (exists && is_dir),
        r matches Ok(p) ==> p@ == arg@,
        r matches Err(m) ==> m@ == "directory does not exist"@,
{
    if exists && is_dir {
        Ok(arg)
    } else {
        Err("directory does not exist".to_owned())
    }
}

} // verus!
