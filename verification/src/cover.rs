//! Where a cover image referenced by the upload form comes from.
//!
//! The form hands either raw image bytes (with an `image/…` content type)
//! or a string reference: `file://<path>` points into the file system,
//! `extracted-file://<name>` into the temporary directory the prober
//! extracts covers to.  Reading the bytes is the caller's I/O; parsing the
//! reference and the content-type check are decided here.

use vstd::prelude::*;

use crate::response::ApiError;

verus! {

/// Where the referenced cover image is read from.
pub enum CoverSource {
    /// An absolute path in the file system.
    FileSystem(String),
    /// A file name under the temporary extraction directory.
    Extracted(String),
}

/// Whether `s` starts with `p`.
pub fn has_prefix(s: &str, p: &str) -> (r: bool)
    ensures
        r == (s@.len() >= p@.len() && s@.subrange(0, p@.len() as int) == p@),
{
    let n = s.unicode_len();
    let m = p.unicode_len();
    if n < m {
        return false;
    }
    let mut i: usize = 0;
    while i < m
        invariant
            i <= m == p@.len(),
            m <= n == s@.len(),
            forall|k: int| 0 <= k < i ==> s@[k] == p@[k],
        decreases m - i,
    {
        if s.get_char(i) != p.get_char(i) {
            proof {
                assert(s@.subrange(0, m as int)[i as int] != p@[i as int]);
            }
            return false;
        }
        i = i + 1;
    }
    proof {
        assert(s@.subrange(0, m as int) =~= p@);
    }
    true
}

/// Parses a cover reference by its scheme: `file://` for a file-system
/// path, `extracted-file://` for an extracted file's name; anything else
/// is an invalid path.
pub fn resolve_cover_source(path: &str) -> (r: Result<CoverSource, ApiError>)
    ensures
        match r {
            Ok(src) => match src {
                CoverSource::FileSystem(p) => path@.len() >= 7 && path@.subrange(0, 7)
                    == "file://"@ && p@ == path@.subrange(7, path@.len() as int),
                CoverSource::Extracted(nm) => path@.len() >= 17 && path@.subrange(0, 17)
                    == "extracted-file://"@ && nm@ == path@.subrange(17, path@.len() as int),
            },
            Err(e) => e is InvalidPath,
        },
{
    proof {
        reveal_strlit("file://");
        reveal_strlit("extracted-file://");
    }
    if has_prefix(path, "file://") {
        let rest = path.substring_char(7, path.unicode_len());
        Ok(CoverSource::FileSystem(rest.to_owned()))
    } else if has_prefix(path, "extracted-file://") {
        let rest = path.substring_char(17, path.unicode_len());
        Ok(CoverSource::Extracted(rest.to_owned()))
    } else {
        Err(ApiError::InvalidPath)
    }
}

/// Whether a multipart field's content type announces an image.
pub fn is_image_content_type(content_type: &str) -> (r: bool)
    ensures
        r == (content_type@.len() >= 6 && content_type@.subrange(0, 6) == "image/"@),
{
    proof {
        reveal_strlit("image/");
    }
    has_prefix(content_type, "image/")
}

} // verus!
