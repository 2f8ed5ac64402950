//! Naming of the per-process temporary directory that extracted cover
//! images land in.  Creating the directory is the caller's I/O; the name —
//! a fixed prefix and a random suffix — is decided here.

use vstd::prelude::*;

use crate::session::random_string;

verus! {

/// Length of the random suffix in temporary file and directory names.
pub const RANDOM_FILE_NAME_LENGTH: usize = 12;

/// A fresh name for the temporary directory: `freya-` followed by a
/// random alphanumeric suffix.
pub fn tmp_dir_name() -> (r: String)
    ensures
        r@.len() == 6 + RANDOM_FILE_NAME_LENGTH,
        r@.subrange(0, 6) == "freya-"@,
{
    proof {
        reveal_strlit("freya-");
    }
    let mut s = String::from_str("freya-");
    let suffix = random_string(RANDOM_FILE_NAME_LENGTH);
    s.append(suffix.as_str());
    proof {
        assert(s@.subrange(0, 6) =~= "freya-"@);
    }
    s
}

} // verus!
