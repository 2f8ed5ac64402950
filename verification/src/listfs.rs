//! Categorization and ordering of file-system entries for the admin's
//! directory browser.  Reading the directory is I/O and stays with the
//! caller; what counts as audio, what is hidden, and how the listing is
//! ordered (directories first, then alphabetically) is decided here.

use vstd::prelude::*;

use crate::order::{lemma_lex_le_total, lemma_lex_le_trans, lex_le, str_le};
use crate::text::{last_occurrence, lemma_last_occurrence_bounds, str_eq};

verus! {

/// What kind of entry a directory listing shows.
#[derive(Debug, Clone, Copy, PartialEq, Eq, Structural)]
pub enum FileCategory {
    Directory,
    Audio,
    Image,
    File,
}

/// One entry of a directory listing.
pub struct Entry {
    pub name: String,
    pub path: String,
    pub category: FileCategory,
}

impl Clone for Entry {
    fn clone(&self) -> (r: Entry)
        ensures
            r == *self,
    {
        Entry { name: self.name.clone(), path: self.path.clone(), category: self.category }
    }
}

/// Query of the directory browser.
pub struct FsQuery {
    pub path: Option<String>,
}

/// Response of the directory browser: the listed path, its parent, and the
/// ordered entries.
pub struct FsResponse {
    pub path: String,
    pub parent_path: String,
    pub directory: Vec<Entry>,
}

/// Query for a cover image extracted into the temporary directory.
pub struct TemporaryCoverQuery {
    pub name: String,
}

/// The audio file extensions the browser recognizes.
pub open spec fn spec_is_audio_ext(ext: Seq<char>) -> bool {
    ||| ext == "mp3"@
    ||| ext == "flac"@
    ||| ext == "wav"@
    ||| ext == "ogg"@
    ||| ext == "m4a"@
    ||| ext == "m4b"@
    ||| ext == "opus"@
}

/// The image file extensions the browser recognizes.
pub open spec fn spec_is_image_ext(ext: Seq<char>) -> bool {
    ||| ext == "jpg"@
    ||| ext == "jpeg"@
    ||| ext == "png"@
    ||| ext == "webp"@
}

/// Whether `ext` is a recognized audio extension.
pub fn is_audio_extension(ext: &str) -> (r: bool)
    ensures
        r == spec_is_audio_ext(ext@),
{
    str_eq(ext, "mp3") || str_eq(ext, "flac") || str_eq(ext, "wav") || str_eq(ext, "ogg")
        || str_eq(ext, "m4a") || str_eq(ext, "m4b") || str_eq(ext, "opus")
}

/// Whether `ext` is a recognized image extension.
pub fn is_image_extension(ext: &str) -> (r: bool)
    ensures
        r == spec_is_image_ext(ext@),
{
    str_eq(ext, "jpg") || str_eq(ext, "jpeg") || str_eq(ext, "png") || str_eq(ext, "webp")
}

/// The category of an entry, from what the file system reports about it
/// and its extension.
pub open spec fn spec_category(is_dir: bool, is_file: bool, ext: Seq<char>) -> FileCategory {
    if is_dir {
        FileCategory::Directory
    } else if !is_file {
        FileCategory::File
    } else if spec_is_audio_ext(ext) {
        FileCategory::Audio
    } else if spec_is_image_ext(ext) {
        FileCategory::Image
    } else {
        FileCategory::File
    }
}

/// Categorizes an entry: directories as such; regular files by extension
/// (audio, image, or plain); anything else as a plain file.
pub fn categorize(is_dir: bool, is_file: bool, ext: &str) -> (r: FileCategory)
    ensures
        r == spec_category(is_dir, is_file, ext@),
{
    if is_dir {
        FileCategory::Directory
    } else if !is_file {
        FileCategory::File
    } else if is_audio_extension(ext) {
        FileCategory::Audio
    } else if is_image_extension(ext) {
        FileCategory::Image
    } else {
        FileCategory::File
    }
}

/// Whether a name marks a hidden entry (a leading dot), which the listing
/// skips.
pub fn is_hidden_name(name: &str) -> (r: bool)
    ensures
        r == (name@.len() > 0 && name@[0] == '.'),
{
    if name.unicode_len() == 0 {
        false
    } else {
        name.get_char(0) == '.'
    }
}

/// Listing order: directories before everything else, then by name.
pub open spec fn entry_le(a: Entry, b: Entry) -> bool {
    if a.category is Directory && !(b.category is Directory) {
        true
    } else if !(a.category is Directory) && b.category is Directory {
        false
    } else {
        lex_le(a.name@, b.name@)
    }
}

/// `entry_le` is total.
proof fn lemma_entry_le_total(a: Entry, b: Entry)
    ensures
        entry_le(a, b) || entry_le(b, a),
{
    lemma_lex_le_total(a.name@, b.name@);
}

/// `entry_le` is transitive.
proof fn lemma_entry_le_trans(a: Entry, b: Entry, c: Entry)
    requires
        entry_le(a, b),
        entry_le(b, c),
    ensures
        entry_le(a, c),
{
    if (a.category is Directory) == (b.category is Directory) && (b.category is Directory) == (
    c.category is Directory) {
        lemma_lex_le_trans(a.name@, b.name@, c.name@);
    }
}

/// Compares two entries in listing order.
fn entry_le_exec(a: &Entry, b: &Entry) -> (r: bool)
    ensures
        r == entry_le(*a, *b),
{
    let a_dir = matches!(a.category, FileCategory::Directory);
    let b_dir = matches!(b.category, FileCategory::Directory);
    if a_dir && !b_dir {
        true
    } else if !a_dir && b_dir {
        false
    } else {
        str_le(a.name.as_str(), b.name.as_str())
    }
}

/// Orders a directory listing: directories first, then alphabetically by
/// name.
pub fn sort_entries(input: Vec<Entry>) -> (r: Vec<Entry>)
    ensures
        r@.to_multiset() == input@.to_multiset(),
        r@.len() == input@.len(),
        forall|a: int, c: int| 0 <= a < c < r@.len() ==> entry_le(#[trigger] r@[a], #[trigger] r@[c]),
{
    broadcast use vstd::seq_lib::group_to_multiset_ensures;

    let n = input.len();
    let mut out: Vec<Entry> = Vec::new();
    let mut i: usize = 0;
    while i < n
        invariant
            i <= n == input@.len(),
            out@.len() == i,
            out@.to_multiset() == input@.subrange(0, i as int).to_multiset(),
            forall|a: int, c: int|
                0 <= a < c < out@.len() ==> entry_le(#[trigger] out@[a], #[trigger] out@[c]),
        decreases n - i,
    {
        broadcast use vstd::seq_lib::group_to_multiset_ensures;

        let ghost out1 = out@;
        let e = input[i].clone();
        let mut pos: usize = 0;
        while pos < out.len() && !entry_le_exec(&e, &out[pos])
            invariant
                pos <= out@.len(),
                out@ == out1,
                e == input@[i as int],
                forall|k: int| 0 <= k < pos ==> !entry_le(e, #[trigger] out@[k]),
            decreases out@.len() - pos,
        {
            pos = pos + 1;
        }
        out.insert(pos, e);
        proof {
            assert(input@.subrange(0, i + 1) =~= input@.subrange(0, i as int).push(
                input@[i as int],
            ));
            assert(out@.to_multiset() == input@.subrange(0, i + 1).to_multiset());
            assert forall|a: int, c: int| 0 <= a < c < out@.len() implies entry_le(
                #[trigger] out@[a],
                #[trigger] out@[c],
            ) by {
                let p = pos as int;
                let x = input@[i as int];
                if a < p && c < p {
                    assert(out@[a] == out1[a] && out@[c] == out1[c]);
                } else if a < p && c == p {
                    assert(out@[a] == out1[a] && out@[c] == x);
                    lemma_entry_le_total(x, out1[a]);
                } else if a < p && c > p {
                    assert(out@[a] == out1[a] && out@[c] == out1[c - 1]);
                } else if a == p {
                    assert(out@[a] == x && out@[c] == out1[c - 1]);
                    assert(p < out1.len());
                    assert(entry_le(x, out1[p]));
                    if c - 1 > p {
                        assert(entry_le(out1[p], out1[c - 1]));
                        lemma_entry_le_trans(x, out1[p], out1[c - 1]);
                    }
                } else {
                    assert(out@[a] == out1[a - 1] && out@[c] == out1[c - 1]);
                }
            }
        }
        i = i + 1;
    }
    proof {
        assert(input@.subrange(0, n as int) =~= input@);
        assert(out@.len() == out@.to_multiset().len());
        assert(input@.len() == input@.to_multiset().len());
    }
    out
}

/// The parent of a browsed path: everything before the last separator, or
/// the root when there is no separator or nothing before it.
pub fn parent_path(path: &str) -> (r: String)
    ensures
        r@ == if last_occurrence(path@, '/') > 0 {
            path@.subrange(0, last_occurrence(path@, '/'))
        } else {
            "/"@
        },
{
    proof {
        lemma_last_occurrence_bounds(path@, '/');
    }
    let n = path.unicode_len();
    let mut last: Option<usize> = None;
    let mut i: usize = 0;
    while i < n
        invariant
            i <= n == path@.len(),
            match last {
                Some(b) => b == last_occurrence(path@.subrange(0, i as int), '/'),
                None => last_occurrence(path@.subrange(0, i as int), '/') == -1,
            },
        decreases n - i,
    {
        proof {
            assert(path@.subrange(0, i + 1).drop_last() =~= path@.subrange(0, i as int));
            assert(path@.subrange(0, i + 1).last() == path@[i as int]);
        }
        if path.get_char(i) == '/' {
            last = Some(i);
        }
        i = i + 1;
    }
    proof {
        assert(path@.subrange(0, n as int) =~= path@);
    }
    match last {
        Some(cut) if cut > 0 => {
            let parent = path.substring_char(0, cut);
            parent.to_owned()
        },
        _ => String::from_str("/"),
    }
}

} // verus!
