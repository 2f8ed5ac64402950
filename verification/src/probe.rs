//! What the media prober reports about a file, and the selection rules
//! applied to it: which tags name the book's title and author, and how a
//! chapter without a title is named.  Running the prober and parsing its
//! output is the caller's I/O; the decisions are here.

use vstd::prelude::*;

use crate::digits::{dec_str, u64_to_string};
use crate::text::str_eq;

verus! {

/// The prober's report: streams and format-level metadata.
pub struct FFProbeOutput {
    pub streams: Option<Vec<FFProbeStream>>,
    pub format: Option<FFProbeFormat>,
}

/// One stream of the probed file.
pub struct FFProbeStream {
    pub codec_type: String,
    /// The stream duration as the prober prints it.
    pub duration: String,
}

/// Format-level metadata: tag names and values, in the prober's order.
pub struct FFProbeFormat {
    pub tags: Option<Vec<(String, String)>>,
}

/// What probing a file yields for the upload form.
pub struct FileInfo {
    pub title: Option<String>,
    pub author: Option<String>,
    pub cover: Option<String>,
}

/// The browse endpoint's probe response: the probed path and what was
/// found in it.
pub struct FfprobeResponse {
    pub path: String,
    pub info: FileInfo,
}

/// The value of the first tag named `k`, if any.
pub open spec fn spec_tag_value(tags: Seq<(String, String)>, k: Seq<char>) -> Option<String>
    decreases tags.len(),
{
    if tags.len() == 0 {
        Option::None
    } else if tags.first().0@ == k {
        Option::Some(tags.first().1)
    } else {
        spec_tag_value(tags.drop_first(), k)
    }
}

/// A prefix without the key does not affect the lookup.
proof fn lemma_tag_value_skip(tags: Seq<(String, String)>, k: Seq<char>, i: int)
    requires
        0 <= i <= tags.len(),
        forall|j: int| 0 <= j < i ==> (#[trigger] tags[j].0@) != k,
    ensures
        spec_tag_value(tags, k) == spec_tag_value(tags.subrange(i, tags.len() as int), k),
    decreases i,
{
    if i > 0 {
        let t1 = tags.drop_first();
        lemma_tag_value_skip(t1, k, i - 1);
        assert(t1.subrange(i - 1, t1.len() as int) =~= tags.subrange(i, tags.len() as int));
    } else {
        assert(tags.subrange(0, tags.len() as int) =~= tags);
    }
}

/// Looks up the first tag named `key`.
pub fn tag_value(tags: &Vec<(String, String)>, key: &str) -> (r: Option<String>)
    ensures
        r == spec_tag_value(tags@, key@),
{
    let n = tags.len();
    let mut i: usize = 0;
    while i < n
        invariant
            i <= n == tags@.len(),
            forall|j: int| 0 <= j < i ==> (#[trigger] tags@[j].0@) != key@,
        decreases n - i,
    {
        if str_eq(tags[i].0.as_str(), key) {
            proof {
                lemma_tag_value_skip(tags@, key@, i as int);
                assert(tags@.subrange(i as int, n as int).first() == tags@[i as int]);
            }
            return Some(tags[i].1.clone());
        }
        i = i + 1;
    }
    proof {
        lemma_tag_value_skip(tags@, key@, n as int);
    }
    None
}

/// Picks the book title and author out of format tags: the `album` tag
/// names the title, falling back to `title`; `author` names the author,
/// falling back to `artist`.
pub fn pick_book_tags(tags: &Vec<(String, String)>) -> (r: (Option<String>, Option<String>))
    ensures
        r.0 == if spec_tag_value(tags@, "album"@) is Some {
            spec_tag_value(tags@, "album"@)
        } else {
            spec_tag_value(tags@, "title"@)
        },
        r.1 == if spec_tag_value(tags@, "author"@) is Some {
            spec_tag_value(tags@, "author"@)
        } else {
            spec_tag_value(tags@, "artist"@)
        },
{
    let title = match tag_value(tags, "album") {
        Some(v) => Some(v),
        None => tag_value(tags, "title"),
    };
    let author = match tag_value(tags, "author") {
        Some(v) => Some(v),
        None => tag_value(tags, "artist"),
    };
    (title, author)
}

/// The display name of a probed chapter: its `title` tag, or `Chapter
/// <id>` when it carries none.
pub fn chapter_display_name(id: u64, title: Option<String>) -> (r: String)
    ensures
        r@ == match title {
            Some(t) => t@,
            None => "Chapter "@ + dec_str(id as nat),
        },
{
    match title {
        Some(t) => t,
        None => {
            let mut s = String::from_str("Chapter ");
            let digits = u64_to_string(id);
            s.append(digits.as_str());
            s
        },
    }
}

} // verus!
