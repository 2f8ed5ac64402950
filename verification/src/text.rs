//! Text normalization used on user input: trimming, Unicode lowercasing,
//! and the underscore-to-space substitution applied to file names.
//!
//! Trimming and lowercasing are Unicode-table work and are left to the
//! standard library; their results are named (`trim_of`, `lower_of`) so
//! contracts can speak of them exactly.

use vstd::prelude::*;

verus! {

/// The characters of `s` with leading and trailing whitespace removed.
pub uninterp spec fn trim_of(s: Seq<char>) -> Seq<char>;

/// The characters of `s`, Unicode-lowercased.
pub uninterp spec fn lower_of(s: Seq<char>) -> Seq<char>;

/// Removes leading and trailing whitespace.
/// Relies on `str::trim`: the result is a substring of the input, and an
/// empty input stays empty.
#[verifier::external_body]
pub(crate) fn trim_str<'a>(s: &'a str) -> (r: &'a str)
    ensures
        r@ == trim_of(s@),
        r@.len() <= s@.len(),
        s@.len() == 0 ==> r@.len() == 0,
{
    s.trim()
}

/// Lowercases the string.
/// Relies on `str::to_lowercase`: the result depends on the characters
/// alone, and an empty input stays empty.
#[verifier::external_body]
pub(crate) fn to_lowercase_str(s: &str) -> (r: String)
    ensures
        r@ == lower_of(s@),
        s@.len() == 0 ==> r@.len() == 0,
{
    s.to_lowercase()
}

/// Replaces each underscore with a space.
/// Relies on `str::replace` with a one-character pattern and a
/// one-character replacement, which maps characters one for one.
#[verifier::external_body]
pub(crate) fn replace_underscores(s: &str) -> (r: String)
    ensures
        r@ == s@.map_values(
            |c: char|
                if c == '_' {
                    ' '
                } else {
                    c
                },
        ),
{
    s.replace('_', " ")
}

/// Trims and lowercases, as login names are normalized.
pub fn normalize_username(s: &str) -> (r: String)
    ensures
        r@ == lower_of(trim_of(s@)),
{
    to_lowercase_str(trim_str(s))
}

/// String equality.
/// Relies on `str`'s `==` (`PartialEq::eq`), which compares contents.
#[verifier::external_body]
pub(crate) fn str_eq(a: &str, b: &str) -> (r: bool)
    ensures
        r == (a@ == b@),
{
    a == b
}

/// Index of the last occurrence of `c` in `s`, or `-1`.
pub open spec fn last_occurrence(s: Seq<char>, c: char) -> int
    decreases s.len(),
{
    if s.len() == 0 {
        -1
    } else if s.last() == c {
        s.len() - 1
    } else {
        last_occurrence(s.drop_last(), c)
    }
}

/// Where the file name starts in a path: right after the last separator.
pub open spec fn name_start(s: Seq<char>) -> int {
    last_occurrence(s, '/') + 1
}

/// Where the file stem ends: at the last dot, provided it falls after the
/// file name's first character (a leading dot marks a hidden file, not an
/// extension); at the end of the path otherwise.
pub open spec fn stem_end(s: Seq<char>) -> int {
    let d = last_occurrence(s, '.');
    if d > name_start(s) {
        d
    } else {
        s.len() as int
    }
}

/// The display name derived from an uploaded file's path: the file stem
/// with underscores turned into spaces, or the path itself when no stem
/// can be cut out of it.
pub open spec fn spec_derived_file_name(s: Seq<char>) -> Seq<char> {
    if name_start(s) < stem_end(s) {
        s.subrange(name_start(s), stem_end(s)).map_values(
            |c: char|
                if c == '_' {
                    ' '
                } else {
                    c
                },
        )
    } else {
        s
    }
}

/// `last_occurrence` stays in bounds.
pub proof fn lemma_last_occurrence_bounds(s: Seq<char>, c: char)
    ensures
        -1 <= last_occurrence(s, c) < s.len(),
    decreases s.len(),
{
    if s.len() > 0 && s.last() != c {
        lemma_last_occurrence_bounds(s.drop_last(), c);
    }
}

/// Index of the last occurrence of `c`, if any.
fn find_last(s: &str, c: char) -> (r: Option<usize>)
    ensures
        match r {
            Some(i) => i == last_occurrence(s@, c),
            None => last_occurrence(s@, c) == -1,
        },
{
    let n = s.unicode_len();
    let mut best: Option<usize> = None;
    let mut i: usize = 0;
    while i < n
        invariant
            i <= n == s@.len(),
            match best {
                Some(b) => b == last_occurrence(s@.subrange(0, i as int), c),
                None => last_occurrence(s@.subrange(0, i as int), c) == -1,
            },
        decreases n - i,
    {
        proof {
            assert(s@.subrange(0, i + 1).drop_last() =~= s@.subrange(0, i as int));
            assert(s@.subrange(0, i + 1).last() == s@[i as int]);
        }
        if s.get_char(i) == c {
            best = Some(i);
        }
        i = i + 1;
    }
    proof {
        assert(s@.subrange(0, n as int) =~= s@);
    }
    best
}

/// Derives a file's display name from its path: the part after the last
/// separator, without the extension, with underscores turned into spaces;
/// the path itself when no name can be cut out of it (it ends in a
/// separator).
pub fn derive_file_name(path: &str) -> (r: String)
    ensures
        r@ == spec_derived_file_name(path@),
{
    let n = path.unicode_len();
    proof {
        lemma_last_occurrence_bounds(path@, '/');
        lemma_last_occurrence_bounds(path@, '.');
    }
    let ns: usize = match find_last(path, '/') {
        Some(i) => i + 1,
        None => 0,
    };
    let se: usize = match find_last(path, '.') {
        Some(d) => {
            if d > ns {
                d
            } else {
                n
            }
        },
        None => n,
    };
    if ns < se {
        let stem = path.substring_char(ns, se);
        replace_underscores(stem)
    } else {
        path.to_owned()
    }
}

} // verus!
