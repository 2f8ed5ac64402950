//! Per-user, per-book listening state and the completion fraction.
//!
//! Each user has at most one library entry per book: the list it sits on,
//! the file currently being played, and the offset in seconds within that
//! file.  The entry is an upsert target: list changes and progress updates
//! write into the same row.  Switching to a different file invalidates the
//! stored in-file offset, which is therefore reset to zero.  The book-level
//! completion fraction is derived at read time from the catalog's ordered
//! file list and is never cached.

use vstd::prelude::*;

use crate::catalog::{duration_before, spec_first_file_id, total_duration, Catalog};
use crate::response::StorageError;

verus! {

/// The list a book sits on in a user's library.
#[derive(Debug, Clone, Copy, PartialEq, Eq, Structural)]
pub enum LibraryList {
    Listening,
    WantToListen,
    Finished,
    Abandoned,
}

impl LibraryList {
    /// The wire name of the list.
    pub fn as_str(&self) -> (r: &'static str)
        ensures
            r@ == match *self {
                LibraryList::Listening => "listening"@,
                LibraryList::WantToListen => "want_to_listen"@,
                LibraryList::Finished => "finished"@,
                LibraryList::Abandoned => "abandoned"@,
            },
    {
        match self {
            LibraryList::Listening => "listening",
            LibraryList::WantToListen => "want_to_listen",
            LibraryList::Finished => "finished",
            LibraryList::Abandoned => "abandoned",
        }
    }
}

/// One user's state for one book.
pub struct LibraryEntry {
    pub id: i64,
    pub user_id: i64,
    pub book_id: i64,
    /// The file being played; always one of the catalog's file ids when
    /// created through the accountant.
    pub file_id: i64,
    /// Offset in seconds within `file_id` — not a book-wide measure.
    pub progress: u64,
    pub list: LibraryList,
    pub created: i64,
    pub modified: i64,
}

impl Clone for LibraryEntry {
    fn clone(&self) -> (r: LibraryEntry)
        ensures
            r == *self,
    {
        LibraryEntry {
            id: self.id,
            user_id: self.user_id,
            book_id: self.book_id,
            file_id: self.file_id,
            progress: self.progress,
            list: self.list,
            created: self.created,
            modified: self.modified,
        }
    }
}

/// Whether some entry in `rows` belongs to (`u`, `b`).
pub open spec fn has_entry(rows: Seq<LibraryEntry>, u: i64, b: i64) -> bool {
    exists|i: int|
        0 <= i < rows.len() && (#[trigger] rows[i].user_id) == u && rows[i].book_id == b
}

/// Index of the entry of (`u`, `b`) — unique when the table is well-formed.
pub open spec fn entry_idx(rows: Seq<LibraryEntry>, u: i64, b: i64) -> int {
    choose|i: int|
        0 <= i < rows.len() && (#[trigger] rows[i].user_id) == u && rows[i].book_id == b
}

/// Well-formedness: ids dense, at most one entry per (user, book).
pub open spec fn entries_wf(rows: Seq<LibraryEntry>) -> bool {
    &&& rows.len() <= i64::MAX
    &&& forall|i: int| 0 <= i < rows.len() ==> (#[trigger] rows[i].id) == i + 1
    &&& forall|i: int, j: int|
        0 <= i < j < rows.len() ==> !((#[trigger] rows[i].user_id) == (
        #[trigger] rows[j].user_id) && rows[i].book_id == rows[j].book_id)
}

/// In a well-formed table, any index for (`u`, `b`) is the `entry_idx`.
pub proof fn lemma_entry_idx_is(rows: Seq<LibraryEntry>, u: i64, b: i64, i: int)
    requires
        entries_wf(rows),
        0 <= i < rows.len(),
        rows[i].user_id == u,
        rows[i].book_id == b,
    ensures
        has_entry(rows, u, b),
        entry_idx(rows, u, b) == i,
{
    assert(has_entry(rows, u, b));
    let j = entry_idx(rows, u, b);
    if i < j {
        assert(!(rows[i].user_id == rows[j].user_id && rows[i].book_id == rows[j].book_id));
    } else if j < i {
        assert(!(rows[j].user_id == rows[i].user_id && rows[j].book_id == rows[i].book_id));
    }
}

/// The rows after the library upsert of (`u`, `b`).
///
/// With an existing entry: the list is overwritten, a supplied file id that
/// differs from the stored one replaces it and resets the offset to zero
/// regardless of any supplied offset, otherwise a supplied offset is
/// written directly; `modified` always advances.  With no entry: one is
/// created, the file defaulting to the book's first file (`first`) and the
/// offset to zero.  `first` is the book's first file in playback order, as
/// the catalog supplies it.
pub open spec fn spec_manage_rows(
    rows: Seq<LibraryEntry>,
    u: i64,
    b: i64,
    list: LibraryList,
    fid: Option<i64>,
    prog: Option<u64>,
    first: Option<i64>,
    now: i64,
) -> Seq<LibraryEntry> {
    if has_entry(rows, u, b) {
        let i = entry_idx(rows, u, b);
        let e = rows[i];
        let new_file = if fid is Some {
            fid->0
        } else {
            e.file_id
        };
        let new_progress = if fid is Some && fid->0 != e.file_id {
            0u64
        } else if prog is Some {
            prog->0
        } else {
            e.progress
        };
        rows.update(
            i,
            LibraryEntry { file_id: new_file, progress: new_progress, list, modified: now, ..e },
        )
    } else if fid is Some || first is Some {
        let f = if fid is Some {
            fid->0
        } else {
            first->0
        };
        rows.push(
            LibraryEntry {
                id: (rows.len() + 1) as i64,
                user_id: u,
                book_id: b,
                file_id: f,
                progress: if prog is Some {
                    prog->0
                } else {
                    0u64
                },
                list,
                created: now,
                modified: now,
            },
        )
    } else {
        rows
    }
}

/// Whether the upsert can succeed: either the entry exists, or a file can
/// be determined for the new one.
pub open spec fn spec_manage_ok(
    rows: Seq<LibraryEntry>,
    u: i64,
    b: i64,
    fid: Option<i64>,
    first: Option<i64>,
) -> bool {
    has_entry(rows, u, b) || fid is Some || first is Some
}

/// An exact book-completion ratio: `num / den`, taken to be zero when
/// `den` is zero (a book with no files).
#[derive(Debug, Clone, Copy, PartialEq, Eq, Structural)]
pub struct Fraction {
    pub num: u128,
    pub den: u128,
}

/// The numerator of the completion fraction for an entry of book `b`
/// playing `file_id` at `progress` seconds: the duration of the files
/// before the current one, plus the in-file offset.  A file the catalog
/// does not attribute to this book contributes no preceding duration.
pub open spec fn spec_completion_num(
    files: Seq<crate::catalog::File>,
    b: i64,
    file_id: i64,
    progress: u64,
) -> nat {
    if 1 <= file_id <= files.len() && files[file_id - 1].book_id == b {
        (duration_before(files, b, files[file_id - 1].position as int) + progress) as nat
    } else {
        progress as nat
    }
}

/// The completion fraction for an entry of book `b`.
pub open spec fn spec_completion(
    files: Seq<crate::catalog::File>,
    b: i64,
    file_id: i64,
    progress: u64,
) -> Fraction {
    if total_duration(files, b) == 0 {
        Fraction { num: 0, den: 0 }
    } else {
        Fraction {
            num: spec_completion_num(files, b, file_id, progress) as u128,
            den: total_duration(files, b) as u128,
        }
    }
}

/// A book's total duration is bounded by one maximal file duration per
/// file row.
proof fn lemma_total_duration_bound(files: Seq<crate::catalog::File>, b: i64)
    ensures
        total_duration(files, b) <= files.len() * 0x1_0000_0000,
    decreases files.len(),
{
    if files.len() > 0 {
        lemma_total_duration_bound(files.drop_last(), b);
        assert((files.len() - 1) * 0x1_0000_0000 + 0x1_0000_0000 == files.len()
            * 0x1_0000_0000) by (nonlinear_arith);
    }
}

/// The duration of a book's files before position `pos` never exceeds the
/// book's total duration.
proof fn lemma_duration_before_le_total(files: Seq<crate::catalog::File>, b: i64, pos: int)
    ensures
        duration_before(files, b, pos) <= total_duration(files, b),
    decreases files.len(),
{
    if files.len() > 0 {
        lemma_duration_before_le_total(files.drop_last(), b, pos);
    }
}

/// Computes the completion fraction of book `b` for an entry playing
/// `file_id` at `progress` seconds, from the catalog's file list.  A book
/// with zero total duration yields the zero fraction — never a division
/// error.
pub fn completion_fraction(catalog: &Catalog, book_id: i64, file_id: i64, progress: u64) -> (f:
    Fraction)
    requires
        catalog.wf(),
    ensures
        f == spec_completion(catalog.files@, book_id, file_id, progress),
        total_duration(catalog.files@, book_id) == 0 ==> f.num == 0 && f.den == 0,
{
    let den = catalog.book_total_duration(book_id);
    if den == 0 {
        return Fraction { num: 0, den: 0 };
    }
    let before: u128 =
        if file_id >= 1 && file_id <= (catalog.files.len() as i64) {
        let file = &catalog.files[(file_id - 1) as usize];
        if file.book_id == book_id {
            catalog.book_duration_before(book_id, file.position)
        } else {
            0
        }
    } else {
        0
    };
    proof {
        lemma_duration_before_le_total(
            catalog.files@,
            book_id,
            if 1 <= file_id <= catalog.files@.len() {
                catalog.files@[file_id - 1].position as int
            } else {
                0
            },
        );
        lemma_total_duration_bound(catalog.files@, book_id);
        assert(catalog.files@.len() * 0x1_0000_0000 <= 0xffff_ffff_ffff_ffff_0000_0000u128)
            by (nonlinear_arith)
            requires
                catalog.files@.len() <= 0xffff_ffff_ffff_ffffu128,
        ;
    }
    Fraction { num: before + (progress as u128), den }
}

/// The accountant's store: at most one entry per (user, book).
pub struct LibraryTable {
    pub entries: Vec<LibraryEntry>,
}

impl LibraryTable {
    /// Ids dense, one entry per (user, book).
    pub open spec fn wf(self) -> bool {
        entries_wf(self.entries@)
    }

    /// An empty table.
    pub fn new() -> (r: LibraryTable)
        ensures
            r.wf(),
            r.entries@.len() == 0,
    {
        LibraryTable { entries: Vec::new() }
    }

    /// Index of the entry of (`user_id`, `book_id`), if any.
    fn find(&self, user_id: i64, book_id: i64) -> (r: Option<usize>)
        ensures
            match r {
                Some(i) => i < self.entries@.len() && self.entries@[i as int].user_id == user_id
                    && self.entries@[i as int].book_id == book_id,
                None => !has_entry(self.entries@, user_id, book_id),
            },
    {
        let n = self.entries.len();
        let mut i: usize = 0;
        while i < n
            invariant
                i <= n == self.entries@.len(),
                forall|k: int|
                    0 <= k < i ==> !((#[trigger] self.entries@[k].user_id) == user_id
                        && self.entries@[k].book_id == book_id),
            decreases n - i,
        {
            if self.entries[i].user_id == user_id && self.entries[i].book_id == book_id {
                return Some(i);
            }
            i = i + 1;
        }
        None
    }

    /// The user's entry for a book, if any.
    pub fn get_library_entry(&self, user_id: i64, book_id: i64) -> (r: Option<LibraryEntry>)
        requires
            self.wf(),
        ensures
            match r {
                Some(e) => {
                    &&& has_entry(self.entries@, user_id, book_id)
                    &&& e == self.entries@[entry_idx(self.entries@, user_id, book_id)]
                },
                None => !has_entry(self.entries@, user_id, book_id),
            },
    {
        match self.find(user_id, book_id) {
            Some(i) => {
                proof {
                    lemma_entry_idx_is(self.entries@, user_id, book_id, i as int);
                }
                Some(self.entries[i].clone())
            },
            None => None,
        }
    }

    /// Direct, unconditional progress write for an existing entry: the
    /// high-frequency path called during playback.  It does not re-derive
    /// list membership and performs no file-change reset; a missing entry
    /// makes it a no-op, as a storage `UPDATE` of no rows would be.
    pub fn update_progress(&mut self, user_id: i64, book_id: i64, file_id: i64, progress: u64, now: i64)
        requires
            old(self).wf(),
        ensures
            final(self).wf(),
            if has_entry(old(self).entries@, user_id, book_id) {
                final(self).entries@ == old(self).entries@.update(
                    entry_idx(old(self).entries@, user_id, book_id),
                    LibraryEntry {
                        file_id,
                        progress,
                        modified: now,
                        ..old(self).entries@[entry_idx(old(self).entries@, user_id, book_id)]
                    },
                )
            } else {
                final(self).entries@ == old(self).entries@
            },
    {
        match self.find(user_id, book_id) {
            Some(i) => {
                proof {
                    lemma_entry_idx_is(self.entries@, user_id, book_id, i as int);
                }
                self.entries[i].file_id = file_id;
                self.entries[i].progress = progress;
                self.entries[i].modified = now;
                proof {
                    let rows = self.entries@;
                    let orig = old(self).entries@;
                    assert(rows =~= orig.update(
                        i as int,
                        LibraryEntry { file_id, progress, modified: now, ..orig[i as int] },
                    ));
                    assert forall|a: int, c: int| 0 <= a < c < rows.len() implies !((
                    #[trigger] rows[a].user_id) == (#[trigger] rows[c].user_id) && rows[a].book_id
                        == rows[c].book_id) by {
                        assert(rows[a].user_id == orig[a].user_id && rows[a].book_id
                            == orig[a].book_id);
                        assert(rows[c].user_id == orig[c].user_id && rows[c].book_id
                            == orig[c].book_id);
                    }
                }
            },
            None => {},
        }
    }

    /// The library upsert: assigns the book to a list and, depending on
    /// what is supplied and stored, creates the entry, switches the
    /// current file (resetting the offset), or writes the offset.  Fails
    /// exactly when a new entry would be created for a book with no files
    /// and no file id was supplied.
    pub fn manage_library_entry(
        &mut self,
        catalog: &Catalog,
        user_id: i64,
        book_id: i64,
        list: LibraryList,
        file_id: Option<i64>,
        progress: Option<u64>,
        now: i64,
    ) -> (r: Result<(), StorageError>)
        requires
            old(self).wf(),
            catalog.wf(),
            old(self).entries@.len() + 1 <= i64::MAX,
        ensures
            final(self).wf(),
            r is Ok <==> spec_manage_ok(
                old(self).entries@,
                user_id,
                book_id,
                file_id,
                spec_first_file_id(catalog.files@, book_id),
            ),
            r is Ok ==> final(self).entries@ == spec_manage_rows(
                old(self).entries@,
                user_id,
                book_id,
                list,
                file_id,
                progress,
                spec_first_file_id(catalog.files@, book_id),
                now,
            ),
            r is Err ==> final(self).entries@ == old(self).entries@,
    {
        match self.find(user_id, book_id) {
            Some(i) => {
                proof {
                    lemma_entry_idx_is(self.entries@, user_id, book_id, i as int);
                }
                let stored_file = self.entries[i].file_id;
                match file_id {
                    Some(f) => {
                        self.entries[i].file_id = f;
                        if f != stored_file {
                            self.entries[i].progress = 0;
                        } else {
                            match progress {
                                Some(p) => {
                                    self.entries[i].progress = p;
                                },
                                None => {},
                            }
                        }
                    },
                    None => {
                        match progress {
                            Some(p) => {
                                self.entries[i].progress = p;
                            },
                            None => {},
                        }
                    },
                }
                self.entries[i].list = list;
                self.entries[i].modified = now;
                proof {
                    let rows = self.entries@;
                    let orig = old(self).entries@;
                    assert(rows =~= spec_manage_rows(
                        orig,
                        user_id,
                        book_id,
                        list,
                        file_id,
                        progress,
                        spec_first_file_id(catalog.files@, book_id),
                        now,
                    ));
                    assert forall|a: int, c: int| 0 <= a < c < rows.len() implies !((
                    #[trigger] rows[a].user_id) == (#[trigger] rows[c].user_id) && rows[a].book_id
                        == rows[c].book_id) by {
                        assert(rows[a].user_id == orig[a].user_id && rows[a].book_id
                            == orig[a].book_id);
                        assert(rows[c].user_id == orig[c].user_id && rows[c].book_id
                            == orig[c].book_id);
                    }
                }
                Ok(())
            },
            None => {
                let file = match file_id {
                    Some(f) => f,
                    None => {
                        match catalog.first_file_id(book_id) {
                            Some(f) => f,
                            None => {
                                return Err(StorageError::NotFound);
                            },
                        }
                    },
                };
                let entry = LibraryEntry {
                    id: (self.entries.len() as i64) + 1,
                    user_id,
                    book_id,
                    file_id: file,
                    progress: match progress {
                        Some(p) => p,
                        None => 0,
                    },
                    list,
                    created: now,
                    modified: now,
                };
                self.entries.push(entry);
                proof {
                    let rows = self.entries@;
                    let orig = old(self).entries@;
                    assert forall|a: int, c: int| 0 <= a < c < rows.len() implies !((
                    #[trigger] rows[a].user_id) == (#[trigger] rows[c].user_id) && rows[a].book_id
                        == rows[c].book_id) by {
                        if c < orig.len() {
                            assert(rows[a] == orig[a] && rows[c] == orig[c]);
                        } else {
                            assert(rows[a] == orig[a]);
                            assert(rows[c] == rows.last());
                        }
                    }
                }
                Ok(())
            },
        }
    }
}

/// Idempotence of the upsert: a second call with the same arguments leaves
/// the current file and the offset as the first call set them, and only
/// advances `modified`.  The one exception is excluded by the last
/// premise: a first call that switched files while also supplying an
/// offset resets the offset, which the second call would then write.
pub proof fn lemma_manage_idempotent(
    rows: Seq<LibraryEntry>,
    u: i64,
    b: i64,
    list: LibraryList,
    fid: Option<i64>,
    prog: Option<u64>,
    first: Option<i64>,
    t1: i64,
    t2: i64,
)
    requires
        entries_wf(rows),
        spec_manage_ok(rows, u, b, fid, first),
        rows.len() + 1 <= i64::MAX,
        !(has_entry(rows, u, b) && fid is Some && prog is Some && fid->0 != rows[entry_idx(
            rows,
            u,
            b,
        )].file_id),
    ensures
        ({
            let r1 = spec_manage_rows(rows, u, b, list, fid, prog, first, t1);
            let r2 = spec_manage_rows(r1, u, b, list, fid, prog, first, t2);
            &&& has_entry(r1, u, b)
            &&& r2 == r1.update(
                entry_idx(r1, u, b),
                LibraryEntry { modified: t2, ..r1[entry_idx(r1, u, b)] },
            )
            &&& r2[entry_idx(r2, u, b)].file_id == r1[entry_idx(r1, u, b)].file_id
            &&& r2[entry_idx(r2, u, b)].progress == r1[entry_idx(r1, u, b)].progress
            &&& r2[entry_idx(r2, u, b)].modified == t2
        }),
{
    let r1 = spec_manage_rows(rows, u, b, list, fid, prog, first, t1);
    if has_entry(rows, u, b) {
        let i = entry_idx(rows, u, b);
        lemma_entries_wf_update(rows, i, r1[i]);
        lemma_entry_idx_is(r1, u, b, i);
        let r2 = spec_manage_rows(r1, u, b, list, fid, prog, first, t2);
        lemma_entry_idx_is(r2, u, b, i);
        assert(r2 =~= r1.update(i, LibraryEntry { modified: t2, ..r1[i] }));
    } else {
        let i = rows.len() as int;
        lemma_entries_wf_push(rows, r1.last());
        lemma_entry_idx_is(r1, u, b, i);
        let r2 = spec_manage_rows(r1, u, b, list, fid, prog, first, t2);
        lemma_entry_idx_is(r2, u, b, i);
        assert(r2 =~= r1.update(i, LibraryEntry { modified: t2, ..r1[i] }));
    }
}

/// Switching files always resets the offset: when the upsert is given a
/// file id that differs from the stored one, the entry ends at offset
/// zero, whatever offset argument was supplied alongside.
pub proof fn lemma_file_change_resets_progress(
    rows: Seq<LibraryEntry>,
    u: i64,
    b: i64,
    list: LibraryList,
    f: i64,
    prog: Option<u64>,
    first: Option<i64>,
    now: i64,
)
    requires
        entries_wf(rows),
        has_entry(rows, u, b),
        rows[entry_idx(rows, u, b)].file_id != f,
    ensures
        ({
            let r1 = spec_manage_rows(rows, u, b, list, Some(f), prog, first, now);
            let e = r1[entry_idx(rows, u, b)];
            &&& e.file_id == f
            &&& e.progress == 0
            &&& e.list == list
            &&& e.modified == now
        }),
{
}

/// Updating an entry in place preserves table well-formedness when the
/// replacement keeps the id and the (user, book) key.
proof fn lemma_entries_wf_update(rows: Seq<LibraryEntry>, i: int, e: LibraryEntry)
    requires
        entries_wf(rows),
        0 <= i < rows.len(),
        e.id == rows[i].id,
        e.user_id == rows[i].user_id,
        e.book_id == rows[i].book_id,
    ensures
        entries_wf(rows.update(i, e)),
{
    let rows2 = rows.update(i, e);
    assert forall|a: int, c: int| 0 <= a < c < rows2.len() implies !((
    #[trigger] rows2[a].user_id) == (#[trigger] rows2[c].user_id) && rows2[a].book_id
        == rows2[c].book_id) by {
        assert(rows2[a].user_id == rows[a].user_id && rows2[a].book_id == rows[a].book_id);
        assert(rows2[c].user_id == rows[c].user_id && rows2[c].book_id == rows[c].book_id);
    }
}

/// Appending a fresh (user, book) entry with the next id preserves table
/// well-formedness.
proof fn lemma_entries_wf_push(rows: Seq<LibraryEntry>, e: LibraryEntry)
    requires
        entries_wf(rows),
        rows.len() + 1 <= i64::MAX,
        e.id == rows.len() + 1,
        !has_entry(rows, e.user_id, e.book_id),
    ensures
        entries_wf(rows.push(e)),
{
    let rows2 = rows.push(e);
    assert forall|a: int, c: int| 0 <= a < c < rows2.len() implies !((
    #[trigger] rows2[a].user_id) == (#[trigger] rows2[c].user_id) && rows2[a].book_id
        == rows2[c].book_id) by {
        if c < rows.len() {
            assert(rows2[a] == rows[a] && rows2[c] == rows[c]);
        } else {
            assert(rows2[a] == rows[a]);
            assert(rows2[c] == e);
        }
    }
}

/// One line of a user's library listing: the book, the list it sits on,
/// and the completion fraction derived at read time.
pub struct LibraryRow {
    /// The book's id.
    pub id: i64,
    pub title: String,
    pub author: String,
    pub list: LibraryList,
    pub progress: Fraction,
    /// When the underlying entry was last touched; the listing is ordered
    /// by it, most recent first.
    pub modified: i64,
}

/// Whether an entry shows up in its user's library listing: the user
/// matches and both the book and the current file still exist in the
/// catalog (the listing joins on both).
pub open spec fn entry_listed(cat: Catalog, e: LibraryEntry, u: i64) -> bool {
    e.user_id == u && cat.spec_has_book(e.book_id) && cat.spec_has_file(e.file_id)
}

/// Number of entries that show up in `u`'s listing.
pub open spec fn count_visible(rows: Seq<LibraryEntry>, u: i64, cat: Catalog) -> nat
    decreases rows.len(),
{
    if rows.len() == 0 {
        0
    } else {
        count_visible(rows.drop_last(), u, cat) + if entry_listed(cat, rows.last(), u) {
            1nat
        } else {
            0nat
        }
    }
}

/// Whether `row` is the listing line of entry `e`.
pub open spec fn row_matches(cat: Catalog, e: LibraryEntry, row: LibraryRow) -> bool {
    &&& row.id == e.book_id
    &&& row.title == cat.spec_book(e.book_id).title
    &&& row.author == cat.spec_book(e.book_id).author
    &&& row.list == e.list
    &&& row.modified == e.modified
    &&& row.progress == spec_completion(cat.files@, e.book_id, e.file_id, e.progress)
}

/// Whether `row` is the listing line of some entry of `u` in `rows`.
pub open spec fn row_ok(cat: Catalog, rows: Seq<LibraryEntry>, u: i64, row: LibraryRow) -> bool {
    exists|e: LibraryEntry|
        #[trigger] rows.contains(e) && entry_listed(cat, e, u) && row_matches(cat, e, row)
}

/// Orders library entries by `modified`, most recent first.
fn sort_entries_by_modified_desc(input: Vec<LibraryEntry>) -> (r: Vec<LibraryEntry>)
    ensures
        r@.to_multiset() == input@.to_multiset(),
        r@.len() == input@.len(),
        forall|a: int, c: int|
            0 <= a < c < r@.len() ==> (#[trigger] r@[a].modified) >= (#[trigger] r@[c].modified),
{
    broadcast use vstd::seq_lib::group_to_multiset_ensures;

    let n = input.len();
    let mut out: Vec<LibraryEntry> = Vec::new();
    let mut i: usize = 0;
    while i < n
        invariant
            i <= n == input@.len(),
            out@.len() == i,
            out@.to_multiset() == input@.subrange(0, i as int).to_multiset(),
            forall|a: int, c: int|
                0 <= a < c < out@.len() ==> (#[trigger] out@[a].modified) >= (
                #[trigger] out@[c].modified),
        decreases n - i,
    {
        broadcast use vstd::seq_lib::group_to_multiset_ensures;

        let ghost out1 = out@;
        let e = input[i].clone();
        let mut pos: usize = 0;
        while pos < out.len() && out[pos].modified > e.modified
            invariant
                pos <= out@.len(),
                out@ == out1,
                e == input@[i as int],
                forall|k: int| 0 <= k < pos ==> (#[trigger] out@[k].modified) > e.modified,
            decreases out@.len() - pos,
        {
            pos = pos + 1;
        }
        out.insert(pos, e);
        proof {
            assert(input@.subrange(0, i + 1) =~= input@.subrange(0, i as int).push(
                input@[i as int],
            ));
            assert(out@.to_multiset() == input@.subrange(0, i + 1).to_multiset());
            assert forall|a: int, c: int| 0 <= a < c < out@.len() implies (
            #[trigger] out@[a].modified) >= (#[trigger] out@[c].modified) by {
                let p = pos as int;
                if a < p && c < p {
                    assert(out@[a] == out1[a] && out@[c] == out1[c]);
                } else if a < p && c == p {
                    assert(out@[a] == out1[a]);
                } else if a < p && c > p {
                    assert(out@[a] == out1[a] && out@[c] == out1[c - 1]);
                } else if a == p {
                    assert(out@[c] == out1[c - 1]);
                    assert(p < out1.len());
                    assert(out1[p].modified <= e.modified);
                    assert(out1[p].modified >= out1[c - 1].modified);
                } else {
                    assert(out@[a] == out1[a - 1] && out@[c] == out1[c - 1]);
                }
            }
        }
        i = i + 1;
    }
    proof {
        assert(input@.subrange(0, n as int) =~= input@);
        assert(out@.len() == out@.to_multiset().len());
        assert(input@.len() == input@.to_multiset().len());
    }
    out
}

impl LibraryTable {
    /// The user's library listing: one line per entry whose book and
    /// current file still exist, carrying the book, the list, and the
    /// completion fraction computed from the catalog at read time, ordered
    /// by `modified` descending (most recently touched first).
    pub fn get_user_library(&self, catalog: &Catalog, user_id: i64) -> (r: Vec<LibraryRow>)
        requires
            self.wf(),
            catalog.wf(),
        ensures
            r@.len() == count_visible(self.entries@, user_id, *catalog),
            forall|k: int|
                0 <= k < r@.len() ==> row_ok(*catalog, self.entries@, user_id, #[trigger] r@[k]),
            forall|a: int, c: int|
                0 <= a < c < r@.len() ==> (#[trigger] r@[a].modified) >= (
                #[trigger] r@[c].modified),
            // One line per book: the listed rows never repeat a book.
            forall|a: int, c: int|
                0 <= a < c < r@.len() ==> (#[trigger] r@[a].id) != (#[trigger] r@[c].id),
    {
        broadcast use vstd::seq_lib::group_to_multiset_ensures;

        let n = self.entries.len();
        let mut mine: Vec<LibraryEntry> = Vec::new();
        let mut i: usize = 0;
        while i < n
            invariant
                i <= n == self.entries@.len(),
                self.wf(),
                catalog.wf(),
                mine@.len() == count_visible(self.entries@.subrange(0, i as int), user_id, *catalog),
                forall|k: int|
                    0 <= k < mine@.len() ==> self.entries@.contains(#[trigger] mine@[k])
                        && entry_listed(*catalog, mine@[k], user_id),
                forall|k: int|
                    0 <= k < mine@.len() ==> exists|idx: int|
                        0 <= idx < i && (#[trigger] mine@[k]) == self.entries@[idx],
                forall|a: int, c: int|
                    0 <= a < c < mine@.len() ==> (#[trigger] mine@[a].book_id) != (
                    #[trigger] mine@[c].book_id),
            decreases n - i,
        {
            proof {
                assert(self.entries@.subrange(0, i + 1).drop_last() =~= self.entries@.subrange(
                    0,
                    i as int,
                ));
                assert(self.entries@.subrange(0, i + 1).last() == self.entries@[i as int]);
            }
            let ghost mine_before = mine@;
            let e = &self.entries[i];
            if e.user_id == user_id && e.book_id >= 1 && e.book_id <= (catalog.books.len() as i64)
                && e.file_id >= 1 && e.file_id <= (catalog.files.len() as i64) {
                mine.push(e.clone());
                proof {
                    assert(self.entries@.contains(self.entries@[i as int]));
                    // The new entry's book differs from every book already
                    // collected: the table holds one entry per (user, book).
                    assert forall|a: int, c: int| 0 <= a < c < mine@.len() implies (
                    #[trigger] mine@[a].book_id) != (#[trigger] mine@[c].book_id) by {
                        if c < mine_before.len() {
                            assert(mine@[a] == mine_before[a] && mine@[c] == mine_before[c]);
                        } else {
                            assert(mine@[a] == mine_before[a]);
                            assert(mine@[c] == self.entries@[i as int]);
                            let idx = choose|idx: int|
                                0 <= idx < i && mine_before[a] == self.entries@[idx];
                            assert(!(self.entries@[idx].user_id == self.entries@[i as int].user_id
                                && self.entries@[idx].book_id == self.entries@[i as int].book_id));
                        }
                    }
                }
            }
            i = i + 1;
        }
        proof {
            assert(self.entries@.subrange(0, n as int) =~= self.entries@);
        }
        let ghost mine_rows = mine@;
        let sorted = sort_entries_by_modified_desc(mine);
        proof {
            assert forall|k: int| 0 <= k < sorted@.len() implies self.entries@.contains(
                #[trigger] sorted@[k],
            ) && entry_listed(*catalog, sorted@[k], user_id) by {
                assert(sorted@.contains(sorted@[k]));
                assert(sorted@.to_multiset().count(sorted@[k]) > 0);
            }
            // Distinct books survive the permutation: the collected rows
            // are pairwise distinct, so each occurs once in the multiset,
            // so the sorted rows are pairwise distinct too — and any two
            // distinct collected rows carry different books.
            assert(mine_rows.no_duplicates()) by {
                assert forall|a: int, c: int|
                    0 <= a < mine_rows.len() && 0 <= c < mine_rows.len() && a != c implies
                mine_rows[a] != mine_rows[c] by {
                    if a < c {
                        assert(mine_rows[a].book_id != mine_rows[c].book_id);
                    } else {
                        assert(mine_rows[c].book_id != mine_rows[a].book_id);
                    }
                }
            }
            mine_rows.lemma_multiset_has_no_duplicates();
            sorted@.lemma_multiset_has_no_duplicates_conv();
            assert forall|a: int, c: int| 0 <= a < c < sorted@.len() implies (
            #[trigger] sorted@[a].book_id) != (#[trigger] sorted@[c].book_id) by {
                assert(sorted@[a] != sorted@[c]);
                assert(sorted@.to_multiset().count(sorted@[a]) > 0);
                assert(sorted@.to_multiset().count(sorted@[c]) > 0);
                assert(mine_rows.contains(sorted@[a]));
                assert(mine_rows.contains(sorted@[c]));
                let ia = choose|ia: int| 0 <= ia < mine_rows.len() && mine_rows[ia] == sorted@[a];
                let ic = choose|ic: int| 0 <= ic < mine_rows.len() && mine_rows[ic] == sorted@[c];
                assert(ia != ic);
                if ia < ic {
                    assert(mine_rows[ia].book_id != mine_rows[ic].book_id);
                } else {
                    assert(mine_rows[ic].book_id != mine_rows[ia].book_id);
                }
            }
        }
        let m = sorted.len();
        let mut out: Vec<LibraryRow> = Vec::new();
        let mut k: usize = 0;
        while k < m
            invariant
                k <= m == sorted@.len(),
                self.wf(),
                catalog.wf(),
                out@.len() == k,
                forall|j: int|
                    0 <= j < sorted@.len() ==> self.entries@.contains(#[trigger] sorted@[j])
                        && entry_listed(*catalog, sorted@[j], user_id),
                forall|j: int|
                    0 <= j < k ==> row_ok(*catalog, self.entries@, user_id, #[trigger] out@[j]),
                forall|j: int| 0 <= j < k ==> (#[trigger] out@[j].modified) == sorted@[j].modified,
                forall|j: int| 0 <= j < k ==> (#[trigger] out@[j].id) == sorted@[j].book_id,
                forall|a: int, c: int|
                    0 <= a < c < sorted@.len() ==> (#[trigger] sorted@[a].modified) >= (
                    #[trigger] sorted@[c].modified),
                forall|a: int, c: int|
                    0 <= a < c < sorted@.len() ==> (#[trigger] sorted@[a].book_id) != (
                    #[trigger] sorted@[c].book_id),
            decreases m - k,
        {
            let e = &sorted[k];
            let book = match catalog.get_book(e.book_id) {
                Some(b) => b,
                None => {
                    proof {
                        assert(entry_listed(*catalog, sorted@[k as int], user_id));
                    }
                    vstd::pervasive::unreached()
                },
            };
            let frac = completion_fraction(catalog, e.book_id, e.file_id, e.progress);
            let row = LibraryRow {
                id: e.book_id,
                title: book.title,
                author: book.author,
                list: e.list,
                progress: frac,
                modified: e.modified,
            };
            out.push(row);
            proof {
                let ghost ew = sorted@[k as int];
                assert(row_matches(*catalog, ew, out@.last()));
                assert(row_ok(*catalog, self.entries@, user_id, out@.last()));
            }
            k = k + 1;
        }
        out
    }
}

} // verus!
