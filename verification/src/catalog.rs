//! The book catalog: books, their ordered audio files, and chapters.
//!
//! The catalog is consumed read-only by the streaming and progress
//! subsystems.  Its key invariant is the playback order: within one book
//! the files' `position` values are `1, 2, …` in storage order, so the file
//! list the streamer and the progress accountant see is a contiguous total
//! order.  Row ids are assigned densely (`id == index + 1`), as an
//! autoincrementing row id would.

use vstd::prelude::*;

use crate::order::{lemma_lex_le_total, lemma_lex_le_trans, lex_le, str_le};

verus! {

/// A book row, as read by the API (the cover image is fetched separately).
pub struct Book {
    pub id: i64,
    pub title: String,
    pub author: String,
    /// Total duration of the book's files, in seconds; absent on listings
    /// that do not compute it.
    pub duration: Option<u128>,
    pub created: i64,
    pub modified: i64,
}

impl Clone for Book {
    fn clone(&self) -> (r: Book)
        ensures
            r == *self,
    {
        Book {
            id: self.id,
            title: self.title.clone(),
            author: self.author.clone(),
            duration: match &self.duration {
                Some(d) => Some(*d),
                None => None,
            },
            created: self.created,
            modified: self.modified,
        }
    }
}

/// A stored book row: a [`Book`] plus its cover image.
pub struct BookRecord {
    pub id: i64,
    pub title: String,
    pub author: String,
    pub cover: Option<Vec<u8>>,
    pub created: i64,
    pub modified: i64,
}

/// One audio file of a book.
pub struct File {
    pub id: i64,
    pub book_id: i64,
    pub path: String,
    pub name: String,
    /// 1-based playback position within the book.
    pub position: i64,
    /// Duration in whole seconds.
    pub duration: u32,
    pub created: i64,
    pub modified: i64,
}

impl Clone for File {
    fn clone(&self) -> (r: File)
        ensures
            r == *self,
    {
        File {
            id: self.id,
            book_id: self.book_id,
            path: self.path.clone(),
            name: self.name.clone(),
            position: self.position,
            duration: self.duration,
            created: self.created,
            modified: self.modified,
        }
    }
}

/// What an upload contributes per audio file: where it lives, its display
/// name, and its probed duration in seconds.
pub struct FileData {
    pub path: String,
    pub name: String,
    pub duration: u32,
}

impl Clone for FileData {
    fn clone(&self) -> (r: FileData)
        ensures
            r == *self,
    {
        FileData {
            path: self.path.clone(),
            name: self.name.clone(),
            duration: self.duration,
        }
    }
}

/// A chapter marker within a book, in whole seconds.
pub struct Chapter {
    pub id: i64,
    pub book_id: i64,
    pub name: String,
    pub start: u32,
    pub end: u32,
}

impl Clone for Chapter {
    fn clone(&self) -> (r: Chapter)
        ensures
            r == *self,
    {
        Chapter {
            id: self.id,
            book_id: self.book_id,
            name: self.name.clone(),
            start: self.start,
            end: self.end,
        }
    }
}

/// Chapter data as probed from a file.
pub struct ChapterData {
    pub name: String,
    pub start: u32,
    pub end: u32,
}

/// Number of files in `files` that belong to book `b`.
pub open spec fn count_book(files: Seq<File>, b: i64) -> nat
    decreases files.len(),
{
    if files.len() == 0 {
        0
    } else {
        count_book(files.drop_last(), b) + if files.last().book_id == b {
            1nat
        } else {
            0nat
        }
    }
}

/// Total duration, in seconds, of the files of book `b`.
pub open spec fn total_duration(files: Seq<File>, b: i64) -> nat
    decreases files.len(),
{
    if files.len() == 0 {
        0
    } else {
        total_duration(files.drop_last(), b) + if files.last().book_id == b {
            files.last().duration as nat
        } else {
            0nat
        }
    }
}

/// Total duration of the files of book `b` with position strictly below
/// `pos`: the audio that precedes the file at `pos` in playback order.
pub open spec fn duration_before(files: Seq<File>, b: i64, pos: int) -> nat
    decreases files.len(),
{
    if files.len() == 0 {
        0
    } else {
        duration_before(files.drop_last(), b, pos) + if files.last().book_id == b
            && files.last().position < pos {
            files.last().duration as nat
        } else {
            0nat
        }
    }
}

/// The files of book `b`, in storage order.
pub open spec fn book_files(files: Seq<File>, b: i64) -> Seq<File>
    decreases files.len(),
{
    if files.len() == 0 {
        Seq::empty()
    } else if files.last().book_id == b {
        book_files(files.drop_last(), b).push(files.last())
    } else {
        book_files(files.drop_last(), b)
    }
}

/// The catalog of books, files and chapters.
pub struct Catalog {
    pub books: Vec<BookRecord>,
    pub files: Vec<File>,
    pub chapters: Vec<Chapter>,
}

impl Catalog {
    /// Row ids are dense, every file and chapter belongs to an existing
    /// book, and positions within each book run `1, 2, …` in storage
    /// order.
    pub open spec fn wf(self) -> bool {
        &&& self.books@.len() <= i64::MAX
        &&& self.files@.len() <= i64::MAX
        &&& self.chapters@.len() <= i64::MAX
        &&& forall|i: int|
            0 <= i < self.books@.len() ==> (#[trigger] self.books@[i].id) == i + 1
        &&& forall|i: int|
            0 <= i < self.files@.len() ==> (#[trigger] self.files@[i].id) == i + 1
        &&& forall|i: int|
            0 <= i < self.chapters@.len() ==> (#[trigger] self.chapters@[i].id) == i + 1
        &&& forall|i: int|
            0 <= i < self.files@.len() ==> 1 <= (#[trigger] self.files@[i].book_id)
                <= self.books@.len()
        &&& forall|i: int|
            0 <= i < self.chapters@.len() ==> 1 <= (#[trigger] self.chapters@[i].book_id)
                <= self.books@.len()
        &&& forall|i: int|
            0 <= i < self.files@.len() ==> (#[trigger] self.files@[i].position) == count_book(
                self.files@.subrange(0, i),
                self.files@[i].book_id,
            ) + 1
    }

    /// An empty catalog.
    pub fn new() -> (r: Catalog)
        ensures
            r.wf(),
            r.books@.len() == 0,
            r.files@.len() == 0,
            r.chapters@.len() == 0,
    {
        Catalog { books: Vec::new(), files: Vec::new(), chapters: Vec::new() }
    }

    /// Appends the upload's files to book `book_id`, assigning positions
    /// `1..=n` in the order given.
    fn append_files(&mut self, book_id: i64, file_data: &Vec<FileData>, now: i64)
        requires
            old(self).wf(),
            1 <= book_id <= old(self).books@.len(),
            count_book(old(self).files@, book_id) == 0,
            old(self).files@.len() + file_data@.len() <= i64::MAX,
        ensures
            final(self).wf(),
            final(self).books@ == old(self).books@,
            final(self).chapters@ == old(self).chapters@,
            final(self).files@.len() == old(self).files@.len() + file_data@.len(),
            final(self).files@.subrange(0, old(self).files@.len() as int) == old(self).files@,
            forall|k: int|
                0 <= k < file_data@.len() ==> {
                    let f = #[trigger] final(self).files@[old(self).files@.len() + k];
                    &&& f.id == old(self).files@.len() + k + 1
                    &&& f.book_id == book_id
                    &&& f.path == file_data@[k].path
                    &&& f.name == file_data@[k].name
                    &&& f.duration == file_data@[k].duration
                    &&& f.position == k + 1
                    &&& f.created == now
                    &&& f.modified == now
                },
    {
        let ghost old_files = self.files@;
        let n = file_data.len();
        let mut k: usize = 0;
        while k < n
            invariant
                k <= n == file_data@.len(),
                self.books@ == old(self).books@,
                self.chapters@ == old(self).chapters@,
                1 <= book_id <= self.books@.len(),
                old_files.len() + n <= i64::MAX,
                self.files@.len() == old_files.len() + k,
                self.files@.subrange(0, old_files.len() as int) == old_files,
                count_book(self.files@, book_id) == k,
                forall|j: int|
                    0 <= j < k ==> {
                        let f = #[trigger] self.files@[old_files.len() + j];
                        &&& f.id == old_files.len() + j + 1
                        &&& f.book_id == book_id
                        &&& f.path == file_data@[j].path
                        &&& f.name == file_data@[j].name
                        &&& f.duration == file_data@[j].duration
                        &&& f.position == j + 1
                        &&& f.created == now
                        &&& f.modified == now
                    },
                forall|i: int|
                    0 <= i < self.files@.len() ==> (#[trigger] self.files@[i].id) == i + 1,
                forall|i: int|
                    0 <= i < self.files@.len() ==> 1 <= (#[trigger] self.files@[i].book_id)
                        <= self.books@.len(),
                forall|i: int|
                    0 <= i < self.files@.len() ==> (#[trigger] self.files@[i].position)
                        == count_book(self.files@.subrange(0, i), self.files@[i].book_id) + 1,
            decreases n - k,
        {
            let ghost pre = self.files@;
            let data = &file_data[k];
            let file = File {
                id: (self.files.len() as i64) + 1,
                book_id,
                path: data.path.clone(),
                name: data.name.clone(),
                position: (k as i64) + 1,
                duration: data.duration,
                created: now,
                modified: now,
            };
            self.files.push(file);
            proof {
                assert(self.files@.drop_last() =~= pre);
                assert(self.files@.subrange(0, old_files.len() as int) =~= pre.subrange(
                    0,
                    old_files.len() as int,
                ));
                assert forall|i: int| 0 <= i < self.files@.len() implies (
                #[trigger] self.files@[i].position) == count_book(
                    self.files@.subrange(0, i),
                    self.files@[i].book_id,
                ) + 1 by {
                    if i < pre.len() {
                        assert(self.files@[i] == pre[i]);
                        assert(self.files@.subrange(0, i) =~= pre.subrange(0, i));
                    } else {
                        assert(self.files@.subrange(0, i) =~= pre);
                    }
                }
            }
            k = k + 1;
        }
    }

    /// Appends probed chapters to book `book_id`, in order.
    fn append_chapters(&mut self, book_id: i64, chs: &Vec<ChapterData>, now: i64)
        requires
            old(self).wf(),
            1 <= book_id <= old(self).books@.len(),
            old(self).chapters@.len() + chs@.len() <= i64::MAX,
        ensures
            final(self).wf(),
            final(self).books@ == old(self).books@,
            final(self).files@ == old(self).files@,
            final(self).chapters@.len() == old(self).chapters@.len() + chs@.len(),
            final(self).chapters@.subrange(0, old(self).chapters@.len() as int) == old(
                self,
            ).chapters@,
            forall|k: int|
                0 <= k < chs@.len() ==> {
                    let c = #[trigger] final(self).chapters@[old(self).chapters@.len() + k];
                    &&& c.id == old(self).chapters@.len() + k + 1
                    &&& c.book_id == book_id
                    &&& c.name == chs@[k].name
                    &&& c.start == chs@[k].start
                    &&& c.end == chs@[k].end
                },
    {
        let ghost old_chapters = self.chapters@;
        let m = chs.len();
        let mut c: usize = 0;
        while c < m
            invariant
                c <= m == chs@.len(),
                self.books@ == old(self).books@,
                self.files@ == old(self).files@,
                old(self).wf(),
                old_chapters == old(self).chapters@,
                old_chapters.len() + m <= i64::MAX,
                1 <= book_id <= self.books@.len(),
                self.chapters@.len() == old_chapters.len() + c,
                self.chapters@.subrange(0, old_chapters.len() as int) == old_chapters,
                forall|j: int|
                    0 <= j < c ==> {
                        let ch = #[trigger] self.chapters@[old_chapters.len() + j];
                        &&& ch.id == old_chapters.len() + j + 1
                        &&& ch.book_id == book_id
                        &&& ch.name == chs@[j].name
                        &&& ch.start == chs@[j].start
                        &&& ch.end == chs@[j].end
                    },
                forall|i: int|
                    0 <= i < self.chapters@.len() ==> (#[trigger] self.chapters@[i].id) == i + 1,
                forall|i: int|
                    0 <= i < self.chapters@.len() ==> 1 <= (#[trigger] self.chapters@[i].book_id)
                        <= self.books@.len(),
            decreases m - c,
        {
            let ghost pre = self.chapters@;
            let data = &chs[c];
            let chapter = Chapter {
                id: (self.chapters.len() as i64) + 1,
                book_id,
                name: data.name.clone(),
                start: data.start,
                end: data.end,
            };
            self.chapters.push(chapter);
            proof {
                assert(self.chapters@.subrange(0, old_chapters.len() as int) =~= pre.subrange(
                    0,
                    old_chapters.len() as int,
                ));
            }
            c = c + 1;
        }
    }

    /// Inserts a book with its files (already in playback order) and its
    /// optional chapters; returns the new book's id.  Files get positions
    /// `1..=n` in the order given.
    pub fn create_book(
        &mut self,
        title: &str,
        author: &str,
        cover: Option<Vec<u8>>,
        file_data: &Vec<FileData>,
        chapters: Option<&Vec<ChapterData>>,
        now: i64,
    ) -> (r: i64)
        requires
            old(self).wf(),
            old(self).books@.len() + 1 <= i64::MAX,
            old(self).files@.len() + file_data@.len() <= i64::MAX,
            old(self).chapters@.len() + (match chapters {
                Some(c) => c@.len(),
                None => 0,
            }) <= i64::MAX,
        ensures
            final(self).wf(),
            r == old(self).books@.len() + 1,
            // One book appended.
            final(self).books@.len() == old(self).books@.len() + 1,
            final(self).books@.subrange(0, old(self).books@.len() as int) == old(self).books@,
            final(self).books@.last().id == r,
            final(self).books@.last().title@ == title@,
            final(self).books@.last().author@ == author@,
            final(self).books@.last().cover == cover,
            final(self).books@.last().created == now,
            final(self).books@.last().modified == now,
            // The upload's files appended in order, with positions 1..=n.
            final(self).files@.len() == old(self).files@.len() + file_data@.len(),
            final(self).files@.subrange(0, old(self).files@.len() as int) == old(self).files@,
            forall|k: int|
                0 <= k < file_data@.len() ==> {
                    let f = #[trigger] final(self).files@[old(self).files@.len() + k];
                    &&& f.id == old(self).files@.len() + k + 1
                    &&& f.book_id == r
                    &&& f.path == file_data@[k].path
                    &&& f.name == file_data@[k].name
                    &&& f.duration == file_data@[k].duration
                    &&& f.position == k + 1
                    &&& f.created == now
                    &&& f.modified == now
                },
            // The chapters appended in order.
            final(self).chapters@.len() == old(self).chapters@.len() + (match chapters {
                Some(c) => c@.len(),
                None => 0,
            }),
            final(self).chapters@.subrange(0, old(self).chapters@.len() as int) == old(
                self,
            ).chapters@,
            forall|k: int|
                0 <= k < (match chapters {
                    Some(c) => c@.len() as int,
                    None => 0,
                }) ==> {
                    let c = #[trigger] final(self).chapters@[old(self).chapters@.len() + k];
                    &&& c.id == old(self).chapters@.len() + k + 1
                    &&& c.book_id == r
                    &&& c.name == chapters->0@[k].name
                    &&& c.start == chapters->0@[k].start
                    &&& c.end == chapters->0@[k].end
                },
    {
        let ghost old_books = self.books@;
        let book_id = (self.books.len() as i64) + 1;
        let record = BookRecord {
            id: book_id,
            title: title.to_owned(),
            author: author.to_owned(),
            cover,
            created: now,
            modified: now,
        };
        self.books.push(record);
        proof {
            assert(self.books@.subrange(0, old_books.len() as int) =~= old_books);
            assert forall|i: int| 0 <= i < self.books@.len() implies (
            #[trigger] self.books@[i].id) == i + 1 by {
                if i < old_books.len() {
                    assert(self.books@[i] == old_books[i]);
                }
            }
            lemma_count_book_absent(self.files@, book_id as i64);
        }
        self.append_files(book_id, file_data, now);
        match chapters {
            Some(chs) => {
                self.append_chapters(book_id, chs, now);
            },
            None => {},
        }
        book_id
    }
}

/// The chapters of book `b`, in storage order.
pub open spec fn book_chapters(chapters: Seq<Chapter>, b: i64) -> Seq<Chapter>
    decreases chapters.len(),
{
    if chapters.len() == 0 {
        Seq::empty()
    } else if chapters.last().book_id == b {
        book_chapters(chapters.drop_last(), b).push(chapters.last())
    } else {
        book_chapters(chapters.drop_last(), b)
    }
}

/// Copies a byte vector.
fn clone_bytes(v: &Vec<u8>) -> (r: Vec<u8>)
    ensures
        r@ == v@,
{
    let mut out: Vec<u8> = Vec::new();
    let n = v.len();
    let mut i: usize = 0;
    while i < n
        invariant
            i <= n == v@.len(),
            out@ == v@.subrange(0, i as int),
        decreases n - i,
    {
        out.push(v[i]);
        proof {
            assert(out@ =~= v@.subrange(0, i + 1));
        }
        i = i + 1;
    }
    proof {
        assert(v@.subrange(0, n as int) =~= v@);
    }
    out
}

impl Catalog {
    /// Whether a book with this id exists.
    pub open spec fn spec_has_book(self, book_id: i64) -> bool {
        1 <= book_id <= self.books@.len()
    }

    /// Whether a file with this id exists.
    pub open spec fn spec_has_file(self, file_id: i64) -> bool {
        1 <= file_id <= self.files@.len()
    }

    /// The book row a [`Book`] is read from, by id.
    pub open spec fn spec_book(self, book_id: i64) -> BookRecord
        recommends
            self.spec_has_book(book_id),
    {
        self.books@[book_id - 1]
    }

    /// The file row, by id.
    pub open spec fn spec_file(self, file_id: i64) -> File
        recommends
            self.spec_has_file(file_id),
    {
        self.files@[file_id - 1]
    }

    /// Looks up a book by id; duration is not computed here.
    pub fn get_book(&self, book_id: i64) -> (r: Option<Book>)
        requires
            self.wf(),
        ensures
            r is Some <==> self.spec_has_book(book_id),
            match r {
                Some(b) => {
                    &&& b.id == book_id
                    &&& b.title == self.spec_book(book_id).title
                    &&& b.author == self.spec_book(book_id).author
                    &&& b.duration is None
                    &&& b.created == self.spec_book(book_id).created
                    &&& b.modified == self.spec_book(book_id).modified
                },
                None => true,
            },
    {
        if book_id >= 1 && book_id <= (self.books.len() as i64) {
            let rec = &self.books[(book_id - 1) as usize];
            Some(
                Book {
                    id: rec.id,
                    title: rec.title.clone(),
                    author: rec.author.clone(),
                    duration: None,
                    created: rec.created,
                    modified: rec.modified,
                },
            )
        } else {
            None
        }
    }

    /// Looks up a file by id.
    pub fn get_file(&self, file_id: i64) -> (r: Option<File>)
        requires
            self.wf(),
        ensures
            r is Some <==> self.spec_has_file(file_id),
            match r {
                Some(f) => f == self.spec_file(file_id),
                None => true,
            },
    {
        if file_id >= 1 && file_id <= (self.files.len() as i64) {
            Some(self.files[(file_id - 1) as usize].clone())
        } else {
            None
        }
    }

    /// The on-disk path of a file, by id.
    pub fn get_file_path(&self, file_id: i64) -> (r: Option<String>)
        requires
            self.wf(),
        ensures
            r is Some <==> self.spec_has_file(file_id),
            match r {
                Some(p) => p == self.spec_file(file_id).path,
                None => true,
            },
    {
        if file_id >= 1 && file_id <= (self.files.len() as i64) {
            Some(self.files[(file_id - 1) as usize].path.clone())
        } else {
            None
        }
    }

    /// The cover image stored for a book, if any.
    pub fn get_book_cover(&self, book_id: i64) -> (r: Option<Vec<u8>>)
        requires
            self.wf(),
        ensures
            match r {
                Some(v) => self.spec_has_book(book_id) && self.spec_book(book_id).cover is Some
                    && v@ == self.spec_book(book_id).cover->0@,
                None => !self.spec_has_book(book_id) || self.spec_book(book_id).cover is None,
            },
    {
        if book_id >= 1 && book_id <= (self.books.len() as i64) {
            match &self.books[(book_id - 1) as usize].cover {
                Some(v) => Some(clone_bytes(v)),
                None => None,
            }
        } else {
            None
        }
    }

    /// Number of files of a book.
    pub fn count_files_of_book(&self, book_id: i64) -> (r: usize)
        ensures
            r == count_book(self.files@, book_id),
    {
        let n = self.files.len();
        let mut count: usize = 0;
        let mut i: usize = 0;
        while i < n
            invariant
                i <= n == self.files@.len(),
                count == count_book(self.files@.subrange(0, i as int), book_id),
                count <= i,
            decreases n - i,
        {
            proof {
                assert(self.files@.subrange(0, i + 1).drop_last() =~= self.files@.subrange(
                    0,
                    i as int,
                ));
                assert(self.files@.subrange(0, i + 1).last() == self.files@[i as int]);
            }
            if self.files[i].book_id == book_id {
                count = count + 1;
            }
            i = i + 1;
        }
        proof {
            assert(self.files@.subrange(0, n as int) =~= self.files@);
        }
        count
    }

    /// Total duration of a book's files, in seconds.
    pub fn book_total_duration(&self, book_id: i64) -> (d: u128)
        ensures
            d == total_duration(self.files@, book_id),
    {
        let n = self.files.len();
        let mut acc: u128 = 0;
        let mut i: usize = 0;
        while i < n
            invariant
                i <= n == self.files@.len(),
                acc == total_duration(self.files@.subrange(0, i as int), book_id),
                acc <= (i as int) * 0x1_0000_0000,
            decreases n - i,
        {
            proof {
                assert(self.files@.subrange(0, i + 1).drop_last() =~= self.files@.subrange(
                    0,
                    i as int,
                ));
                assert(self.files@.subrange(0, i + 1).last() == self.files@[i as int]);
                assert((i as int) * 0x1_0000_0000 + 0x1_0000_0000 == (i + 1) * 0x1_0000_0000);
                assert((i + 1) * 0x1_0000_0000 <= u128::MAX) by (nonlinear_arith)
                    requires
                        0 <= i + 1 <= 0xffff_ffff_ffff_ffffu128,
                ;
            }
            if self.files[i].book_id == book_id {
                acc = acc + (self.files[i].duration as u128);
            }
            i = i + 1;
        }
        proof {
            assert(self.files@.subrange(0, n as int) =~= self.files@);
        }
        acc
    }

    /// Total duration of the book's files that precede playback position
    /// `pos`, in seconds.
    pub fn book_duration_before(&self, book_id: i64, pos: i64) -> (d: u128)
        ensures
            d == duration_before(self.files@, book_id, pos as int),
    {
        let n = self.files.len();
        let mut acc: u128 = 0;
        let mut i: usize = 0;
        while i < n
            invariant
                i <= n == self.files@.len(),
                acc == duration_before(self.files@.subrange(0, i as int), book_id, pos as int),
                acc <= (i as int) * 0x1_0000_0000,
            decreases n - i,
        {
            proof {
                assert(self.files@.subrange(0, i + 1).drop_last() =~= self.files@.subrange(
                    0,
                    i as int,
                ));
                assert(self.files@.subrange(0, i + 1).last() == self.files@[i as int]);
                assert((i as int) * 0x1_0000_0000 + 0x1_0000_0000 == (i + 1) * 0x1_0000_0000);
                assert((i + 1) * 0x1_0000_0000 <= u128::MAX) by (nonlinear_arith)
                    requires
                        0 <= i + 1 <= 0xffff_ffff_ffff_ffffu128,
                ;
            }
            if self.files[i].book_id == book_id && self.files[i].position < pos {
                acc = acc + (self.files[i].duration as u128);
            }
            i = i + 1;
        }
        proof {
            assert(self.files@.subrange(0, n as int) =~= self.files@);
        }
        acc
    }

    /// The id of the book's first file in playback order (position 1), if
    /// the book has files.
    pub fn first_file_id(&self, book_id: i64) -> (r: Option<i64>)
        requires
            self.wf(),
        ensures
            r == spec_first_file_id(self.files@, book_id),
            match r {
                Some(id) => self.spec_has_file(id) && self.spec_file(id).book_id == book_id
                    && self.spec_file(id).position == 1,
                None => count_book(self.files@, book_id) == 0,
            },
    {
        let n = self.files.len();
        let mut i: usize = 0;
        while i < n
            invariant
                i <= n == self.files@.len(),
                self.wf(),
                forall|k: int| 0 <= k < i ==> (#[trigger] self.files@[k].book_id) != book_id,
            decreases n - i,
        {
            if self.files[i].book_id == book_id {
                proof {
                    lemma_count_book_absent(self.files@.subrange(0, i as int), book_id);
                    lemma_book_files_first(self.files@, book_id, i as int);
                    lemma_book_files_count(self.files@, book_id);
                }
                return Some(self.files[i].id);
            }
            i = i + 1;
        }
        proof {
            lemma_count_book_absent(self.files@, book_id);
        }
        None
    }

    /// The files of a book, in playback order (`position` ascending,
    /// starting at 1).
    pub fn get_files_for_book(&self, book_id: i64) -> (r: Vec<File>)
        requires
            self.wf(),
        ensures
            r@ == book_files(self.files@, book_id),
            r@.len() == count_book(self.files@, book_id),
            forall|k: int| 0 <= k < r@.len() ==> (#[trigger] r@[k].position) == k + 1,
            forall|k: int| 0 <= k < r@.len() ==> (#[trigger] r@[k].book_id) == book_id,
    {
        let n = self.files.len();
        let mut out: Vec<File> = Vec::new();
        let mut i: usize = 0;
        while i < n
            invariant
                i <= n == self.files@.len(),
                self.wf(),
                out@ == book_files(self.files@.subrange(0, i as int), book_id),
                out@.len() == count_book(self.files@.subrange(0, i as int), book_id),
                forall|k: int| 0 <= k < out@.len() ==> (#[trigger] out@[k].position) == k + 1,
                forall|k: int| 0 <= k < out@.len() ==> (#[trigger] out@[k].book_id) == book_id,
            decreases n - i,
        {
            proof {
                assert(self.files@.subrange(0, i + 1).drop_last() =~= self.files@.subrange(
                    0,
                    i as int,
                ));
                assert(self.files@.subrange(0, i + 1).last() == self.files@[i as int]);
            }
            if self.files[i].book_id == book_id {
                out.push(self.files[i].clone());
            }
            i = i + 1;
        }
        proof {
            assert(self.files@.subrange(0, n as int) =~= self.files@);
        }
        out
    }
}

/// The files of a book are as many as its count.
pub proof fn lemma_book_files_count(files: Seq<File>, b: i64)
    ensures
        book_files(files, b).len() == count_book(files, b),
    decreases files.len(),
{
    if files.len() > 0 {
        lemma_book_files_count(files.drop_last(), b);
    }
}

/// The first file of a book in storage order is the head of its file list.
pub proof fn lemma_book_files_first(files: Seq<File>, b: i64, i: int)
    requires
        0 <= i < files.len(),
        files[i].book_id == b,
        forall|k: int| 0 <= k < i ==> (#[trigger] files[k].book_id) != b,
    ensures
        book_files(files, b).len() > 0,
        book_files(files, b)[0] == files[i],
    decreases files.len(),
{
    if files.len() - 1 > i {
        lemma_book_files_first(files.drop_last(), b, i);
    } else {
        lemma_count_book_absent(files.drop_last(), b);
        lemma_book_files_count(files.drop_last(), b);
    }
}

/// The id of a book's first file in playback order, as a function of the
/// catalog's files.
pub open spec fn spec_first_file_id(files: Seq<File>, b: i64) -> Option<i64> {
    if count_book(files, b) == 0 {
        Option::None
    } else {
        Option::Some(book_files(files, b)[0].id)
    }
}

/// The [`Book`] line read from a stored row on listings (no duration, no
/// cover).
pub open spec fn book_of_record(rec: BookRecord) -> Book {
    Book {
        id: rec.id,
        title: rec.title,
        author: rec.author,
        duration: Option::None,
        created: rec.created,
        modified: rec.modified,
    }
}

/// Orders books by title, lexicographically.
fn sort_books_by_title(input: Vec<Book>) -> (r: Vec<Book>)
    ensures
        r@.to_multiset() == input@.to_multiset(),
        r@.len() == input@.len(),
        forall|a: int, c: int|
            0 <= a < c < r@.len() ==> lex_le(#[trigger] r@[a].title@, #[trigger] r@[c].title@),
{
    broadcast use vstd::seq_lib::group_to_multiset_ensures;

    let n = input.len();
    let mut out: Vec<Book> = Vec::new();
    let mut i: usize = 0;
    while i < n
        invariant
            i <= n == input@.len(),
            out@.len() == i,
            out@.to_multiset() == input@.subrange(0, i as int).to_multiset(),
            forall|a: int, c: int|
                0 <= a < c < out@.len() ==> lex_le(
                    #[trigger] out@[a].title@,
                    #[trigger] out@[c].title@,
                ),
        decreases n - i,
    {
        broadcast use vstd::seq_lib::group_to_multiset_ensures;

        let ghost out1 = out@;
        let e = input[i].clone();
        let mut pos: usize = 0;
        while pos < out.len() && !str_le(e.title.as_str(), out[pos].title.as_str())
            invariant
                pos <= out@.len(),
                out@ == out1,
                e == input@[i as int],
                forall|k: int| 0 <= k < pos ==> !lex_le(e.title@, #[trigger] out@[k].title@),
            decreases out@.len() - pos,
        {
            pos = pos + 1;
        }
        out.insert(pos, e);
        proof {
            assert(input@.subrange(0, i + 1) =~= input@.subrange(0, i as int).push(
                input@[i as int],
            ));
            assert(out@.to_multiset() == input@.subrange(0, i + 1).to_multiset());
            assert forall|a: int, c: int| 0 <= a < c < out@.len() implies lex_le(
                #[trigger] out@[a].title@,
                #[trigger] out@[c].title@,
            ) by {
                let p = pos as int;
                let x = input@[i as int];
                if a < p && c < p {
                    assert(out@[a] == out1[a] && out@[c] == out1[c]);
                    assert(lex_le(out1[a].title@, out1[c].title@));
                } else if a < p && c == p {
                    assert(out@[a] == out1[a] && out@[c] == x);
                    assert(!lex_le(x.title@, out1[a].title@));
                    lemma_lex_le_total(x.title@, out1[a].title@);
                } else if a < p && c > p {
                    assert(out@[a] == out1[a] && out@[c] == out1[c - 1]);
                    assert(a <= c - 1 < out1.len());
                    if a < c - 1 {
                        assert(lex_le(out1[a].title@, out1[c - 1].title@));
                    }
                } else if a == p {
                    assert(out@[a] == x && out@[c] == out1[c - 1]);
                    assert(p < out1.len());
                    assert(lex_le(x.title@, out1[p].title@));
                    if c - 1 > p {
                        assert(lex_le(out1[p].title@, out1[c - 1].title@));
                        lemma_lex_le_trans(x.title@, out1[p].title@, out1[c - 1].title@);
                    }
                } else {
                    assert(out@[a] == out1[a - 1] && out@[c] == out1[c - 1]);
                    assert(p < a - 1 || p == a - 1);
                    assert(a - 1 < c - 1);
                    assert(lex_le(out1[a - 1].title@, out1[c - 1].title@));
                }
            }
        }
        i = i + 1;
    }
    proof {
        assert(input@.subrange(0, n as int) =~= input@);
        assert(out@.len() == out@.to_multiset().len());
        assert(input@.len() == input@.to_multiset().len());
    }
    out
}

/// Orders chapters by start time.
fn sort_chapters_by_start(input: Vec<Chapter>) -> (r: Vec<Chapter>)
    ensures
        r@.to_multiset() == input@.to_multiset(),
        r@.len() == input@.len(),
        forall|a: int, c: int|
            0 <= a < c < r@.len() ==> (#[trigger] r@[a].start) <= (#[trigger] r@[c].start),
{
    broadcast use vstd::seq_lib::group_to_multiset_ensures;

    let n = input.len();
    let mut out: Vec<Chapter> = Vec::new();
    let mut i: usize = 0;
    while i < n
        invariant
            i <= n == input@.len(),
            out@.len() == i,
            out@.to_multiset() == input@.subrange(0, i as int).to_multiset(),
            forall|a: int, c: int|
                0 <= a < c < out@.len() ==> (#[trigger] out@[a].start) <= (
                #[trigger] out@[c].start),
        decreases n - i,
    {
        broadcast use vstd::seq_lib::group_to_multiset_ensures;

        let ghost out1 = out@;
        let e = input[i].clone();
        let mut pos: usize = 0;
        while pos < out.len() && out[pos].start < e.start
            invariant
                pos <= out@.len(),
                out@ == out1,
                e == input@[i as int],
                forall|k: int| 0 <= k < pos ==> (#[trigger] out@[k].start) < e.start,
            decreases out@.len() - pos,
        {
            pos = pos + 1;
        }
        out.insert(pos, e);
        proof {
            assert(input@.subrange(0, i + 1) =~= input@.subrange(0, i as int).push(
                input@[i as int],
            ));
            assert(out@.to_multiset() == input@.subrange(0, i + 1).to_multiset());
            assert forall|a: int, c: int| 0 <= a < c < out@.len() implies (
            #[trigger] out@[a].start) <= (#[trigger] out@[c].start) by {
                let p = pos as int;
                if a < p && c < p {
                    assert(out@[a] == out1[a] && out@[c] == out1[c]);
                } else if a < p && c == p {
                    assert(out@[a] == out1[a]);
                } else if a < p && c > p {
                    assert(out@[a] == out1[a] && out@[c] == out1[c - 1]);
                } else if a == p {
                    assert(out@[c] == out1[c - 1]);
                    assert(p < out1.len());
                } else {
                    assert(out@[a] == out1[a - 1] && out@[c] == out1[c - 1]);
                }
            }
        }
        i = i + 1;
    }
    proof {
        assert(input@.subrange(0, n as int) =~= input@);
        assert(out@.len() == out@.to_multiset().len());
        assert(input@.len() == input@.to_multiset().len());
    }
    out
}

impl Catalog {
    /// All books, ordered by title, without computed durations.
    pub fn get_all_books(&self) -> (r: Vec<Book>)
        requires
            self.wf(),
        ensures
            r@.len() == self.books@.len(),
            r@.to_multiset() == self.books@.map_values(|rec: BookRecord| book_of_record(rec)).to_multiset(),
            forall|a: int, c: int|
                0 <= a < c < r@.len() ==> lex_le(#[trigger] r@[a].title@, #[trigger] r@[c].title@),
    {
        let n = self.books.len();
        let mut listed: Vec<Book> = Vec::new();
        let mut i: usize = 0;
        while i < n
            invariant
                i <= n == self.books@.len(),
                listed@ == self.books@.subrange(0, i as int).map_values(
                    |rec: BookRecord| book_of_record(rec),
                ),
            decreases n - i,
        {
            let rec = &self.books[i];
            listed.push(
                Book {
                    id: rec.id,
                    title: rec.title.clone(),
                    author: rec.author.clone(),
                    duration: None,
                    created: rec.created,
                    modified: rec.modified,
                },
            );
            proof {
                assert(listed@ =~= self.books@.subrange(0, i + 1).map_values(
                    |rec: BookRecord| book_of_record(rec),
                ));
            }
            i = i + 1;
        }
        proof {
            assert(self.books@.subrange(0, n as int) =~= self.books@);
        }
        sort_books_by_title(listed)
    }

    /// The book and its total duration in seconds, or `None` for an
    /// unknown id; a book with no files has no duration, as a sum over no
    /// rows would.
    pub fn get_book_details(&self, book_id: i64) -> (r: Option<Book>)
        requires
            self.wf(),
        ensures
            r is Some <==> self.spec_has_book(book_id),
            match r {
                Some(b) => {
                    &&& b.id == book_id
                    &&& b.title == self.spec_book(book_id).title
                    &&& b.author == self.spec_book(book_id).author
                    &&& b.created == self.spec_book(book_id).created
                    &&& b.modified == self.spec_book(book_id).modified
                    &&& b.duration == if count_book(self.files@, book_id) == 0 {
                        Option::<u128>::None
                    } else {
                        Option::Some(total_duration(self.files@, book_id) as u128)
                    }
                },
                None => true,
            },
    {
        if book_id >= 1 && book_id <= (self.books.len() as i64) {
            let rec = &self.books[(book_id - 1) as usize];
            let count = self.count_files_of_book(book_id);
            let duration = if count == 0 {
                None
            } else {
                Some(self.book_total_duration(book_id))
            };
            Some(
                Book {
                    id: rec.id,
                    title: rec.title.clone(),
                    author: rec.author.clone(),
                    duration,
                    created: rec.created,
                    modified: rec.modified,
                },
            )
        } else {
            None
        }
    }

    /// The chapters of a book, ordered by start time.
    pub fn get_chapters_for_book(&self, book_id: i64) -> (r: Vec<Chapter>)
        requires
            self.wf(),
        ensures
            r@.len() == book_chapters(self.chapters@, book_id).len(),
            r@.to_multiset() == book_chapters(self.chapters@, book_id).to_multiset(),
            forall|a: int, c: int|
                0 <= a < c < r@.len() ==> (#[trigger] r@[a].start) <= (#[trigger] r@[c].start),
    {
        let n = self.chapters.len();
        let mut found: Vec<Chapter> = Vec::new();
        let mut i: usize = 0;
        while i < n
            invariant
                i <= n == self.chapters@.len(),
                found@ == book_chapters(self.chapters@.subrange(0, i as int), book_id),
            decreases n - i,
        {
            proof {
                assert(self.chapters@.subrange(0, i + 1).drop_last() =~= self.chapters@.subrange(
                    0,
                    i as int,
                ));
                assert(self.chapters@.subrange(0, i + 1).last() == self.chapters@[i as int]);
            }
            if self.chapters[i].book_id == book_id {
                found.push(self.chapters[i].clone());
            }
            i = i + 1;
        }
        proof {
            assert(self.chapters@.subrange(0, n as int) =~= self.chapters@);
        }
        sort_chapters_by_start(found)
    }
}

/// The chapters of books other than `b`, in storage order.
pub open spec fn other_chapters(chapters: Seq<Chapter>, b: i64) -> Seq<Chapter>
    decreases chapters.len(),
{
    if chapters.len() == 0 {
        Seq::empty()
    } else if chapters.last().book_id != b {
        other_chapters(chapters.drop_last(), b).push(chapters.last())
    } else {
        other_chapters(chapters.drop_last(), b)
    }
}

impl Catalog {
    /// The books that consist of exactly one audio file, as (book id,
    /// file path) pairs — the books whose chapters can be re-probed.
    pub fn single_file_books(&self) -> (r: Vec<(i64, String)>)
        requires
            self.wf(),
        ensures
            forall|k: int|
                0 <= k < r@.len() ==> {
                    let p = #[trigger] r@[k];
                    &&& 1 <= p.0 <= self.books@.len()
                    &&& count_book(self.files@, p.0) == 1
                    &&& p.1@ == self.spec_file(spec_first_file_id(self.files@, p.0)->0).path@
                },
            forall|b: int|
                1 <= b <= self.books@.len() && #[trigger] count_book(self.files@, b as i64) == 1
                    ==> exists|k: int| 0 <= k < r@.len() && (#[trigger] r@[k]).0 == b,
    {
        let n = self.books.len();
        let mut out: Vec<(i64, String)> = Vec::new();
        let mut b: usize = 0;
        while b < n
            invariant
                b <= n == self.books@.len(),
                n <= i64::MAX,
                self.wf(),
                forall|k: int|
                    0 <= k < out@.len() ==> {
                        let p = #[trigger] out@[k];
                        &&& 1 <= p.0 <= self.books@.len()
                        &&& count_book(self.files@, p.0) == 1
                        &&& p.1@ == self.spec_file(spec_first_file_id(self.files@, p.0)->0).path@
                    },
                forall|b2: int|
                    1 <= b2 <= b && #[trigger] count_book(self.files@, b2 as i64) == 1
                        ==> exists|k: int| 0 <= k < out@.len() && (#[trigger] out@[k]).0 == b2,
            decreases n - b,
        {
            let ghost out_before = out@;
            let book_id = (b as i64) + 1;
            let count = self.count_files_of_book(book_id);
            if count == 1 {
                match self.first_file_id(book_id) {
                    Some(fid) => {
                        match self.get_file_path(fid) {
                            Some(path) => {
                                out.push((book_id, path));
                            },
                            None => {
                                proof {
                                    assert(false);
                                }
                            },
                        }
                    },
                    None => {
                        proof {
                            assert(false);
                        }
                    },
                }
                proof {
                    assert forall|b2: int|
                        1 <= b2 <= b + 1 && #[trigger] count_book(self.files@, b2 as i64)
                            == 1 implies exists|k: int|
                        0 <= k < out@.len() && (#[trigger] out@[k]).0 == b2 by {
                        if b2 <= b {
                            let k = choose|k: int|
                                0 <= k < out_before.len() && (#[trigger] out_before[k]).0 == b2;
                            assert(out@[k] == out_before[k]);
                            assert(out@[k].0 == b2);
                        } else {
                            assert(out@[out@.len() - 1].0 == book_id);
                        }
                    }
                }
            } else {
                proof {
                    assert forall|b2: int|
                        1 <= b2 <= b + 1 && #[trigger] count_book(self.files@, b2 as i64)
                            == 1 implies exists|k: int|
                        0 <= k < out@.len() && (#[trigger] out@[k]).0 == b2 by {
                        assert(b2 <= b);
                        let k = choose|k: int|
                            0 <= k < out_before.len() && (#[trigger] out_before[k]).0 == b2;
                        assert(out@[k].0 == b2);
                    }
                }
            }
            b = b + 1;
        }
        out
    }

    /// Replaces the chapters of one book with freshly probed ones: the
    /// other books' chapters are kept (their rows renumbered to stay
    /// dense), the book's new chapters are appended after them.
    pub fn replace_chapters(&mut self, book_id: i64, chapters: &Vec<ChapterData>)
        requires
            old(self).wf(),
            1 <= book_id <= old(self).books@.len(),
            old(self).chapters@.len() + chapters@.len() <= i64::MAX,
        ensures
            final(self).wf(),
            final(self).books@ == old(self).books@,
            final(self).files@ == old(self).files@,
            final(self).chapters@.len() == other_chapters(old(self).chapters@, book_id).len()
                + chapters@.len(),
            forall|k: int|
                0 <= k < other_chapters(old(self).chapters@, book_id).len() ==> {
                    let kept = other_chapters(old(self).chapters@, book_id)[k];
                    let c = #[trigger] final(self).chapters@[k];
                    &&& c.book_id == kept.book_id
                    &&& c.name == kept.name
                    &&& c.start == kept.start
                    &&& c.end == kept.end
                },
            forall|k: int|
                0 <= k < chapters@.len() ==> {
                    let c = #[trigger] final(self).chapters@[other_chapters(
                        old(self).chapters@,
                        book_id,
                    ).len() + k];
                    &&& c.book_id == book_id
                    &&& c.name == chapters@[k].name
                    &&& c.start == chapters@[k].start
                    &&& c.end == chapters@[k].end
                },
    {
        let n = self.chapters.len();
        let mut kept: Vec<Chapter> = Vec::new();
        let mut i: usize = 0;
        while i < n
            invariant
                i <= n == self.chapters@.len(),
                n <= i64::MAX,
                self.wf(),
                1 <= book_id <= self.books@.len(),
                kept@.len() <= i,
                forall|k: int|
                    0 <= k < kept@.len() ==> {
                        let src = other_chapters(self.chapters@.subrange(0, i as int), book_id)[k];
                        let c = #[trigger] kept@[k];
                        &&& c.book_id == src.book_id
                        &&& c.name == src.name
                        &&& c.start == src.start
                        &&& c.end == src.end
                        &&& c.id == k + 1
                        &&& 1 <= c.book_id <= self.books@.len()
                    },
                kept@.len() == other_chapters(self.chapters@.subrange(0, i as int), book_id).len(),
            decreases n - i,
        {
            proof {
                assert(self.chapters@.subrange(0, i + 1).drop_last() =~= self.chapters@.subrange(
                    0,
                    i as int,
                ));
                assert(self.chapters@.subrange(0, i + 1).last() == self.chapters@[i as int]);
            }
            if self.chapters[i].book_id != book_id {
                let src = &self.chapters[i];
                kept.push(
                    Chapter {
                        id: (kept.len() as i64) + 1,
                        book_id: src.book_id,
                        name: src.name.clone(),
                        start: src.start,
                        end: src.end,
                    },
                );
            }
            i = i + 1;
        }
        proof {
            assert(self.chapters@.subrange(0, n as int) =~= self.chapters@);
        }
        self.chapters = kept;
        let ghost kept_rows = self.chapters@;
        self.append_chapters(book_id, chapters, 0);
        proof {
            assert(self.chapters@.subrange(0, kept_rows.len() as int) == kept_rows);
            assert forall|k: int|
                0 <= k < other_chapters(old(self).chapters@, book_id).len() implies {
                let src = other_chapters(old(self).chapters@, book_id)[k];
                let c = #[trigger] self.chapters@[k];
                &&& c.book_id == src.book_id
                &&& c.name == src.name
                &&& c.start == src.start
                &&& c.end == src.end
            } by {
                assert(self.chapters@.subrange(0, kept_rows.len() as int)[k] == kept_rows[k]);
            }
        }
    }
}

/// A book no file points at has no files counted.
pub proof fn lemma_count_book_absent(files: Seq<File>, b: i64)
    requires
        forall|i: int| 0 <= i < files.len() ==> (#[trigger] files[i].book_id) != b,
    ensures
        count_book(files, b) == 0,
    decreases files.len(),
{
    if files.len() > 0 {
        lemma_count_book_absent(files.drop_last(), b);
    }
}

} // verus!
