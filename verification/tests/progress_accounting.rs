//! Library entries, the upsert rules, and the completion fraction.

use freya::api::{set_book_list, update_progress, SetBookList, UpdateProgress};
use freya::catalog::{Catalog, FileData};
use freya::progress::{completion_fraction, LibraryList, LibraryTable};

/// A catalog holding one book with files of the given durations, in
/// order; returns the book id (file ids follow storage order, starting at
/// one past the previous file count).
fn catalog_with_book(durations: &[u32]) -> (Catalog, i64) {
    let mut catalog = Catalog::new();
    let mut files = Vec::new();
    for (i, d) in durations.iter().enumerate() {
        files.push(FileData {
            path: format!("/media/file{}.mp3", i + 1),
            name: format!("file{}", i + 1),
            duration: *d,
        });
    }
    let book_id = catalog.create_book("Title", "Author", None, &files, None, 0);
    (catalog, book_id)
}

#[test]
fn completion_fraction_mid_book() {
    // Files [{pos 1, dur 100}, {pos 2, dur 50}], entry at file 2 with
    // offset 20: (100 + 20) / 150 = 0.8.
    let (catalog, _book) = catalog_with_book(&[100, 50]);
    let f = completion_fraction(&catalog, 1, 2, 20);
    assert_eq!(f.num, 120);
    assert_eq!(f.den, 150);
    assert!((f.num as f64) / (f.den as f64) == 0.8);
}

#[test]
fn completion_fraction_zero_files() {
    // A book with no files has completion fraction 0 and no division
    // error.
    let mut catalog = Catalog::new();
    let book = catalog.create_book("Empty", "Author", None, &Vec::new(), None, 0);
    let f = completion_fraction(&catalog, book, 1, 50);
    assert_eq!(f.num, 0);
    assert_eq!(f.den, 0);
}

#[test]
fn upsert_creates_with_defaults() {
    // With no entry and no file id, the book's first file (smallest
    // position) is used and the offset defaults to zero.
    let (catalog, book) = catalog_with_book(&[100, 50]);
    let mut table = LibraryTable::new();
    table
        .manage_library_entry(&catalog, 1, book, LibraryList::Listening, None, None, 10)
        .unwrap();
    let e = table.get_library_entry(1, book).unwrap();
    assert_eq!(e.file_id, 1);
    assert_eq!(e.progress, 0);
    assert_eq!(e.list, LibraryList::Listening);
    assert_eq!(e.modified, 10);
}

#[test]
fn upsert_on_empty_book_without_file_fails() {
    let mut catalog = Catalog::new();
    let book = catalog.create_book("Empty", "Author", None, &Vec::new(), None, 0);
    let mut table = LibraryTable::new();
    let r = table.manage_library_entry(&catalog, 1, book, LibraryList::Listening, None, None, 10);
    assert!(r.is_err());
    assert!(table.get_library_entry(1, book).is_none());
}

#[test]
fn upsert_is_idempotent() {
    // Calling the upsert twice with identical arguments leaves the file
    // and the offset unchanged but advances `modified`.
    let (catalog, book) = catalog_with_book(&[100, 50]);
    let mut table = LibraryTable::new();
    table
        .manage_library_entry(
            &catalog,
            1,
            book,
            LibraryList::Listening,
            Some(2),
            Some(17),
            10,
        )
        .unwrap();
    let first = table.get_library_entry(1, book).unwrap();
    table
        .manage_library_entry(
            &catalog,
            1,
            book,
            LibraryList::Listening,
            Some(2),
            Some(17),
            20,
        )
        .unwrap();
    let second = table.get_library_entry(1, book).unwrap();
    assert_eq!(second.file_id, first.file_id);
    assert_eq!(second.progress, first.progress);
    assert_eq!(second.list, first.list);
    assert_eq!(first.modified, 10);
    assert_eq!(second.modified, 20);
}

#[test]
fn file_change_resets_progress() {
    // Switching files resets the offset to zero even when an offset is
    // supplied alongside.
    let (catalog, book) = catalog_with_book(&[100, 50]);
    let mut table = LibraryTable::new();
    table
        .manage_library_entry(
            &catalog,
            1,
            book,
            LibraryList::Listening,
            Some(1),
            Some(42),
            10,
        )
        .unwrap();
    table
        .manage_library_entry(
            &catalog,
            1,
            book,
            LibraryList::Listening,
            Some(2),
            Some(99),
            20,
        )
        .unwrap();
    let e = table.get_library_entry(1, book).unwrap();
    assert_eq!(e.file_id, 2);
    assert_eq!(e.progress, 0, "switching files invalidates the offset");
    assert_eq!(e.modified, 20);
}

#[test]
fn upsert_writes_offset_when_file_unchanged() {
    let (catalog, book) = catalog_with_book(&[100, 50]);
    let mut table = LibraryTable::new();
    table
        .manage_library_entry(&catalog, 1, book, LibraryList::Listening, Some(2), None, 10)
        .unwrap();
    table
        .manage_library_entry(
            &catalog,
            1,
            book,
            LibraryList::Finished,
            None,
            Some(33),
            20,
        )
        .unwrap();
    let e = table.get_library_entry(1, book).unwrap();
    assert_eq!(e.file_id, 2);
    assert_eq!(e.progress, 33);
    assert_eq!(e.list, LibraryList::Finished);
}

#[test]
fn direct_progress_update_is_unconditional() {
    let (catalog, book) = catalog_with_book(&[100, 50]);
    let mut table = LibraryTable::new();
    table
        .manage_library_entry(&catalog, 1, book, LibraryList::Listening, None, None, 10)
        .unwrap();
    let resp = update_progress(
        &mut table,
        1,
        book,
        UpdateProgress {
            file_id: 2,
            progress: 7,
        },
        30,
    );
    assert_eq!(resp.message, "library--progress-updated".to_string());
    let e = table.get_library_entry(1, book).unwrap();
    assert_eq!(e.file_id, 2);
    assert_eq!(e.progress, 7);
    assert_eq!(e.modified, 30);
}

#[test]
fn direct_progress_update_without_entry_is_a_no_op() {
    let mut table = LibraryTable::new();
    update_progress(
        &mut table,
        1,
        5,
        UpdateProgress {
            file_id: 1,
            progress: 7,
        },
        30,
    );
    assert!(table.get_library_entry(1, 5).is_none());
}

#[test]
fn set_book_list_reports_success() {
    let (catalog, book) = catalog_with_book(&[100]);
    let mut table = LibraryTable::new();
    let resp = set_book_list(
        &mut table,
        &catalog,
        1,
        book,
        SetBookList {
            list: LibraryList::WantToListen,
            file_id: None,
            progress: None,
        },
        5,
    )
    .unwrap();
    assert_eq!(resp.message, "library--list-set".to_string());
    assert!(resp.success);
}

#[test]
fn library_listing_computes_fractions_most_recent_first() {
    let mut catalog = Catalog::new();
    let book1 = catalog.create_book(
        "One",
        "A",
        None,
        &vec![
            FileData {
                path: "/m/1.mp3".to_string(),
                name: "1".to_string(),
                duration: 100,
            },
            FileData {
                path: "/m/2.mp3".to_string(),
                name: "2".to_string(),
                duration: 50,
            },
        ],
        None,
        0,
    );
    let book2 = catalog.create_book(
        "Two",
        "B",
        None,
        &vec![FileData {
            path: "/m/3.mp3".to_string(),
            name: "3".to_string(),
            duration: 200,
        }],
        None,
        0,
    );
    let mut table = LibraryTable::new();
    table
        .manage_library_entry(&catalog, 1, book1, LibraryList::Listening, Some(2), Some(20), 10)
        .unwrap();
    table
        .manage_library_entry(&catalog, 1, book2, LibraryList::Finished, None, Some(50), 40)
        .unwrap();
    table
        .manage_library_entry(&catalog, 2, book1, LibraryList::Abandoned, None, None, 99)
        .unwrap();

    let rows = table.get_user_library(&catalog, 1);
    assert_eq!(rows.len(), 2);
    // Most recently modified first.
    assert_eq!(rows[0].id, book2);
    assert_eq!(rows[0].title, "Two".to_string());
    assert_eq!(rows[0].author, "B".to_string());
    assert_eq!(rows[0].list, LibraryList::Finished);
    assert_eq!(rows[0].progress.num, 50);
    assert_eq!(rows[0].progress.den, 200);
    assert_eq!(rows[1].id, book1);
    assert_eq!(rows[1].progress.num, 120);
    assert_eq!(rows[1].progress.den, 150);
}

#[test]
fn library_listing_skips_dangling_entries() {
    let (catalog, book) = catalog_with_book(&[100]);
    let mut table = LibraryTable::new();
    table
        .manage_library_entry(&catalog, 1, book, LibraryList::Listening, None, None, 10)
        .unwrap();
    // An entry pointing at a book the catalog does not know is joined
    // away.
    table
        .manage_library_entry(&catalog, 1, 999, LibraryList::Listening, Some(1), None, 20)
        .unwrap();
    let rows = table.get_user_library(&catalog, 1);
    assert_eq!(rows.len(), 1);
    assert_eq!(rows[0].id, book);
}

#[test]
fn list_names_follow_the_wire_format() {
    assert_eq!(LibraryList::Listening.as_str(), "listening");
    assert_eq!(LibraryList::WantToListen.as_str(), "want_to_listen");
    assert_eq!(LibraryList::Finished.as_str(), "finished");
    assert_eq!(LibraryList::Abandoned.as_str(), "abandoned");
}
