//! The catalog: book creation, file ordering, chapters, covers, and the
//! upload preparation steps.

use freya::api::{
    audio_file_path, check_upload, get_book_details_response, sort_files_by_name,
    UploadBookResponse,
};
use freya::progress::{LibraryList, LibraryTable};
use freya::catalog::{Catalog, ChapterData, FileData};
use freya::response::ApiError;
use freya::text::derive_file_name;

fn file(path: &str, name: &str, duration: u32) -> FileData {
    FileData {
        path: path.to_string(),
        name: name.to_string(),
        duration,
    }
}

fn fixture_catalog() -> (Catalog, i64) {
    let mut catalog = Catalog::new();
    let files = vec![file(
        "/media/Daniel B. Greene - A Witch's Sin/A Witch's Sin.m4b",
        "A Witch's Sin",
        3600,
    )];
    let chapters = vec![
        ChapterData {
            name: "Opening Credits".to_string(),
            start: 0,
            end: 30,
        },
        ChapterData {
            name: "End Credits".to_string(),
            start: 3500,
            end: 3600,
        },
    ];
    let book_id = catalog.create_book("A Witch's Sin", "Daniel B. Greene", None, &files, Some(&chapters), 0);
    (catalog, book_id)
}

#[test]
fn test_get_chapters() {
    let (catalog, book_id) = fixture_catalog();
    let chapters = catalog.get_chapters_for_book(book_id);
    assert_eq!(chapters.len(), 2);
    assert_eq!(chapters[0].book_id, book_id);
    assert_eq!(chapters[0].name, "Opening Credits".to_string());
    assert_eq!(chapters[0].start, 0);
    let last_chapter = chapters.last().expect("Should be able to get last chapter");
    assert_eq!(last_chapter.book_id, book_id);
    assert_eq!(last_chapter.name, "End Credits".to_string());
}

#[test]
fn test_get_chapters_empty() {
    let (catalog, _) = fixture_catalog();
    let chapters = catalog.get_chapters_for_book(999);
    assert_eq!(chapters.len(), 0);
}

#[test]
fn test_get_files_for_book() {
    let (catalog, book_id) = fixture_catalog();
    let files = catalog.get_files_for_book(book_id);
    assert_eq!(files.len(), 1);
    assert_eq!(files[0].book_id, book_id);
    assert_eq!(files[0].name, "A Witch's Sin");
    assert_eq!(files[0].position, 1);
}

#[test]
fn test_get_files_for_book_empty() {
    let (catalog, _) = fixture_catalog();
    let files = catalog.get_files_for_book(999);
    assert_eq!(files.len(), 0);
}

#[test]
fn test_get_file_path() {
    let (catalog, _) = fixture_catalog();
    let path = catalog
        .get_file_path(1)
        .expect("File path should exist");
    assert_eq!(
        path,
        "/media/Daniel B. Greene - A Witch's Sin/A Witch's Sin.m4b"
    );
}

#[test]
fn test_get_file_path_not_found() {
    let (catalog, _) = fixture_catalog();
    let path = catalog.get_file_path(999);
    assert!(path.is_none());
}

#[test]
fn test_get_book_cover() {
    let (catalog, book_id) = fixture_catalog();
    let cover = catalog.get_book_cover(book_id);
    assert!(cover.is_none()); // The fixture book was created without one.
}

#[test]
fn test_get_book_cover_not_found() {
    let (catalog, _) = fixture_catalog();
    let cover = catalog.get_book_cover(999);
    assert!(cover.is_none());
}

#[test]
fn stored_cover_is_returned() {
    let mut catalog = Catalog::new();
    let book_id = catalog.create_book(
        "T",
        "A",
        Some(vec![1u8, 2, 3]),
        &vec![file("/m/x.mp3", "x", 10)],
        None,
        0,
    );
    assert_eq!(catalog.get_book_cover(book_id), Some(vec![1u8, 2, 3]));
}

#[test]
fn create_book_assigns_positions_in_order() {
    let mut catalog = Catalog::new();
    let files = vec![
        file("/m/01.mp3", "01 intro", 10),
        file("/m/02.mp3", "02 part", 20),
        file("/m/03.mp3", "03 end", 30),
    ];
    let book_id = catalog.create_book("T", "A", None, &files, None, 7);
    let stored = catalog.get_files_for_book(book_id);
    assert_eq!(stored.len(), 3);
    for (i, f) in stored.iter().enumerate() {
        assert_eq!(f.position, (i as i64) + 1);
        assert_eq!(f.name, files[i].name);
        assert_eq!(f.duration, files[i].duration);
        assert_eq!(f.created, 7);
    }
    let response = UploadBookResponse { book_id };
    assert_eq!(response.book_id, 1);
}

#[test]
fn books_are_listed_by_title() {
    let mut catalog = Catalog::new();
    catalog.create_book("Zebra", "A", None, &Vec::new(), None, 0);
    catalog.create_book("Alpha", "B", None, &Vec::new(), None, 0);
    catalog.create_book("Mid", "C", None, &Vec::new(), None, 0);
    let books = catalog.get_all_books();
    assert_eq!(books.len(), 3);
    assert_eq!(books[0].title, "Alpha".to_string());
    assert_eq!(books[1].title, "Mid".to_string());
    assert_eq!(books[2].title, "Zebra".to_string());
    assert!(books[0].duration.is_none());
}

#[test]
fn book_details_carry_the_total_duration() {
    let mut catalog = Catalog::new();
    let with_files = catalog.create_book(
        "T",
        "A",
        None,
        &vec![file("/m/1.mp3", "1", 100), file("/m/2.mp3", "2", 50)],
        None,
        0,
    );
    let empty = catalog.create_book("E", "A", None, &Vec::new(), None, 0);
    let details = catalog.get_book_details(with_files).unwrap();
    assert_eq!(details.duration, Some(150));
    let details = catalog.get_book_details(empty).unwrap();
    assert_eq!(details.duration, None);
    assert!(catalog.get_book_details(999).is_none());
}

#[test]
fn audio_file_path_maps_missing_files_to_invalid_path() {
    let (catalog, _) = fixture_catalog();
    assert!(audio_file_path(&catalog, 1).is_ok());
    assert!(matches!(
        audio_file_path(&catalog, 42),
        Err(ApiError::InvalidPath)
    ));
}

#[test]
fn upload_validation_requires_title_author_and_files() {
    assert!(check_upload("T", "A", 1).is_ok());
    assert!(matches!(
        check_upload("  ", "A", 1),
        Err(ApiError::UploadMissingData)
    ));
    assert!(matches!(
        check_upload("T", "\t", 1),
        Err(ApiError::UploadMissingData)
    ));
    assert!(matches!(
        check_upload("T", "A", 0),
        Err(ApiError::UploadMissingData)
    ));
}

#[test]
fn upload_files_are_sorted_by_name() {
    let input = vec![
        file("/m/c.mp3", "c", 1),
        file("/m/a.mp3", "a", 2),
        file("/m/b.mp3", "b", 3),
    ];
    let sorted = sort_files_by_name(input);
    assert_eq!(sorted[0].name, "a".to_string());
    assert_eq!(sorted[1].name, "b".to_string());
    assert_eq!(sorted[2].name, "c".to_string());
}

#[test]
fn file_names_derive_from_paths() {
    assert_eq!(
        derive_file_name("/media/book/01_intro_part.mp3"),
        "01 intro part".to_string()
    );
    assert_eq!(derive_file_name("plain.mp3"), "plain".to_string());
    assert_eq!(derive_file_name("noext"), "noext".to_string());
    assert_eq!(derive_file_name("/a/b/.hidden"), ".hidden".to_string());
    assert_eq!(derive_file_name("/a/archive.tar.gz"), "archive.tar".to_string());
}

#[test]
fn single_file_books_are_found_for_rediscovery() {
    let mut catalog = Catalog::new();
    let single = catalog.create_book("S", "A", None, &vec![file("/m/s.m4b", "s", 10)], None, 0);
    catalog.create_book(
        "D",
        "A",
        None,
        &vec![file("/m/1.mp3", "1", 10), file("/m/2.mp3", "2", 10)],
        None,
        0,
    );
    let found = catalog.single_file_books();
    assert_eq!(found.len(), 1);
    assert_eq!(found[0].0, single);
    assert_eq!(found[0].1, "/m/s.m4b".to_string());
}

#[test]
fn rediscovered_chapters_replace_the_old_ones() {
    let (mut catalog, book_id) = fixture_catalog();
    let fresh = vec![
        ChapterData {
            name: "Start".to_string(),
            start: 0,
            end: 2,
        },
        ChapterData {
            name: "End".to_string(),
            start: 2,
            end: 5,
        },
    ];
    catalog.replace_chapters(book_id, &fresh);
    let chapters = catalog.get_chapters_for_book(book_id);
    assert_eq!(chapters.len(), 2);
    assert_eq!(chapters[0].name, "Start".to_string());
    assert_eq!(chapters[0].start, 0);
    assert_eq!(chapters[0].end, 2);
    assert_eq!(chapters[1].name, "End".to_string());
    assert_eq!(chapters[1].start, 2);
    assert_eq!(chapters[1].end, 5);
}

#[test]
fn book_details_response_joins_all_parts() {
    let (catalog, book_id) = fixture_catalog();
    let mut table = LibraryTable::new();
    table
        .manage_library_entry(&catalog, 1, book_id, LibraryList::Listening, None, None, 5)
        .unwrap();
    let resp = get_book_details_response(&catalog, &table, 1, book_id).unwrap();
    assert_eq!(resp.book.id, book_id);
    assert_eq!(resp.book.title, "A Witch's Sin".to_string());
    assert_eq!(resp.book.duration, Some(3600));
    assert_eq!(resp.files.len(), 1);
    assert_eq!(resp.chapters.len(), 2);
    let entry = resp.library.expect("the user has an entry");
    assert_eq!(entry.file_id, 1);
    // Another user has no entry for the book.
    let resp = get_book_details_response(&catalog, &table, 2, book_id).unwrap();
    assert!(resp.library.is_none());
    // An unknown book is not found.
    assert!(matches!(
        get_book_details_response(&catalog, &table, 1, 999),
        Err(ApiError::NotFound)
    ));
}
