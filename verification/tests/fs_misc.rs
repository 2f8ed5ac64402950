//! Directory-listing rules, probe-output selection, cover references, and
//! temporary-directory naming.

use freya::cover::{is_image_content_type, resolve_cover_source, CoverSource};
use freya::listfs::{
    categorize, is_audio_extension, is_hidden_name, is_image_extension, parent_path,
    sort_entries, Entry, FileCategory, FsQuery, FsResponse,
};
use freya::probe::{
    chapter_display_name, pick_book_tags, tag_value, FFProbeFormat, FFProbeOutput, FFProbeStream,
    FfprobeResponse, FileInfo,
};
use freya::storage::tmp_dir_name;

fn entry(name: &str, path: &str, category: FileCategory) -> Entry {
    Entry {
        name: name.to_string(),
        path: path.to_string(),
        category,
    }
}

/// A browsed directory holding an audio file, an image, a subdirectory,
/// a plain file, and a hidden file, categorized and ordered for listing.
fn listed_test_entries() -> Vec<Entry> {
    let raw = [
        ("3.mp3", true),
        ("2.png", true),
        ("test_dir", false),
        ("1.txt", true),
        (".hidden", true),
    ];
    let mut entries = Vec::new();
    for (name, is_file) in raw {
        if is_hidden_name(name) {
            continue;
        }
        let ext = name.rsplit_once('.').map(|(_, e)| e).unwrap_or("");
        let category = categorize(!is_file, is_file, ext);
        entries.push(entry(name, &format!("/tmp/list/{}", name), category));
    }
    sort_entries(entries)
}

#[test]
fn test_entry_count() {
    let result = listed_test_entries();
    assert_eq!(result.len(), 4);
}

#[test]
fn test_alphabetical_order() {
    // Directories first, then alphabetically.
    let result = listed_test_entries();
    assert_eq!(result[0].name, "test_dir");
    assert_eq!(result[1].name, "1.txt");
    assert_eq!(result[2].name, "2.png");
    assert_eq!(result[3].name, "3.mp3");
}

#[test]
fn test_entry_categories() {
    let result = listed_test_entries();
    assert_eq!(result[0].category, FileCategory::Directory);
    assert_eq!(result[1].category, FileCategory::File);
    assert_eq!(result[2].category, FileCategory::Image);
    assert_eq!(result[3].category, FileCategory::Audio);
}

#[test]
fn test_entry_paths() {
    let result = listed_test_entries();
    assert_eq!(result[0].path, format!("{}/test_dir", "/tmp/list"));
    assert_eq!(result[1].path, format!("{}/1.txt", "/tmp/list"));
    assert_eq!(result[2].path, format!("{}/2.png", "/tmp/list"));
    assert_eq!(result[3].path, format!("{}/3.mp3", "/tmp/list"));
}

#[test]
fn test_hidden_files_excluded() {
    let result = listed_test_entries();
    assert!(!result.iter().any(|entry| entry.name.starts_with('.')));
}

#[test]
fn known_extensions_are_recognized() {
    for ext in ["mp3", "flac", "wav", "ogg", "m4a", "m4b", "opus"] {
        assert!(is_audio_extension(ext));
        assert!(!is_image_extension(ext));
    }
    for ext in ["jpg", "jpeg", "png", "webp"] {
        assert!(is_image_extension(ext));
        assert!(!is_audio_extension(ext));
    }
    assert_eq!(categorize(false, true, "txt"), FileCategory::File);
    assert_eq!(categorize(true, false, "mp3"), FileCategory::Directory);
    assert_eq!(categorize(false, false, "mp3"), FileCategory::File);
}

#[test]
fn fs_response_echoes_the_query() {
    let q = FsQuery { path: Some("/media".to_string()) };
    let r = FsResponse {
        path: q.path.clone().unwrap(),
        parent_path: "/".to_string(),
        directory: Vec::new(),
    };
    assert_eq!(r.path, "/media".to_string());
    assert!(r.directory.is_empty());
}

#[test]
fn book_tags_prefer_album_and_author() {
    let tags = vec![
        ("title".to_string(), "Fallback title".to_string()),
        ("album".to_string(), "Test Album".to_string()),
        ("artist".to_string(), "Test Artist".to_string()),
    ];
    let (title, author) = pick_book_tags(&tags);
    assert_eq!(title, Some("Test Album".to_string()));
    assert_eq!(author, Some("Test Artist".to_string()));

    let tags = vec![
        ("title".to_string(), "Only Title".to_string()),
        ("author".to_string(), "Real Author".to_string()),
        ("artist".to_string(), "Ignored".to_string()),
    ];
    let (title, author) = pick_book_tags(&tags);
    assert_eq!(title, Some("Only Title".to_string()));
    assert_eq!(author, Some("Real Author".to_string()));

    let (title, author) = pick_book_tags(&Vec::new());
    assert_eq!(title, None);
    assert_eq!(author, None);
}

#[test]
fn tag_lookup_takes_the_first_match() {
    let tags = vec![
        ("k".to_string(), "first".to_string()),
        ("k".to_string(), "second".to_string()),
    ];
    assert_eq!(tag_value(&tags, "k"), Some("first".to_string()));
    assert_eq!(tag_value(&tags, "missing"), None);
}

#[test]
fn probe_shapes_carry_their_fields() {
    let out = FFProbeOutput {
        streams: Some(vec![FFProbeStream {
            codec_type: "audio".to_string(),
            duration: "5.041633".to_string(),
        }]),
        format: Some(FFProbeFormat {
            tags: Some(vec![("album".to_string(), "A".to_string())]),
        }),
    };
    assert_eq!(out.streams.as_ref().unwrap()[0].codec_type, "audio".to_string());
    let info = FileInfo {
        title: Some("A".to_string()),
        author: None,
        cover: None,
    };
    let resp = FfprobeResponse {
        path: "/m/x.mp3".to_string(),
        info,
    };
    assert_eq!(resp.info.title, Some("A".to_string()));
}

#[test]
fn untitled_chapters_are_numbered() {
    assert_eq!(
        chapter_display_name(3, None),
        "Chapter 3".to_string()
    );
    assert_eq!(
        chapter_display_name(3, Some("Prologue".to_string())),
        "Prologue".to_string()
    );
    assert_eq!(chapter_display_name(1207, None), "Chapter 1207".to_string());
}

#[test]
fn cover_references_resolve_by_scheme() {
    match resolve_cover_source("file:///covers/a.jpg").unwrap() {
        CoverSource::FileSystem(p) => assert_eq!(p, "/covers/a.jpg".to_string()),
        _ => panic!("expected a file-system source"),
    }
    match resolve_cover_source("extracted-file://abc.jpg").unwrap() {
        CoverSource::Extracted(n) => assert_eq!(n, "abc.jpg".to_string()),
        _ => panic!("expected an extracted source"),
    }
    assert!(resolve_cover_source("http://example/x.jpg").is_err());
    assert!(resolve_cover_source("plain-path.jpg").is_err());
}

#[test]
fn content_type_must_announce_an_image() {
    assert!(is_image_content_type("image/jpeg"));
    assert!(is_image_content_type("image/png"));
    assert!(!is_image_content_type("text/plain"));
    assert!(!is_image_content_type("imag"));
}

#[test]
fn test_tmp_path_name() {
    // Check if the temporary directory name starts with "freya-"
    let dir_name = tmp_dir_name();
    assert!(dir_name.starts_with("freya-"));
}

#[test]
fn test_tmp_path_uniqueness() {
    let a = tmp_dir_name();
    let b = tmp_dir_name();
    assert_ne!(a, b);
}

#[test]
fn parent_paths_walk_up_one_level() {
    assert_eq!(parent_path("/media/books"), "/media".to_string());
    assert_eq!(parent_path("/media"), "/".to_string());
    assert_eq!(parent_path("/"), "/".to_string());
    assert_eq!(parent_path("plain"), "/".to_string());
    assert_eq!(parent_path("/a/b/c"), "/a/b".to_string());
}
