use ptime::error::PtimeError;
use ptime::scanner::{compute_relative_path, is_canonical, is_jpeg_extension, select_candidates, WalkEntry};

fn file(path: &str) -> WalkEntry {
    WalkEntry::Entry {
        path: String::from(path),
        is_file: true,
    }
}

#[test]
fn test_is_jpeg_extension() {
    assert!(is_jpeg_extension("photo.jpg"));
    assert!(is_jpeg_extension("photo.jpeg"));
    assert!(is_jpeg_extension("photo.JPG"));
    assert!(is_jpeg_extension("photo.JPEG"));
    assert!(is_jpeg_extension("photo.JpG"));

    assert!(!is_jpeg_extension("photo.png"));
    assert!(!is_jpeg_extension("photo.gif"));
    assert!(!is_jpeg_extension("photo"));
    assert!(!is_jpeg_extension("photo.txt"));
}

#[test]
fn jpeg_extension_edge_cases() {
    assert!(is_jpeg_extension("/a.b/c.d.jpeg"));
    assert!(!is_jpeg_extension("/dir.jpg/photo"));
    assert!(!is_jpeg_extension("/dir/.jpg"));
    assert!(is_jpeg_extension("/dir/..jpg"));
    assert!(!is_jpeg_extension("photo.jpgx"));
    assert!(!is_jpeg_extension("photo."));
    assert!(!is_jpeg_extension(""));
}

#[test]
fn jpeg_extension_reads_last_named_segment() {
    assert!(is_jpeg_extension("photo.jpg/"));
    assert!(is_jpeg_extension("photo.jpg/."));
    assert!(is_jpeg_extension("/a/photo.JPEG//./"));
    assert!(!is_jpeg_extension("photo.jpg/.."));
    assert!(!is_jpeg_extension("."));
    assert!(!is_jpeg_extension("/"));
    assert!(!is_jpeg_extension("/."));
}

#[test]
fn test_compute_relative_path() {
    let root = "/base/path";
    let abs_path = "/base/path/subdir/file.jpg";

    let rel = compute_relative_path(root, abs_path).unwrap();
    assert_eq!(rel, "subdir/file.jpg");
}

#[test]
fn relative_path_edge_cases() {
    assert_eq!(compute_relative_path("/", "/x.jpg").unwrap(), "x.jpg");
    assert_eq!(compute_relative_path("/base", "/base").unwrap(), "");
    let err = compute_relative_path("/base/path", "/base/pathx/a.jpg").unwrap_err();
    assert!(matches!(err, PtimeError::RelativePathError { ref path } if path == "/base/pathx/a.jpg"));
    assert!(compute_relative_path("/base/path", "/other/a.jpg").is_err());
}

#[test]
fn relative_path_is_relative_and_joins_back() {
    assert_eq!(compute_relative_path("/", "/").unwrap(), "");
    assert_eq!(compute_relative_path("/", "/a/b.jpg").unwrap(), "a/b.jpg");
    assert_eq!(compute_relative_path("/a", "/a/b/c.jpg").unwrap(), "b/c.jpg");
    assert_eq!(format!("/a/{}", compute_relative_path("/a", "/a/..b/c").unwrap()), "/a/..b/c");
    assert!(compute_relative_path("/a/b", "/a").is_err());
}

#[test]
fn canonical_paths() {
    assert!(is_canonical("/"));
    assert!(is_canonical("/a/b.jpg"));
    assert!(is_canonical("/a/..b/.c"));
    assert!(!is_canonical(""));
    assert!(!is_canonical("a/b"));
    assert!(!is_canonical("/a/"));
    assert!(!is_canonical("/a//b"));
    assert!(!is_canonical("/a/./b"));
    assert!(!is_canonical("/a/.."));
    assert!(!is_canonical("//"));
}

#[test]
fn scan_keeps_exactly_the_jpeg_files() {
    let entries = vec![
        WalkEntry::Entry { path: String::from("/r"), is_file: false },
        file("/r/photo1.jpg"),
        file("/r/photo2.JPEG"),
        file("/r/photo3.JPG"),
        file("/r/document.txt"),
        file("/r/image.png"),
        WalkEntry::Entry { path: String::from("/r/folder.jpg"), is_file: false },
    ];
    let found = select_candidates("/r", &entries).unwrap();
    let rel: Vec<&str> = found.iter().map(|f| f.rel_path.as_str()).collect();
    assert_eq!(rel, vec!["photo1.jpg", "photo2.JPEG", "photo3.JPG"]);
    assert_eq!(found[1].abs_path, "/r/photo2.JPEG");
}

#[test]
fn scan_stops_at_unreadable_entry() {
    let entries = vec![
        file("/r/a.jpg"),
        WalkEntry::Failed { path: String::from("/r/locked"), message: String::from("denied") },
        file("/elsewhere/b.jpg"),
    ];
    let err = select_candidates("/r", &entries).unwrap_err();
    assert!(matches!(err, PtimeError::DirectoryReadError { ref path, ref source }
        if path == "/r/locked" && source == "denied"));
    assert_eq!(err.exit_code(), 3);
}

#[test]
fn scan_rejects_candidate_outside_root() {
    let entries = vec![file("/elsewhere/b.jpg"), file("/elsewhere/c.txt")];
    let err = select_candidates("/r", &entries).unwrap_err();
    assert!(matches!(err, PtimeError::RelativePathError { ref path } if path == "/elsewhere/b.jpg"));
    assert_eq!(err.exit_code(), 1);
    let ok = select_candidates("/r", &vec![file("/elsewhere/c.txt")]).unwrap();
    assert!(ok.is_empty());
}
