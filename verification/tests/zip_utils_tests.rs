use commandeur::zipname::{is_zip_like, normalize_zip_segments, strip_zip_extension};

#[test]
fn detects_zip_extensions() {
    assert!(is_zip_like("archive.zip"));
    assert!(is_zip_like("archive.ZIP"));
    assert!(is_zip_like("nested.zipx"));
}

#[test]
fn rejects_non_zip_extensions() {
    assert!(!is_zip_like("archive.tar"));
    assert!(!is_zip_like("document.txt"));
    assert!(!is_zip_like(""));
}

#[test]
fn strips_zip_extensions_case_insensitively() {
    assert_eq!(strip_zip_extension("archive.zip"), "archive");
    assert_eq!(strip_zip_extension("archive.ZIP"), "archive");
    assert_eq!(strip_zip_extension("nested.zipx"), "nested");
    assert_eq!(strip_zip_extension("plain.txt"), "plain.txt");
}

#[test]
fn normalizes_nested_archive_paths() {
    assert_eq!(
        normalize_zip_segments("1030/StudentOne.zip/nested/project.zip"),
        "1030/StudentOne/nested/project"
    );
    assert_eq!(normalize_zip_segments("a//b.zip/"), "a/b");
}
