use inkpdf::paths::{file_label, file_name, has_document_extension, with_extension};

#[test]
fn file_name_is_the_final_component() {
    assert_eq!(file_name("/tmp/foo.inkpdf"), "foo.inkpdf");
    assert_eq!(file_name("foo.pdf"), "foo.pdf");
    assert_eq!(file_name("/tmp/dir/"), "dir");
    assert_eq!(file_name("/tmp/dir/."), "dir");
    assert_eq!(file_name("a//b"), "b");
    assert_eq!(file_name("/"), "");
    assert_eq!(file_name(""), "");
    assert_eq!(file_name("."), "");
    assert_eq!(file_name("a/.."), "");
}

#[test]
fn file_label_falls_back_to_the_whole_path() {
    assert_eq!(file_label("/home/me/notes.inkpdf"), "notes.inkpdf");
    assert_eq!(file_label("/"), "/");
    assert_eq!(file_label("a/.."), "a/..");
}

#[test]
fn with_extension_adds_or_replaces_the_extension() {
    assert_eq!(with_extension("/tmp/foo"), "/tmp/foo.inkpdf");
    assert_eq!(with_extension("/tmp/foo.pdf"), "/tmp/foo.inkpdf");
    assert_eq!(with_extension("/tmp/foo.inkpdf"), "/tmp/foo.inkpdf");
    assert_eq!(with_extension("/tmp/foo.INKPDF"), "/tmp/foo.INKPDF");
    assert_eq!(with_extension("/tmp/.hidden"), "/tmp/.hidden.inkpdf");
    assert_eq!(with_extension("/tmp/a.b.c"), "/tmp/a.b.inkpdf");
    assert_eq!(with_extension("/"), "/");
}

#[test]
fn paths_agree_with_std() {
    for p in ["/tmp/foo.inkpdf", "rel/x.y.z", "/a/b/", "/a/b/.", "..", "/x/..", "./y", "q."] {
        let std_name = std::path::Path::new(p).file_name().map(|n| n.to_string_lossy().into_owned());
        assert_eq!(file_name(p), std_name.clone().unwrap_or_default(), "file name of {p}");
        let mut std_path = std::path::PathBuf::from(p);
        if std_path.extension().map_or(true, |e| !e.eq_ignore_ascii_case("inkpdf")) {
            std_path.set_extension("inkpdf");
        }
        assert_eq!(with_extension(p), std_path.to_string_lossy(), "with extension of {p}");
    }
}

#[test]
fn document_extension_is_recognized_in_any_case() {
    assert!(has_document_extension("/tmp/a.inkpdf"));
    assert!(has_document_extension("B.InkPDF"));
    assert!(!has_document_extension("/tmp/a.pdf"));
    assert!(!has_document_extension("/tmp/.inkpdf"));
    assert!(!has_document_extension("/tmp/inkpdf"));
    assert!(!has_document_extension("/"));
}

#[test]
fn with_extension_always_yields_the_document_extension() {
    for p in ["/tmp/foo", "/tmp/foo.pdf", "/tmp/a.b.c", "/tmp/.hidden", "dir/", "x/./", "q.", "NOTES.INKPDF"] {
        assert!(has_document_extension(&with_extension(p)), "{p}");
        assert_eq!(with_extension(&with_extension(p)), with_extension(p), "{p}");
    }
}
