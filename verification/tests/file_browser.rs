use inkpdf::file_browser::{browser_entries, is_listed, BrowserEntry};
use std::path::PathBuf;

fn entry(name: &str, is_dir: bool) -> BrowserEntry {
    BrowserEntry { path: PathBuf::from("/root").join(name), name: name.to_string(), is_dir }
}

#[test]
fn browser_lists_dirs_then_pdf_and_inkpdf_files() {
    let found = browser_entries(vec![
        entry("zsubdir", true),
        entry("notes.pdf", false),
        entry("ignore.txt", false),
        entry("asubdir", true),
        entry("doc.inkpdf", false),
    ]);
    let names: Vec<String> =
        found.iter().map(|e| format!("{}{}", e.name, if e.is_dir { "/" } else { "" })).collect();
    assert_eq!(names, vec!["asubdir/", "zsubdir/", "doc.inkpdf", "notes.pdf"]);
    assert_eq!(found[0].path, PathBuf::from("/root/asubdir"));
}

#[test]
fn listing_goes_by_extension_in_any_case() {
    assert!(is_listed("A.PDF", false));
    assert!(is_listed("b.InkPdf", false));
    assert!(!is_listed("c.pdf.txt", false));
    assert!(!is_listed(".pdf", false));
    assert!(!is_listed("pdf", false));
    assert!(is_listed("anything.txt", true));
}

#[test]
fn browser_order_is_by_name_bytes_and_stable() {
    let found = browser_entries(vec![
        entry("b.pdf", false),
        entry("B.pdf", false),
        entry("a.pdf", false),
        entry("b.pdf", false),
    ]);
    let names: Vec<&str> = found.iter().map(|e| e.name.as_str()).collect();
    assert_eq!(names, vec!["B.pdf", "a.pdf", "b.pdf", "b.pdf"]);
    assert!(browser_entries(vec![]).is_empty());
}

#[test]
fn entries_that_compare_equal_keep_their_order() {
    let first = BrowserEntry { path: PathBuf::from("/one/b.pdf"), name: "b.pdf".to_string(), is_dir: false };
    let second = BrowserEntry { path: PathBuf::from("/two/b.pdf"), name: "b.pdf".to_string(), is_dir: false };
    let found = browser_entries(vec![entry("c.pdf", false), first, entry("a", true), second]);
    let paths: Vec<PathBuf> = found.iter().map(|e| e.path.clone()).collect();
    assert_eq!(
        paths,
        vec![
            PathBuf::from("/root/a"),
            PathBuf::from("/one/b.pdf"),
            PathBuf::from("/two/b.pdf"),
            PathBuf::from("/root/c.pdf")
        ]
    );
}
