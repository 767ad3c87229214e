use std::io::Write;

use flate2::write::GzEncoder;
use flate2::Compression;
use inkpdf::storage::{load, load_capped, save, StorageError, MAX_DECOMPRESSED_BYTES};

/// A document as the app serializes it: the imported PDF embedded, one PDF
/// page with a text box (non-ASCII text), and one blank page.
fn sample() -> Vec<u8> {
    [
        r#"{"source":{"name":"sample.pdf","bytes":[37,80,68,70,45,1,2,3,4,5]},"pages":["#,
        r#"{"kind":{"Pdf":{"page_index":0}},"width":595.0,"height":842.0,"annotations":["#,
        r#"{"id":"67e55044-10b1-426f-9247-bb680e5fe0c8","kind":{"Text":{"x":12.5,"y":33.0,"size":14.0,"#,
        r#""runs":[{"text":"Hällo Ümlaut","style":{"color":{"r":0.0,"g":0.0,"b":0.0,"a":1.0},"#,
        r#""font":"Sans","bold":false,"italic":false,"underline":false,"strikethrough":false,"#,
        r#""highlight":null}}]}}}]},"#,
        r#"{"kind":{"Blank":{"color":{"r":1.0,"g":1.0,"b":1.0,"a":1.0},"pattern":"Plain","#,
        r#""pattern_spacing":20.0}},"width":595.0,"height":842.0,"annotations":[]}]}"#,
    ]
    .concat()
    .into_bytes()
}

#[test]
fn roundtrip_preserves_document() {
    let doc = sample();
    let stored = save(&doc).unwrap();
    let loaded = load(&stored).unwrap();
    assert_eq!(doc, loaded);
}

#[test]
fn load_rejects_garbage() {
    let result = load(b"not gzip");
    assert!(result.is_err());
}

#[test]
fn load_capped_rejects_a_gzip_bomb() {
    // Small on disk, but decompresses to far more than a tiny cap allows.
    let mut encoder = GzEncoder::new(Vec::new(), Compression::default());
    encoder.write_all(&vec![0u8; 10_000]).unwrap();
    let bomb = encoder.finish().unwrap();

    let result = load_capped(&bomb, 100);
    assert!(result.is_err(), "decompressing past the cap should error out, not allocate unbounded memory");
}

#[test]
fn load_capped_accepts_documents_within_the_cap() {
    let doc = sample();
    let stored = save(&doc).unwrap();
    let loaded = load_capped(&stored, MAX_DECOMPRESSED_BYTES);
    assert_eq!(doc, loaded.unwrap());
}

#[test]
fn storage_errors_name_their_cause() {
    assert!(matches!(load(b"not gzip"), Err(StorageError::Decompress(_))));
    let stored = save(&vec![7u8; 101]).unwrap();
    assert_eq!(load_capped(&stored, 100), Err(StorageError::TooLarge(100)));
    assert_eq!(load_capped(&stored, 101).unwrap(), vec![7u8; 101]);
}

#[test]
fn save_output_is_gzip_not_the_input() {
    let doc = sample();
    let stored = save(&doc).unwrap();
    assert_ne!(stored, doc);
    assert_eq!(&stored[..2], &[0x1f, 0x8b]);
}

#[test]
fn sample_document_is_json_and_survives_a_capped_load() {
    let doc = sample();
    assert!(serde_json::from_slice::<serde_json::Value>(&doc).is_ok());
    let stored = save(&doc).unwrap();
    assert_eq!(load_capped(&stored, doc.len() as u64).unwrap(), doc);
    assert_eq!(load_capped(&stored, doc.len() as u64 - 1), Err(StorageError::TooLarge(doc.len() as u64 - 1)));
}
