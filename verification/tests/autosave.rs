use inkpdf::autosave::{
    document_file_name, document_temp_name, meta_file_name, meta_temp_name, recoverable_id, sort_recovered,
    uuid_string, AutosaveMeta, Recovered,
};
use std::path::PathBuf;

const ID: u128 = 0x67e5_5044_10b1_426f_9247_bb68_0e5f_e0c8;

#[test]
fn uuid_string_is_the_hyphenated_form() {
    assert_eq!(uuid_string(ID), "67e55044-10b1-426f-9247-bb680e5fe0c8");
    assert_eq!(uuid_string(ID), uuid::Uuid::from_u128(ID).to_string());
    assert_eq!(uuid_string(0), "00000000-0000-0000-0000-000000000000");
}

#[test]
fn autosave_file_names() {
    assert_eq!(document_file_name(ID), "67e55044-10b1-426f-9247-bb680e5fe0c8.inkpdf");
    assert_eq!(meta_file_name(ID), "67e55044-10b1-426f-9247-bb680e5fe0c8.meta.json");
    assert_eq!(document_temp_name(ID), "67e55044-10b1-426f-9247-bb680e5fe0c8.inkpdf.tmp");
    assert_eq!(meta_temp_name(ID), "67e55044-10b1-426f-9247-bb680e5fe0c8.meta.tmp");
}

#[test]
fn snapshot_names_are_recognized_and_foreign_files_are_not() {
    assert_eq!(recoverable_id(&document_file_name(ID)), Some(ID));
    assert_eq!(recoverable_id("67E55044-10B1-426F-9247-BB680E5FE0C8.INKPDF"), Some(ID));
    assert_eq!(recoverable_id("not-a-uuid.inkpdf"), None);
    assert_eq!(recoverable_id("random.txt"), None);
    assert_eq!(recoverable_id(&meta_file_name(ID)), None);
    assert_eq!(recoverable_id(&document_temp_name(ID)), None);
    assert_eq!(recoverable_id(".inkpdf"), None);
    // uuid also parses the simple form.
    assert_eq!(recoverable_id("67e5504410b1426f9247bb680e5fe0c8.inkpdf"), Some(ID));
}

#[test]
fn scan_results_are_ordered_by_id() {
    let found = |id: u128| Recovered {
        file: PathBuf::from(document_file_name(id)),
        id,
        meta: AutosaveMeta::default(),
    };
    let mut all = vec![found(30), found(10), found(20), found(10)];
    sort_recovered(&mut all);
    let ids: Vec<u128> = all.iter().map(|r| r.id).collect();
    assert_eq!(ids, vec![10, 10, 20, 30]);
    assert_eq!(all[3].file, PathBuf::from(document_file_name(30)));
}

#[test]
fn default_meta_has_no_original_path() {
    let meta = AutosaveMeta::default();
    assert!(meta.original_path.is_none());
    assert!(meta.label.is_empty());
}

#[test]
fn snapshots_with_equal_ids_keep_their_order() {
    let found = |id: u128, file: &str| Recovered { file: PathBuf::from(file), id, meta: AutosaveMeta::default() };
    let mut all = vec![found(5, "x"), found(1, "y"), found(5, "z")];
    sort_recovered(&mut all);
    let files: Vec<PathBuf> = all.iter().map(|r| r.file.clone()).collect();
    assert_eq!(files, vec![PathBuf::from("y"), PathBuf::from("x"), PathBuf::from("z")]);
}
