use kidur::{CrdtDoc, KidurError, LoroCrdtDoc};

#[test]
fn empty_doc_has_empty_text() {
    let doc = LoroCrdtDoc::new();
    assert_eq!(doc.get_text().unwrap(), "");
}

#[test]
fn insert_and_read() {
    let mut doc = LoroCrdtDoc::new();
    doc.insert_text(0, "hello").unwrap();
    assert_eq!(doc.get_text().unwrap(), "hello");
}

#[test]
fn insert_and_delete() {
    let mut doc = LoroCrdtDoc::new();
    doc.insert_text(0, "hello world").unwrap();
    doc.delete_text(5, 6).unwrap();
    assert_eq!(doc.get_text().unwrap(), "hello");
}

#[test]
fn snapshot_roundtrip() {
    let mut doc = LoroCrdtDoc::new();
    doc.insert_text(0, "snapshot test").unwrap();
    let bytes = doc.export_snapshot().unwrap();

    let doc2 = LoroCrdtDoc::from_snapshot(&bytes).unwrap();
    assert_eq!(doc2.get_text().unwrap(), "snapshot test");
}

#[test]
fn import_snapshot_replaces_state() {
    let mut doc = LoroCrdtDoc::new();
    doc.insert_text(0, "original").unwrap();
    let bytes = doc.export_snapshot().unwrap();

    let mut doc2 = LoroCrdtDoc::new();
    doc2.insert_text(0, "will be replaced").unwrap();
    doc2.import_snapshot(&bytes).unwrap();
    assert_eq!(doc2.get_text().unwrap(), "original");
}

#[test]
fn insert_in_the_middle_counts_characters() {
    let mut doc = LoroCrdtDoc::default();
    doc.insert_text(0, "héllo").unwrap();
    doc.insert_text(2, "XY").unwrap();
    assert_eq!(doc.get_text().unwrap(), "héXYllo");
}

#[test]
fn out_of_range_edits_are_refused() {
    let mut doc = LoroCrdtDoc::new();
    doc.insert_text(0, "abc").unwrap();
    assert!(matches!(doc.insert_text(4, "x"), Err(KidurError::Crdt(_))));
    assert!(matches!(doc.delete_text(2, 5), Err(KidurError::Crdt(_))));
    assert!(doc.delete_text(10, 0).is_ok());
    assert_eq!(doc.get_text().unwrap(), "abc");
}

#[test]
fn delete_undoes_insert() {
    let mut doc = LoroCrdtDoc::new();
    doc.insert_text(0, "base text").unwrap();
    doc.insert_text(4, " inserted").unwrap();
    doc.delete_text(4, 9).unwrap();
    assert_eq!(doc.get_text().unwrap(), "base text");
}

#[test]
fn garbage_snapshot_is_refused() {
    assert!(matches!(LoroCrdtDoc::from_snapshot(&[1, 2, 3, 4]), Err(KidurError::Crdt(_))));
    let mut doc = LoroCrdtDoc::new();
    doc.insert_text(0, "kept").unwrap();
    assert!(doc.import_snapshot(&[9, 9, 9]).is_err());
    assert_eq!(doc.get_text().unwrap(), "kept");
}

#[test]
fn edits_inside_the_text_succeed() {
    let mut doc = LoroCrdtDoc::new();
    assert!(doc.insert_text(0, "abc").is_ok());
    assert!(doc.insert_text(3, "def").is_ok());
    assert!(doc.delete_text(0, 6).is_ok());
    assert_eq!(doc.get_text().unwrap(), "");
    assert!(doc.insert_text(1, "x").is_err());
    assert!(doc.delete_text(0, 1).is_err());
    assert!(doc.delete_text(5, 0).is_ok());
}

#[test]
fn exported_snapshot_is_accepted() {
    let mut doc = LoroCrdtDoc::new();
    doc.insert_text(0, "kept").unwrap();
    let bytes = doc.export_snapshot().unwrap();
    let restored = LoroCrdtDoc::from_snapshot(&bytes).unwrap();
    assert_eq!(restored.get_text().unwrap(), "kept");
    assert!(LoroCrdtDoc::from_snapshot(b"not a snapshot").is_err());
}
