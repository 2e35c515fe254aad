use whisper_gateway::archive::FileArchive;

#[test]
fn create_assigns_fresh_ids_and_keeps_order() {
    let mut a = FileArchive::new();
    let f1 = a.create("one.wav".to_string(), 10).unwrap();
    let f2 = a.create("two.wav".to_string(), 20).unwrap();
    assert_ne!(f1.id, f2.id);
    let listed = a.list();
    assert_eq!(listed.len(), 2);
    assert_eq!(listed[0].id, f1.id);
    assert_eq!(listed[0].filename, "one.wav");
    assert_eq!(listed[0].bytes, 10);
    assert_eq!(listed[1].id, f2.id);
    assert_eq!(listed[1].bytes, 20);
}

#[test]
fn delete_removes_exactly_the_named_entry() {
    let mut a = FileArchive::new();
    let f1 = a.create("one.wav".to_string(), 10).unwrap();
    let f2 = a.create("two.wav".to_string(), 20).unwrap();
    assert!(a.delete(&f1.id));
    let listed = a.list();
    assert_eq!(listed.len(), 1);
    assert_eq!(listed[0].id, f2.id);
    assert!(!a.delete(&f1.id), "a second delete of the same id reports false");
    assert!(!a.delete("file_never-created"));
    assert_eq!(a.len(), 1);
}

#[test]
fn create_with_id_rejects_a_taken_id() {
    let mut a = FileArchive::new();
    let f = a
        .create_with_id("file_fixed".to_string(), 7, "x.wav".to_string(), 1)
        .unwrap();
    assert_eq!(f.id, "file_fixed");
    assert_eq!(f.created_at, 7);
    let e = a
        .create_with_id("file_fixed".to_string(), 8, "y.wav".to_string(), 2)
        .unwrap_err();
    assert!(matches!(e.kind, whisper_gateway::response::ErrorKind::IOFailure));
    assert_eq!(a.len(), 1);
}

#[test]
fn contains_id_tracks_membership() {
    let mut a = FileArchive::new();
    assert!(!a.contains_id("file_x"));
    a.create_with_id("file_x".to_string(), 1, "a".to_string(), 0).unwrap();
    assert!(a.contains_id("file_x"));
    a.delete("file_x");
    assert!(!a.contains_id("file_x"));
}
