use anchor::models::{Reference, StorageFile};
use anchor::store::{RequiredField, StoreError};

fn candidate(name: &str, path: &str, ty: &str, status: &str) -> Reference {
    Reference {
        id: String::new(),
        reference_name: name.to_string(),
        absolute_path: path.to_string(),
        type_: ty.to_string(),
        status: status.to_string(),
        tags: Vec::new(),
        description: None,
        created_at: String::new(),
        last_opened_at: String::new(),
        pinned: false,
    }
}

const T1: &str = "2024-01-01T00:00:00+00:00";
const T2: &str = "2024-01-02T09:30:00+00:00";

#[test]
fn create_assigns_id_and_timestamps() {
    let mut store = StorageFile::new();
    let r = store
        .create_with(
            candidate("Project X", "/Users/x/proj", "folder", "active"),
            "id-1".to_string(),
            T1.to_string(),
        )
        .unwrap();
    assert_eq!(r.id, "id-1");
    assert!(!r.id.is_empty());
    assert_eq!(r.created_at, T1);
    assert_eq!(r.last_opened_at, T1);
    assert_eq!(r.created_at, r.last_opened_at);
    assert_eq!(store.references.len(), 1);
    assert_eq!(store.references[0], r);
}

#[test]
fn create_with_live_clock_and_uuid() {
    let mut store = StorageFile::new();
    let r = store
        .create(candidate("Project X", "/Users/x/proj", "folder", "active"))
        .unwrap();
    assert_eq!(r.id.len(), 36);
    assert_eq!(r.created_at, r.last_opened_at);
    assert!(!r.created_at.is_empty());
    let r2 = store
        .create(candidate("Other", "/tmp/other", "file", "idea"))
        .unwrap();
    assert_ne!(r.id, r2.id);
}

#[test]
fn create_ids_distinct_across_many_calls() {
    let mut store = StorageFile::new();
    let mut ids: Vec<String> = Vec::new();
    for k in 0..8 {
        let r = store
            .create(candidate(&format!("n{}", k), "/p", "folder", "active"))
            .unwrap();
        ids.push(r.id);
    }
    for a in 0..ids.len() {
        for b in (a + 1)..ids.len() {
            assert_ne!(ids[a], ids[b]);
        }
    }
}

#[test]
fn create_falls_back_when_id_taken() {
    let mut store = StorageFile::new();
    let first = store
        .create_with(
            candidate("A", "/a", "folder", "active"),
            "dup".to_string(),
            T1.to_string(),
        )
        .unwrap();
    let second = store
        .create_with(
            candidate("B", "/b", "folder", "active"),
            "dup".to_string(),
            T1.to_string(),
        )
        .unwrap();
    assert_eq!(first.id, "dup");
    assert_ne!(second.id, "dup");
    assert!(!second.id.is_empty());
}

#[test]
fn create_rejects_blank_name() {
    let mut store = StorageFile::new();
    let before = store.references.clone();
    let r = store.create_with(
        candidate("   ", "/a", "folder", "active"),
        "id-1".to_string(),
        T1.to_string(),
    );
    assert_eq!(
        r,
        Err(StoreError::Validation(RequiredField::ReferenceName))
    );
    assert_eq!(store.references, before);
}

#[test]
fn create_rejects_blank_path() {
    let mut store = StorageFile::new();
    let r = store.create_with(
        candidate("A", "", "folder", "active"),
        "id-1".to_string(),
        T1.to_string(),
    );
    assert_eq!(r, Err(StoreError::Validation(RequiredField::AbsolutePath)));
    assert!(store.references.is_empty());
}

#[test]
fn create_rejects_empty_type() {
    let mut store = StorageFile::new();
    let r = store.create_with(
        candidate("A", "/a", "", "active"),
        "id-1".to_string(),
        T1.to_string(),
    );
    assert_eq!(r, Err(StoreError::Validation(RequiredField::Type)));
    assert!(store.references.is_empty());
}

#[test]
fn create_rejects_empty_status() {
    let mut store = StorageFile::new();
    let r = store.create_with(
        candidate("A", "/a", "folder", ""),
        "id-1".to_string(),
        T1.to_string(),
    );
    assert_eq!(r, Err(StoreError::Validation(RequiredField::Status)));
    assert!(store.references.is_empty());
}

#[test]
fn update_preserves_id_and_created_at() {
    let mut store = StorageFile::new();
    let created = store
        .create_with(
            candidate("Project X", "/Users/x/proj", "folder", "active"),
            "id-1".to_string(),
            T1.to_string(),
        )
        .unwrap();
    let updated = store
        .update_with(
            &"id-1".to_string(),
            candidate("Project X", "/Users/x/proj", "folder", "completed"),
            T2.to_string(),
        )
        .unwrap();
    assert_eq!(updated.id, created.id);
    assert_eq!(updated.created_at, created.created_at);
    assert_eq!(updated.status, "completed");
    assert_eq!(updated.last_opened_at, T2);
    assert!(updated.last_opened_at > created.last_opened_at);
    assert_eq!(store.references.len(), 1);
    assert_eq!(store.references[0], updated);
}

#[test]
fn update_missing_id_reports_not_found() {
    let mut store = StorageFile::new();
    let r = store.update_with(
        &"ghost".to_string(),
        candidate("A", "/a", "folder", "active"),
        T1.to_string(),
    );
    assert_eq!(r, Err(StoreError::NotFound));
}

#[test]
fn update_validates_before_lookup() {
    let mut store = StorageFile::new();
    let r = store.update_with(
        &"ghost".to_string(),
        candidate("", "/a", "folder", "active"),
        T1.to_string(),
    );
    assert_eq!(
        r,
        Err(StoreError::Validation(RequiredField::ReferenceName))
    );
}

#[test]
fn delete_removes_the_record() {
    let mut store = StorageFile::new();
    store
        .create_with(
            candidate("A", "/a", "folder", "active"),
            "id-1".to_string(),
            T1.to_string(),
        )
        .unwrap();
    store
        .create_with(
            candidate("B", "/b", "file", "idea"),
            "id-2".to_string(),
            T1.to_string(),
        )
        .unwrap();
    assert_eq!(store.delete(&"id-1".to_string()), Ok(()));
    assert_eq!(store.references.len(), 1);
    assert_eq!(store.references[0].id, "id-2");
}

#[test]
fn delete_missing_id_leaves_store_unchanged() {
    let mut store = StorageFile::new();
    store
        .create_with(
            candidate("A", "/a", "folder", "active"),
            "id-1".to_string(),
            T1.to_string(),
        )
        .unwrap();
    let before = store.references.clone();
    assert_eq!(store.delete(&"ghost".to_string()), Err(StoreError::NotFound));
    assert_eq!(store.references, before);
}

#[test]
fn full_lifecycle_scenario() {
    let mut store = StorageFile::new();
    let created = store
        .create_with(
            candidate("Project X", "/Users/x/proj", "folder", "active"),
            "11111111-2222-3333-4444-555555555555".to_string(),
            T1.to_string(),
        )
        .unwrap();
    assert!(!created.id.is_empty());
    assert_eq!(created.created_at, created.last_opened_at);

    let updated = store
        .update_with(
            &created.id,
            candidate("Project X", "/Users/x/proj", "folder", "completed"),
            T2.to_string(),
        )
        .unwrap();
    assert_eq!(updated.id, created.id);
    assert_eq!(updated.created_at, created.created_at);
    assert_eq!(updated.status, "completed");
    assert!(updated.last_opened_at > created.last_opened_at);

    assert_eq!(store.delete(&created.id), Ok(()));
    let text = anchor::codec::encode_storage(&store);
    let reloaded = anchor::codec::load_references(&text);
    assert!(reloaded.references.iter().all(|r| r.id != created.id));
    assert!(reloaded.references.is_empty());
}
