use anchor::codec::{encode_storage, load_references, parse_storage};
use anchor::models::{Reference, StorageFile};

fn sample(id: &str, name: &str) -> Reference {
    Reference {
        id: id.to_string(),
        reference_name: name.to_string(),
        absolute_path: "/Users/x/proj".to_string(),
        type_: "folder".to_string(),
        status: "active".to_string(),
        tags: Vec::new(),
        description: None,
        created_at: "2024-01-01T00:00:00+00:00".to_string(),
        last_opened_at: "2024-01-01T00:00:00+00:00".to_string(),
        pinned: false,
    }
}

#[test]
fn encode_empty_collection() {
    let store = StorageFile::new();
    let text = encode_storage(&store);
    assert_eq!(text, "{\n  \"references\": []\n}");
}

#[test]
fn encode_one_record_exactly() {
    let store = StorageFile {
        references: vec![sample("abc", "Project X")],
    };
    let text = encode_storage(&store);
    let expected = "{\n  \"references\": [\n    {\n      \"id\": \"abc\",\n      \"referenceName\": \"Project X\",\n      \"absolutePath\": \"/Users/x/proj\",\n      \"type\": \"folder\",\n      \"status\": \"active\",\n      \"tags\": [],\n      \"description\": null,\n      \"createdAt\": \"2024-01-01T00:00:00+00:00\",\n      \"lastOpenedAt\": \"2024-01-01T00:00:00+00:00\",\n      \"pinned\": false\n    }\n  ]\n}";
    assert_eq!(text, expected);
}

#[test]
fn parse_handwritten_document_with_tags_and_description() {
    let text = "{\n  \"references\": [\n    {\n      \"id\": \"abc\",\n      \"referenceName\": \"Project X\",\n      \"absolutePath\": \"/Users/x/proj\",\n      \"type\": \"folder\",\n      \"status\": \"active\",\n      \"tags\": [\n        \"work\",\n        \"rust\"\n      ],\n      \"description\": \"first one\",\n      \"createdAt\": \"2024-01-01T00:00:00+00:00\",\n      \"lastOpenedAt\": \"2024-01-01T00:00:00+00:00\",\n      \"pinned\": true\n    }\n  ]\n}";
    let parsed = parse_storage(text).unwrap();
    let mut expected = sample("abc", "Project X");
    expected.tags = vec!["work".to_string(), "rust".to_string()];
    expected.description = Some("first one".to_string());
    expected.pinned = true;
    assert_eq!(parsed.references, vec![expected]);
    assert_eq!(encode_storage(&parsed), text);
}

#[test]
fn round_trip_preserves_fields_and_order() {
    let mut a = sample("id-a", "Alpha");
    a.tags = vec!["work".to_string(), "rust".to_string()];
    a.description = Some("first one".to_string());
    a.pinned = true;
    let b = sample("id-b", "Beta");
    let mut c = sample("id-c", "Gamma");
    c.type_ = "file".to_string();
    c.status = "archived".to_string();
    let store = StorageFile {
        references: vec![a, b, c],
    };
    let text = encode_storage(&store);
    let back = parse_storage(&text).unwrap();
    assert_eq!(back.references, store.references);
}

#[test]
fn round_trip_with_escaped_characters() {
    let mut r = sample("id-1", "has \"quotes\" and \\slash\\");
    r.description = Some("line one\nline two\ttabbed\r".to_string());
    r.tags = vec!["bell\u{0007}".to_string(), "\u{0001}ctl".to_string()];
    let store = StorageFile {
        references: vec![r],
    };
    let text = encode_storage(&store);
    let back = parse_storage(&text).unwrap();
    assert_eq!(back.references, store.references);
}

#[test]
fn save_after_load_is_stable() {
    let store = StorageFile {
        references: vec![sample("id-a", "Alpha"), sample("id-b", "Beta")],
    };
    let text = encode_storage(&store);
    let loaded = load_references(&text);
    let text_again = encode_storage(&loaded);
    assert_eq!(text, text_again);
}

#[test]
fn load_empty_file_gives_empty_collection() {
    let loaded = load_references("");
    assert!(loaded.references.is_empty());
}

#[test]
fn load_corrupt_file_gives_empty_collection() {
    assert!(load_references("this is not a document").references.is_empty());
    assert!(load_references("{}").references.is_empty());
    assert!(load_references("{\n  \"references\": [").references.is_empty());
    assert!(load_references("[1, 2, 3]").references.is_empty());
}

#[test]
fn load_truncated_document_gives_empty_collection() {
    let store = StorageFile {
        references: vec![sample("id-a", "Alpha")],
    };
    let text = encode_storage(&store);
    let truncated = &text[..text.len() - 2];
    assert!(load_references(truncated).references.is_empty());
}

#[test]
fn trailing_garbage_is_rejected() {
    let store = StorageFile {
        references: vec![sample("id-a", "Alpha")],
    };
    let mut text = encode_storage(&store);
    text.push_str(" ");
    assert!(parse_storage(&text).is_none());
}
