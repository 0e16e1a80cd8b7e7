//! Filesystem reconciler tests.

use commonplace_doc::document::{ContentType, DocumentStore};
use commonplace_doc::fs::{validate_name, FilesystemReconciler, FsError};

/// Test that reconciler creates documents from filesystem JSON.
#[test]
fn test_reconciler_creates_documents() {
    let mut store = DocumentStore::new();
    store.get_or_create_with_id("test-fs", ContentType::Json);
    let mut reconciler = FilesystemReconciler::new("test-fs".to_string());

    let content = r#"{
        "version": 1,
        "root": {
            "type": "dir",
            "entries": {
                "notes.txt": { "type": "doc" },
                "data.json": { "type": "doc", "content_type": "application/json" }
            }
        }
    }"#;

    reconciler.reconcile(&mut store, content).unwrap();

    assert!(
        store.get_document("test-fs:notes.txt").is_some(),
        "notes.txt document should exist"
    );
    assert!(
        store.get_document("test-fs:data.json").is_some(),
        "data.json document should exist"
    );
}

/// Test that explicit node_id is used instead of derived ID.
#[test]
fn test_reconciler_uses_explicit_node_id() {
    let mut store = DocumentStore::new();
    store.get_or_create_with_id("test-fs", ContentType::Json);
    let mut reconciler = FilesystemReconciler::new("test-fs".to_string());

    let content = r#"{
        "version": 1,
        "root": {
            "type": "dir",
            "entries": {
                "stable.txt": {
                    "type": "doc",
                    "node_id": "my-stable-id"
                }
            }
        }
    }"#;

    reconciler.reconcile(&mut store, content).unwrap();

    assert!(
        store.get_document("my-stable-id").is_some(),
        "explicit node ID should exist"
    );
    assert!(
        store.get_document("test-fs:stable.txt").is_none(),
        "derived ID should NOT exist"
    );
}

/// Test that removing entry from JSON doesn't delete the document.
#[test]
fn test_reconciler_non_destructive() {
    let mut store = DocumentStore::new();
    store.get_or_create_with_id("test-fs", ContentType::Json);
    let mut reconciler = FilesystemReconciler::new("test-fs".to_string());

    let content1 = r#"{
        "version": 1,
        "root": {
            "type": "dir",
            "entries": {
                "file.txt": { "type": "doc" }
            }
        }
    }"#;

    reconciler.reconcile(&mut store, content1).unwrap();
    assert!(store.get_document("test-fs:file.txt").is_some());

    let content2 = r#"{
        "version": 1,
        "root": {
            "type": "dir",
            "entries": {}
        }
    }"#;

    reconciler.reconcile(&mut store, content2).unwrap();

    assert!(
        store.get_document("test-fs:file.txt").is_some(),
        "document should NOT be deleted"
    );
}

/// Test that invalid JSON triggers error.
#[test]
fn test_reconciler_handles_invalid_json() {
    let mut store = DocumentStore::new();
    store.get_or_create_with_id("test-fs", ContentType::Json);
    let mut reconciler = FilesystemReconciler::new("test-fs".to_string());

    let result = reconciler.reconcile(&mut store, "not valid json");
    assert!(matches!(result, Err(FsError::ParseError(_))));
}

/// Test that invalid entry names are rejected.
#[test]
fn test_reconciler_rejects_invalid_names() {
    let mut store = DocumentStore::new();
    store.get_or_create_with_id("test-fs", ContentType::Json);
    let mut reconciler = FilesystemReconciler::new("test-fs".to_string());

    let content = r#"{
        "version": 1,
        "root": {
            "type": "dir",
            "entries": {
                "invalid/name": { "type": "doc" }
            }
        }
    }"#;

    let result = reconciler.reconcile(&mut store, content);
    assert!(result.is_err());
}

/// Test that unsupported version is rejected.
#[test]
fn test_reconciler_rejects_unsupported_version() {
    let mut store = DocumentStore::new();
    store.get_or_create_with_id("test-fs", ContentType::Json);
    let mut reconciler = FilesystemReconciler::new("test-fs".to_string());

    let content = r#"{"version": 99}"#;

    let result = reconciler.reconcile(&mut store, content);
    assert!(result.is_err());
    match result {
        Err(FsError::UnsupportedVersion(99)) => {}
        other => panic!("expected UnsupportedVersion(99), got {:?}", other),
    }
}

/// Test that non-directory root is rejected.
#[test]
fn test_reconciler_rejects_non_directory_root() {
    let mut store = DocumentStore::new();
    store.get_or_create_with_id("test-fs", ContentType::Json);
    let mut reconciler = FilesystemReconciler::new("test-fs".to_string());

    let content = r#"{
        "version": 1,
        "root": { "type": "doc" }
    }"#;

    let result = reconciler.reconcile(&mut store, content);
    assert!(result.is_err(), "non-directory root should be rejected");
}

/// Test nested directories.
#[test]
fn test_reconciler_nested_dirs() {
    let mut store = DocumentStore::new();
    store.get_or_create_with_id("test-fs", ContentType::Json);
    let mut reconciler = FilesystemReconciler::new("test-fs".to_string());

    let content = r#"{
        "version": 1,
        "root": {
            "type": "dir",
            "entries": {
                "level1": {
                    "type": "dir",
                    "entries": {
                        "level2": {
                            "type": "dir",
                            "entries": {
                                "deep.txt": { "type": "doc" }
                            }
                        }
                    }
                }
            }
        }
    }"#;

    reconciler.reconcile(&mut store, content).unwrap();

    assert!(
        store.get_document("test-fs:level1/level2/deep.txt").is_some(),
        "deeply nested document should exist"
    );
}

/// Test that documents are recreated if deleted externally.
#[test]
fn test_reconciler_recreates_deleted_documents() {
    let mut store = DocumentStore::new();
    store.get_or_create_with_id("test-fs", ContentType::Json);
    let mut reconciler = FilesystemReconciler::new("test-fs".to_string());

    let content = r#"{
        "version": 1,
        "root": {
            "type": "dir",
            "entries": {
                "file.txt": { "type": "doc" }
            }
        }
    }"#;

    reconciler.reconcile(&mut store, content).unwrap();
    assert!(store.get_document("test-fs:file.txt").is_some());

    store.delete_document("test-fs:file.txt");
    assert!(
        store.get_document("test-fs:file.txt").is_none(),
        "document should be deleted"
    );

    reconciler.reconcile(&mut store, content).unwrap();
    assert!(
        store.get_document("test-fs:file.txt").is_some(),
        "document should be recreated after external deletion"
    );
}

#[test]
fn test_derive_doc_id() {
    let reconciler = FilesystemReconciler::new("my-fs".to_string());

    assert_eq!(
        reconciler.derive_doc_id("notes/ideas.txt"),
        "my-fs:notes/ideas.txt"
    );
    assert_eq!(reconciler.derive_doc_id("file.txt"), "my-fs:file.txt");
    assert_eq!(reconciler.derive_doc_id(""), "my-fs");
}

/// The derived id scenario: fs-root id "fs", a doc entry "a.txt" with no
/// explicit id materializes as "fs:a.txt" with the JSON default.
#[test]
fn test_reconciler_derived_id_default_type() {
    let mut store = DocumentStore::new();
    let mut reconciler = FilesystemReconciler::new("fs".to_string());

    let content = r#"{"version":1,"root":{"type":"dir","entries":{"a.txt":{"type":"doc"}}}}"#;
    reconciler.reconcile(&mut store, content).unwrap();

    let doc = store.get_document("fs:a.txt").expect("fs:a.txt should exist");
    assert_eq!(doc.content_type, ContentType::Json);
    assert_eq!(doc.content, "{}");
}

/// The explicit node_id scenario: entry "s.txt" with node_id "X" backs
/// document "X"; no derived document appears.
#[test]
fn test_reconciler_explicit_id_no_derived() {
    let mut store = DocumentStore::new();
    let mut reconciler = FilesystemReconciler::new("fs".to_string());

    let content = r#"{"version":1,"root":{"type":"dir","entries":{"s.txt":{"type":"doc","node_id":"X"}}}}"#;
    reconciler.reconcile(&mut store, content).unwrap();

    assert!(store.get_document("X").is_some());
    assert!(store.get_document("fs:s.txt").is_none());
}

/// A directory with both node_id and inline entries is a schema error.
#[test]
fn test_reconciler_rejects_both_forms() {
    let mut store = DocumentStore::new();
    let mut reconciler = FilesystemReconciler::new("fs".to_string());

    let content = r#"{
        "version": 1,
        "root": {
            "type": "dir",
            "entries": {
                "d": { "type": "dir", "node_id": "X", "entries": {} }
            }
        }
    }"#;

    match reconciler.reconcile(&mut store, content) {
        Err(FsError::SchemaError(_)) => {}
        other => panic!("expected SchemaError, got {:?}", other),
    }
}

/// A document-backed directory whose schema mounts it again completes
/// the walk: the recursion stack stops the re-entry.
#[test]
fn test_reconciler_cycle_tolerance() {
    let mut store = DocumentStore::new();
    let mut reconciler = FilesystemReconciler::new("fs".to_string());

    store.get_or_create_with_id("cyc", ContentType::Text);
    let cyc_schema = r#"{"version":1,"root":{"type":"dir","entries":{"leaf.txt":{"type":"doc"},"again":{"type":"dir","node_id":"cyc"}}}}"#;
    assert!(store.set_content("cyc", cyc_schema.to_string()));

    let seed = r#"{"version":1,"root":{"type":"dir","entries":{"mount":{"type":"dir","node_id":"cyc"}}}}"#;
    reconciler.reconcile(&mut store, seed).unwrap();

    // the nested schema was entered once: the leaf below the mount exists
    assert!(store.get_document("fs:mount/leaf.txt").is_some());
}

/// A document-backed directory's nested schema materializes documents
/// below the mount path.
#[test]
fn test_reconciler_doc_backed_descent() {
    let mut store = DocumentStore::new();
    let mut reconciler = FilesystemReconciler::new("fs".to_string());

    store.get_or_create_with_id("sub", ContentType::Json);
    let sub_schema =
        r#"{"version":1,"root":{"type":"dir","entries":{"inner.txt":{"type":"doc"}}}}"#;
    assert!(store.set_content("sub", sub_schema.to_string()));

    let seed = r#"{"version":1,"root":{"type":"dir","entries":{"d":{"type":"dir","node_id":"sub"}}}}"#;
    reconciler.reconcile(&mut store, seed).unwrap();

    assert!(store.get_document("fs:d/inner.txt").is_some());
}

/// Reconciling the same valid schema twice creates the same set of
/// documents, deletes none, and reports no error.
#[test]
fn test_reconciler_idempotent() {
    let mut store = DocumentStore::new();
    let mut reconciler = FilesystemReconciler::new("fs".to_string());

    let content = r#"{
        "version": 1,
        "root": {
            "type": "dir",
            "entries": {
                "a.txt": { "type": "doc" },
                "sub": { "type": "dir", "entries": { "b.txt": { "type": "doc", "node_id": "B" } } }
            }
        }
    }"#;

    reconciler.reconcile(&mut store, content).unwrap();
    let first: Vec<String> = {
        let mut v = store.list_documents();
        v.sort();
        v
    };
    reconciler.reconcile(&mut store, content).unwrap();
    let second: Vec<String> = {
        let mut v = store.list_documents();
        v.sort();
        v
    };
    assert_eq!(first, second);
    assert!(store.get_document("fs:a.txt").is_some());
    assert!(store.get_document("B").is_some());
}

#[test]
fn test_validate_name_rules() {
    assert!(validate_name("notes.txt"));
    assert!(validate_name("file with spaces"));
    assert!(!validate_name(""));
    assert!(!validate_name("."));
    assert!(!validate_name(".."));
    assert!(!validate_name("a/b"));
    assert!(!validate_name("a\u{0}b"));
}
