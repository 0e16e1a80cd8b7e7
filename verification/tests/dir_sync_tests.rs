//! Schema traversal tests for the directory sync client.

use commonplace_doc::dir_sync::{collect_paths_and_mounts, collect_paths_from_entry};
use commonplace_doc::fs::FsEntry;

fn doc(node_id: Option<&str>) -> FsEntry {
    FsEntry::Doc {
        node_id: node_id.map(|s| s.to_string()),
        content_type: None,
    }
}

#[test]
fn test_collect_paths_from_entry_walks_tree() {
    let entry = FsEntry::Dir {
        node_id: None,
        content_type: None,
        entries: Some(vec![
            ("a.txt".to_string(), doc(Some("u1"))),
            (
                "sub".to_string(),
                FsEntry::Dir {
                    node_id: None,
                    content_type: None,
                    entries: Some(vec![("b.txt".to_string(), doc(None))]),
                },
            ),
        ]),
    };

    let mut paths: Vec<(String, Option<String>)> = Vec::new();
    collect_paths_from_entry(&entry, "", &mut paths);
    assert_eq!(
        paths,
        vec![
            ("a.txt".to_string(), Some("u1".to_string())),
            ("sub/b.txt".to_string(), None),
        ]
    );
}

#[test]
fn test_collect_paths_skips_doc_backed_dirs() {
    let entry = FsEntry::Dir {
        node_id: None,
        content_type: None,
        entries: Some(vec![(
            "mounted".to_string(),
            FsEntry::Dir {
                node_id: Some("other-doc".to_string()),
                content_type: None,
                entries: None,
            },
        )]),
    };

    let mut paths: Vec<(String, Option<String>)> = Vec::new();
    collect_paths_from_entry(&entry, "", &mut paths);
    assert!(paths.is_empty(), "document-backed dirs are not entered");
}

#[test]
fn test_collect_paths_and_mounts() {
    let entry = FsEntry::Dir {
        node_id: None,
        content_type: None,
        entries: Some(vec![
            ("named.txt".to_string(), doc(Some("uuid-a"))),
            ("anon.txt".to_string(), doc(None)),
            (
                "mounted".to_string(),
                FsEntry::Dir {
                    node_id: Some("nested-doc".to_string()),
                    content_type: None,
                    entries: None,
                },
            ),
        ]),
    };

    let mut ids: Vec<(String, String)> = Vec::new();
    let mut mounts: Vec<(String, String)> = Vec::new();
    collect_paths_and_mounts(&entry, "", &mut ids, &mut mounts);

    assert_eq!(ids, vec![("named.txt".to_string(), "uuid-a".to_string())]);
    assert_eq!(
        mounts,
        vec![("mounted".to_string(), "nested-doc".to_string())]
    );
}

#[test]
fn test_collect_paths_with_prefix() {
    let entry = doc(Some("u9"));
    let mut ids: Vec<(String, String)> = Vec::new();
    let mut mounts: Vec<(String, String)> = Vec::new();
    collect_paths_and_mounts(&entry, "deep/path", &mut ids, &mut mounts);
    assert_eq!(ids, vec![("deep/path".to_string(), "u9".to_string())]);
    assert!(mounts.is_empty());
}
