//! Document store and content-type tests.

use commonplace_doc::document::{ContentType, DocumentStore};
use yrs::updates::decoder::Decode;
use yrs::updates::encoder::Encode;
use yrs::{GetString, ReadTxn, Text, Transact};

#[test]
fn test_from_mime_supported() {
    assert_eq!(
        ContentType::from_mime("application/json"),
        Some(ContentType::Json)
    );
    assert_eq!(
        ContentType::from_mime("application/xml"),
        Some(ContentType::Xml)
    );
    assert_eq!(ContentType::from_mime("text/xml"), Some(ContentType::Xml));
    assert_eq!(ContentType::from_mime("text/plain"), Some(ContentType::Text));
}

/// An unsupported media type selects no content type: the document-create
/// handler answers it with an unsupported-media-type status.
#[test]
fn test_from_mime_unsupported() {
    assert_eq!(ContentType::from_mime("application/pdf"), None);
    assert_eq!(ContentType::from_mime(""), None);
}

#[test]
fn test_default_contents() {
    assert_eq!(ContentType::Json.default_content(), "{}");
    assert_eq!(
        ContentType::Xml.default_content(),
        r#"<?xml version="1.0" encoding="UTF-8"?><root/>"#
    );
    assert_eq!(ContentType::Text.default_content(), "");
    assert_eq!(ContentType::Json.to_mime(), "application/json");
    assert_eq!(ContentType::Xml.to_mime(), "application/xml");
    assert_eq!(ContentType::Text.to_mime(), "text/plain");
}

/// Create, fetch, and delete a JSON document: the created document serves
/// `{}` under its id until it is deleted, after which it is gone.
#[test]
fn test_create_get_delete_json_document() {
    let mut store = DocumentStore::new();
    let id = store.create_document(ContentType::Json);
    assert_eq!(id.len(), 36, "document ids are hyphenated UUIDs");

    let doc = store.get_document(&id).expect("document should exist");
    assert_eq!(doc.content, "{}");
    assert_eq!(doc.content_type, ContentType::Json);

    assert!(store.delete_document(&id));
    assert!(store.get_document(&id).is_none());
    assert!(!store.delete_document(&id));
}

#[test]
fn test_get_or_create_is_idempotent() {
    let mut store = DocumentStore::new();
    store.get_or_create_with_id("doc-1", ContentType::Text);
    assert!(store.set_content("doc-1", "hello".to_string()));
    store.get_or_create_with_id("doc-1", ContentType::Json);

    let doc = store.get_document("doc-1").unwrap();
    assert_eq!(doc.content, "hello", "existing content is preserved");
    assert_eq!(doc.content_type, ContentType::Text);
}

#[test]
fn test_list_documents() {
    let mut store = DocumentStore::new();
    store.get_or_create_with_id("a", ContentType::Json);
    store.get_or_create_with_id("b", ContentType::Text);
    let mut ids = store.list_documents();
    ids.sort();
    assert_eq!(ids, vec!["a".to_string(), "b".to_string()]);
    assert_eq!(store.len(), 2);
}

#[test]
fn test_apply_update_on_replica() {
    let mut store = DocumentStore::new();
    store.get_or_create_with_id("doc", ContentType::Text);

    // build a real update on a second replica
    let peer = yrs::Doc::new();
    let text = peer.get_or_insert_text("t");
    {
        let mut txn = peer.transact_mut();
        text.insert(&mut txn, 0, "hi");
    }
    let update = peer
        .transact()
        .encode_state_as_update_v1(&yrs::StateVector::default());

    assert!(store.apply_update("doc", &update));
    assert!(!store.apply_update("missing", &update));
    assert!(
        !store.apply_update("doc", &[0xFF, 0xFF]),
        "bytes that do not decode as an update never apply"
    );
}

/// Two replicas receiving the same updates in either order converge to
/// the same text: the CRDT library's merge is order-insensitive.
#[test]
fn test_replica_convergence_any_order() {
    let a = yrs::Doc::new();
    let b = yrs::Doc::new();
    {
        let t = a.get_or_insert_text("t");
        let mut txn = a.transact_mut();
        t.insert(&mut txn, 0, "alpha");
    }
    {
        let t = b.get_or_insert_text("t");
        let mut txn = b.transact_mut();
        t.insert(&mut txn, 0, "beta");
    }
    let ua = a
        .transact()
        .encode_state_as_update_v1(&yrs::StateVector::default());
    let ub = b
        .transact()
        .encode_state_as_update_v1(&yrs::StateVector::default());

    let r1 = yrs::Doc::new();
    let r2 = yrs::Doc::new();
    r1.get_or_insert_text("t");
    r2.get_or_insert_text("t");
    r1.transact_mut()
        .apply_update(yrs::Update::decode_v1(&ua).unwrap())
        .unwrap();
    r1.transact_mut()
        .apply_update(yrs::Update::decode_v1(&ub).unwrap())
        .unwrap();
    r2.transact_mut()
        .apply_update(yrs::Update::decode_v1(&ub).unwrap())
        .unwrap();
    r2.transact_mut()
        .apply_update(yrs::Update::decode_v1(&ua).unwrap())
        .unwrap();

    let s1 = r1.get_or_insert_text("t").get_string(&r1.transact());
    let s2 = r2.get_or_insert_text("t").get_string(&r2.transact());
    assert_eq!(s1, s2);
    let sv1 = r1.transact().state_vector();
    let sv2 = r2.transact().state_vector();
    assert_eq!(sv1, sv2, "the replicas saw the same operations");
}

#[test]
fn test_set_content_keeps_other_documents() {
    let mut store = DocumentStore::new();
    store.get_or_create_with_id("x", ContentType::Json);
    store.get_or_create_with_id("y", ContentType::Json);
    assert!(store.set_content("x", "changed".to_string()));
    assert_eq!(store.get_document("x").unwrap().content, "changed");
    assert_eq!(store.get_document("y").unwrap().content, "{}");
    assert!(!store.set_content("zz", "nope".to_string()));
}
