//! Content types, documents, and the in-memory document store.

use vstd::prelude::*;

verus! {

/// The content type a document is created with; governs its default
/// initial content and the media type it is served under.
#[derive(Debug, Clone, Copy, PartialEq, Eq, Structural)]
pub enum ContentType {
    Json,
    Xml,
    Text,
}

impl ContentType {
    /// The content type a MIME string selects, if it is supported.
    pub open spec fn spec_from_mime(mime: Seq<char>) -> Option<ContentType> {
        if mime == "application/json"@ {
            Some(ContentType::Json)
        } else if mime == "application/xml"@ || mime == "text/xml"@ {
            Some(ContentType::Xml)
        } else if mime == "text/plain"@ {
            Some(ContentType::Text)
        } else {
            None
        }
    }

    /// The MIME string a content type is served under.
    pub open spec fn spec_mime(self) -> Seq<char> {
        match self {
            ContentType::Json => "application/json"@,
            ContentType::Xml => "application/xml"@,
            ContentType::Text => "text/plain"@,
        }
    }

    /// The default initial content of a fresh document of this type.
    pub open spec fn spec_default_content(self) -> Seq<char> {
        match self {
            ContentType::Json => "{}"@,
            ContentType::Xml => "<?xml version=\"1.0\" encoding=\"UTF-8\"?><root/>"@,
            ContentType::Text => Seq::<char>::empty(),
        }
    }

    /// Select a content type from a MIME string; unsupported types are
    /// rejected with `None`.
    pub fn from_mime(mime: &str) -> (r: Option<ContentType>)
        ensures
            r == ContentType::spec_from_mime(mime@),
    {
        if crate::text::str_eq(mime, "application/json") {
            Some(ContentType::Json)
        } else if crate::text::str_eq(mime, "application/xml") || crate::text::str_eq(
            mime,
            "text/xml",
        ) {
            Some(ContentType::Xml)
        } else if crate::text::str_eq(mime, "text/plain") {
            Some(ContentType::Text)
        } else {
            None
        }
    }

    pub fn to_mime(&self) -> (r: &'static str)
        ensures
            r@ == self.spec_mime(),
    {
        match self {
            ContentType::Json => "application/json",
            ContentType::Xml => "application/xml",
            ContentType::Text => "text/plain",
        }
    }

    pub fn default_content(&self) -> (r: String)
        ensures
            r@ == self.spec_default_content(),
    {
        match self {
            ContentType::Json => String::from_str("{}"),
            ContentType::Xml => String::from_str(
                "<?xml version=\"1.0\" encoding=\"UTF-8\"?><root/>",
            ),
            ContentType::Text => String::new(),
        }
    }
}

/// The node id a file path resolves to against an fs-root document's
/// content: `None` on malformed content, a missing path, a path naming a
/// directory, a walk through a document-backed directory, or a document
/// without an explicit node id.
pub open spec fn spec_resolve_path_to_uuid(content: Seq<char>, path: Seq<char>) -> Option<
    Seq<char>,
> {
    match crate::fs::spec_parse_schema(content) {
        None => None,
        Some(schema) => crate::fs::spec_resolve(schema, path),
    }
}

/// Resolve a file path to the document id the fs-root schema gives it.
pub fn resolve_path_to_uuid(fs_root_content: &str, path: &str, _fs_root_id: &str) -> (r: Option<
    String,
>)
    ensures
        match spec_resolve_path_to_uuid(fs_root_content@, path@) {
            Some(u) => r matches Some(s) && s@ == u,
            None => r is None,
        },
{
    let schema = match crate::fs::parse_schema(fs_root_content) {
        Some(s) => s,
        None => {
            return None;
        },
    };
    let root_entries = match &schema.root {
        Some(crate::fs::FsEntry::Dir { entries: Some(es), .. }) => es,
        _ => {
            return None;
        },
    };
    let normalized = strip_leading_slashes(path);
    let comps = crate::fs::split_path(normalized);
    let ghost comps_model = comps.deep_view();
    let ghost target = spec_resolve_path_to_uuid(fs_root_content@, path@);
    proof {
        assert(comps_model.subrange(0, comps_model.len() as int) =~= comps_model);
        crate::fs::lemma_entries_view_index(root_entries@);
        assert(comps_model.len() >= 1);
        assert(target == crate::fs::spec_resolve_in(
            crate::fs::entries_view(root_entries@),
            comps_model,
        ));
    }
    let mut cur: &Vec<(String, crate::fs::FsEntry)> = root_entries;
    let mut idx: usize = 0;
    loop
        invariant
            target == spec_resolve_path_to_uuid(fs_root_content@, path@),
            idx < comps_model.len(),
            comps_model == comps.deep_view(),
            comps@.len() == comps_model.len(),
            forall|i: int| 0 <= i < comps@.len() ==> comps_model[i] == comps@[i]@,
            target == crate::fs::spec_resolve_in(
                crate::fs::entries_view(cur@),
                comps_model.subrange(idx as int, comps_model.len() as int),
            ),
        decreases comps_model.len() - idx,
    {
        let ghost rest = comps_model.subrange(idx as int, comps_model.len() as int);
        proof {
            assert(rest[0] == comps_model[idx as int]);
            assert(rest.drop_first() =~= comps_model.subrange(
                idx as int + 1,
                comps_model.len() as int,
            ));
        }
        let entry = match crate::fs::lookup_entry(cur, comps[idx].as_str()) {
            Some(e) => e,
            None => {
                return None;
            },
        };
        if comps.len() - idx == 1 {
            return match entry {
                crate::fs::FsEntry::Doc { node_id: Some(u), .. } => Some(u.clone()),
                _ => None,
            };
        }
        match entry {
            crate::fs::FsEntry::Dir { entries: Some(es), .. } => {
                cur = es;
            },
            _ => {
                return None;
            },
        }
        idx = idx + 1;
    }
}

/// A path with its leading slashes removed.
fn strip_leading_slashes(path: &str) -> (r: &str)
    ensures
        r@ == crate::fs::spec_strip_leading_slashes(path@),
{
    let n = path.unicode_len();
    let mut k: usize = 0;
    loop
        invariant_except_break
            n == path@.len(),
            k <= n,
            forall|j: int| 0 <= j < k ==> path@[j] == '/',
        ensures
            n == path@.len(),
            k <= n,
            forall|j: int| 0 <= j < k ==> path@[j] == '/',
            k == n || path@[k as int] != '/',
        decreases n - k,
    {
        if k >= n {
            break;
        }
        if path.get_char(k) != '/' {
            break;
        }
        k = k + 1;
    }
    proof {
        crate::fs::lemma_strip_leading(path@, k as int);
    }
    path.substring_char(k, n)
}

/// A document: its rendered content, its content type, and an opaque CRDT
/// replica when it carries collaborative state.
pub struct Document {
    pub content: String,
    pub content_type: ContentType,
    pub ydoc: Option<yrs::Doc>,
}

impl Document {
    /// A fresh document of the given type: default content and a new replica.
    pub open spec fn is_fresh(self, content_type: ContentType) -> bool {
        &&& self.content@ == content_type.spec_default_content()
        &&& self.content_type == content_type
        &&& self.ydoc is Some
    }
}

/// The in-memory registry mapping document ids to documents.
///
/// Ids are unique: the store behaves as a map from id to document.
pub struct DocumentStore {
    docs: Vec<(String, Document)>,
}

impl DocumentStore {
    /// The stored id/document pairs, in insertion order.
    pub closed spec fn entries(self) -> Seq<(String, Document)> {
        self.docs@
    }

    /// The position of the first pair with the given id.
    pub open spec fn spec_find_idx(s: Seq<(String, Document)>, id: Seq<char>) -> Option<int>
        decreases s.len(),
    {
        if s.len() == 0 {
            None
        } else if s[0].0@ == id {
            Some(0)
        } else {
            match DocumentStore::spec_find_idx(s.drop_first(), id) {
                Some(i) => Some(i + 1),
                None => None,
            }
        }
    }

    /// The document stored under an id, if any.
    pub open spec fn spec_get(self, id: Seq<char>) -> Option<Document> {
        match DocumentStore::spec_find_idx(self.entries(), id) {
            Some(i) => Some(self.entries()[i].1),
            None => None,
        }
    }

    /// Whether a document with the given id exists.
    pub open spec fn contains(self, id: Seq<char>) -> bool {
        self.spec_get(id) is Some
    }

    /// Ids are pairwise distinct.
    pub open spec fn wf(self) -> bool {
        forall|i: int, j: int|
            0 <= i < j < self.entries().len() ==> self.entries()[i].0@ != self.entries()[j].0@
    }

    /// The number of stored documents.
    pub open spec fn spec_len(self) -> nat {
        self.entries().len()
    }

    /// The first index with the given id names the id; everything before
    /// it does not; absence means no index does.
    pub proof fn lemma_find_idx(s: Seq<(String, Document)>, id: Seq<char>)
        ensures
            match DocumentStore::spec_find_idx(s, id) {
                Some(i) => 0 <= i < s.len() && s[i].0@ == id && (forall|j: int|
                    0 <= j < i ==> s[j].0@ != id),
                None => forall|j: int| 0 <= j < s.len() ==> s[j].0@ != id,
            },
        decreases s.len(),
    {
        if s.len() > 0 && s[0].0@ != id {
            let d = s.drop_first();
            DocumentStore::lemma_find_idx(d, id);
            assert(forall|j: int| 0 <= j < d.len() ==> d[j] == s[j + 1]);
            match DocumentStore::spec_find_idx(d, id) {
                Some(i) => {
                    assert(s[i + 1].0@ == id);
                    assert forall|j: int| 0 <= j < i + 1 implies s[j].0@ != id by {
                        if j > 0 {
                            assert(d[j - 1] == s[j]);
                        }
                    }
                },
                None => {
                    assert forall|j: int| 0 <= j < s.len() implies s[j].0@ != id by {
                        if j > 0 {
                            assert(d[j - 1] == s[j]);
                        }
                    }
                },
            }
        }
    }

    /// How the first-match index changes when one pair is appended.
    pub proof fn lemma_find_idx_push(s: Seq<(String, Document)>, p: (String, Document), id: Seq<char>)
        ensures
            DocumentStore::spec_find_idx(s.push(p), id) == (match DocumentStore::spec_find_idx(
                s,
                id,
            ) {
                Some(i) => Some(i),
                None => if p.0@ == id {
                    Some(s.len() as int)
                } else {
                    None::<int>
                },
            }),
        decreases s.len(),
    {
        if s.len() == 0 {
            assert(s.push(p)[0] == p);
            assert(s.push(p).drop_first() =~= Seq::<(String, Document)>::empty());
            assert(DocumentStore::spec_find_idx(Seq::<(String, Document)>::empty(), id) is None);
            assert(DocumentStore::spec_find_idx(s, id) is None);
        } else {
            assert(s.push(p)[0] == s[0]);
            assert(s.push(p).drop_first() =~= s.drop_first().push(p));
            DocumentStore::lemma_find_idx_push(s.drop_first(), p, id);
            if s[0].0@ != id {
                assert(DocumentStore::spec_find_idx(s.push(p), id) == (match
                    DocumentStore::spec_find_idx(s.drop_first().push(p), id) {
                    Some(i) => Some(i + 1),
                    None => None::<int>,
                }));
            }
        }
    }

    /// How the first-match index changes when the pair at `k` is removed,
    /// for a sequence with pairwise distinct ids.
    pub proof fn lemma_find_idx_remove(s: Seq<(String, Document)>, k: int, id: Seq<char>)
        requires
            0 <= k < s.len(),
            forall|i: int, j: int| 0 <= i < j < s.len() ==> s[i].0@ != s[j].0@,
        ensures
            DocumentStore::spec_find_idx(s.remove(k), id) is Some <==> (
            DocumentStore::spec_find_idx(s, id) is Some && s[k].0@ != id),
            s[k].0@ != id ==> (match DocumentStore::spec_find_idx(s.remove(k), id) {
                Some(i) => DocumentStore::spec_find_idx(s, id) matches Some(i0)
                    && s.remove(k)[i].1 == s[i0].1,
                None => DocumentStore::spec_find_idx(s, id) is None,
            }),
        decreases s.len(),
    {
        DocumentStore::lemma_find_idx(s, id);
        let r = s.remove(k);
        DocumentStore::lemma_find_idx(r, id);
        match DocumentStore::spec_find_idx(r, id) {
            Some(i) => {
                let iorig: int = if i < k {
                    i
                } else {
                    i + 1
                };
                assert(r[i] == s[iorig]);
                assert(s[iorig].0@ == id);
                assert(iorig != k);
                assert(s[k].0@ != id);
                match DocumentStore::spec_find_idx(s, id) {
                    Some(i0) => {
                        assert(s[i0].0@ == id);
                        assert(i0 == iorig);
                    },
                    None => {
                        assert(false);
                    },
                }
            },
            None => {
                match DocumentStore::spec_find_idx(s, id) {
                    Some(i0) => {
                        if s[k].0@ != id {
                            assert(i0 != k);
                            let i2: int = if i0 < k {
                                i0
                            } else {
                                i0 - 1
                            };
                            assert(r[i2] == s[i0]);
                            assert(r[i2].0@ == id);
                            assert(false);
                        }
                    },
                    None => {},
                }
            },
        }
    }

    /// The set of stored ids.
    pub open spec fn id_set(self) -> Set<Seq<char>> {
        self.entries().map_values(|p: (String, Document)| p.0@).to_set()
    }

    /// The id set is finite and holds exactly the stored ids.
    pub proof fn lemma_id_set(self)
        ensures
            self.id_set().finite(),
            forall|id: Seq<char>| #[trigger] self.id_set().contains(id) <==> self.contains(id),
    {
        broadcast use vstd::seq_lib::seq_to_set_is_finite;

        let mapped = self.entries().map_values(|p: (String, Document)| p.0@);
        assert forall|id: Seq<char>| #[trigger] self.id_set().contains(id) implies self.contains(
            id,
        ) by {
            let i = choose|i: int| 0 <= i < mapped.len() && mapped[i] == id;
            DocumentStore::lemma_find_idx(self.entries(), id);
            assert(self.entries()[i].0@ == id);
        }
        assert forall|id: Seq<char>| self.contains(id) implies #[trigger] self.id_set().contains(
            id,
        ) by {
            DocumentStore::lemma_find_idx(self.entries(), id);
            let i = DocumentStore::spec_find_idx(self.entries(), id).unwrap();
            assert(mapped[i] == id);
            assert(mapped.contains(id));
        }
    }

    /// Create an empty store.
    pub fn new() -> (r: DocumentStore)
        ensures
            r.wf(),
            r.spec_len() == 0,
            forall|id: Seq<char>| !r.contains(id),
    {
        DocumentStore { docs: Vec::new() }
    }

    /// The number of stored documents.
    pub fn len(&self) -> (r: usize)
        ensures
            r == self.spec_len(),
    {
        self.docs.len()
    }

    /// Index of the first (and with `wf`, only) pair under `id`.
    fn find_idx(&self, id: &str) -> (r: Option<usize>)
        ensures
            match r {
                Some(k) => DocumentStore::spec_find_idx(self.entries(), id@) == Some(k as int)
                    && k < self.spec_len(),
                None => DocumentStore::spec_find_idx(self.entries(), id@) is None,
            },
    {
        let ghost all = self.entries();
        proof {
            assert(all.subrange(0, all.len() as int) =~= all);
        }
        let mut k: usize = 0;
        loop
            invariant
                k <= self.docs@.len(),
                all == self.entries(),
                match DocumentStore::spec_find_idx(
                    all.subrange(k as int, all.len() as int),
                    id@,
                ) {
                    Some(i) => DocumentStore::spec_find_idx(all, id@) == Some(i + k),
                    None => DocumentStore::spec_find_idx(all, id@) is None,
                },
                forall|j: int| 0 <= j < k ==> all[j].0@ != id@,
            decreases self.docs@.len() - k,
        {
            if k >= self.docs.len() {
                proof {
                    assert(all.subrange(k as int, all.len() as int) =~= Seq::empty());
                }
                return None;
            }
            let ghost rest = all.subrange(k as int, all.len() as int);
            proof {
                assert(rest[0] == all[k as int]);
                assert(rest.drop_first() =~= all.subrange(k as int + 1, all.len() as int));
            }
            if crate::text::str_eq(self.docs[k].0.as_str(), id) {
                return Some(k);
            }
            k = k + 1;
        }
    }

    /// Fetch a document by id.
    pub fn get_document(&self, id: &str) -> (r: Option<&Document>)
        ensures
            match self.spec_get(id@) {
                Some(d) => r matches Some(rd) && *rd == d,
                None => r is None,
            },
    {
        match self.find_idx(id) {
            Some(k) => Some(&self.docs[k].1),
            None => None,
        }
    }

    /// Create the document if it is missing; an existing document and its
    /// content are left untouched (idempotent).
    pub fn get_or_create_with_id(&mut self, id: &str, content_type: ContentType)
        requires
            old(self).wf(),
        ensures
            final(self).wf(),
            final(self).contains(id@),
            old(self).contains(id@) ==> *final(self) == *old(self),
            !old(self).contains(id@) ==> (final(self).spec_get(id@) matches Some(d) && d.is_fresh(
                content_type,
            )),
            forall|other: Seq<char>|
                other != id@ ==> final(self).spec_get(other) == old(self).spec_get(other),
    {
        if self.find_idx(id).is_some() {
            return;
        }
        let doc = Document {
            content: content_type.default_content(),
            content_type,
            ydoc: Some(crate::crdt::new_ydoc()),
        };
        let ghost before = self.entries();
        let pair = (String::from_str(id), doc);
        let ghost p = pair;
        self.docs.push(pair);
        proof {
            let after = final(self).entries();
            assert(after =~= before.push(p));
            DocumentStore::lemma_find_idx(before, id@);
            DocumentStore::lemma_find_idx_push(before, p, id@);
            assert forall|other: Seq<char>| other != id@ implies final(self).spec_get(other)
                == old(self).spec_get(other) by {
                DocumentStore::lemma_find_idx_push(before, p, other);
                DocumentStore::lemma_find_idx(before, other);
            }
            assert forall|i: int, j: int| 0 <= i < j < after.len() implies after[i].0@
                != after[j].0@ by {
                if j == before.len() {
                    assert(after[i] == before[i]);
                    assert(after[j] == p);
                }
            }
        }
    }

    /// Create a document under a fresh random id and return the id.
    pub fn create_document(&mut self, content_type: ContentType) -> (r: String)
        requires
            old(self).wf(),
        ensures
            final(self).wf(),
            final(self).spec_get(r@) matches Some(d) && d.is_fresh(content_type),
            forall|other: Seq<char>|
                other != r@ ==> final(self).spec_get(other) == old(self).spec_get(other),
    {
        let (id, _) = crate::ids::new_uuid();
        // a collision with an existing id would make the fresh document
        // unreachable; re-creating under the same id keeps the map shape
        self.delete_document(id.as_str());
        self.get_or_create_with_id(id.as_str(), content_type);
        id
    }

    /// Delete a document by id. True exactly when it existed.
    pub fn delete_document(&mut self, id: &str) -> (r: bool)
        requires
            old(self).wf(),
        ensures
            final(self).wf(),
            r == old(self).contains(id@),
            !final(self).contains(id@),
            forall|other: Seq<char>|
                other != id@ ==> final(self).spec_get(other) == old(self).spec_get(other),
    {
        let ghost before = self.entries();
        match self.find_idx(id) {
            Some(k) => {
                self.docs.remove(k);
                proof {
                    DocumentStore::lemma_find_idx(before, id@);
                    let after = final(self).entries();
                    assert(after =~= before.remove(k as int));
                    assert forall|other: Seq<char>| other != id@ implies final(self).spec_get(
                        other,
                    ) == old(self).spec_get(other) by {
                        DocumentStore::lemma_find_idx_remove(before, k as int, other);
                        assert(before[k as int].0@ == id@);
                    }
                    assert(!final(self).contains(id@)) by {
                        DocumentStore::lemma_find_idx_remove(before, k as int, id@);
                    }
                    assert forall|i: int, j: int|
                        0 <= i < j < after.len() implies after[i].0@ != after[j].0@ by {
                        let bi: int = if i < k {
                            i
                        } else {
                            i + 1
                        };
                        let bj: int = if j < k {
                            j
                        } else {
                            j + 1
                        };
                        assert(after[i] == before[bi]);
                        assert(after[j] == before[bj]);
                    }
                }
                true
            },
            None => false,
        }
    }

    /// Replace a document's rendered content, keeping its type and
    /// replica. True exactly when the document exists. The server calls
    /// this after an update, with the content the replica renders to.
    pub fn set_content(&mut self, id: &str, content: String) -> (r: bool)
        requires
            old(self).wf(),
        ensures
            final(self).wf(),
            r == old(self).contains(id@),
            r ==> (final(self).spec_get(id@) matches Some(d) && old(self).spec_get(
                id@,
            ) matches Some(od) && d.content == content && d.content_type == od.content_type
                && d.ydoc == od.ydoc),
            !r ==> *final(self) == *old(self),
            forall|other: Seq<char>|
                other != id@ ==> final(self).spec_get(other) == old(self).spec_get(other),
    {
        let ghost before = self.entries();
        match self.find_idx(id) {
            None => false,
            Some(k) => {
                let mut pair = self.docs.remove(k);
                proof {
                    DocumentStore::lemma_find_idx(before, id@);
                }
                let ghost mid = self.entries();
                pair.1.content = content;
                let ghost p = pair;
                proof {
                    assert(mid =~= before.remove(k as int));
                    assert forall|i: int, j: int|
                        0 <= i < j < mid.len() implies mid[i].0@ != mid[j].0@ by {
                        let bi: int = if i < k {
                            i
                        } else {
                            i + 1
                        };
                        let bj: int = if j < k {
                            j
                        } else {
                            j + 1
                        };
                        assert(mid[i] == before[bi] && mid[j] == before[bj]);
                    }
                }
                self.docs.push(pair);
                proof {
                    let after = self.entries();
                    assert(after =~= mid.push(p));
                    DocumentStore::lemma_find_idx_push(mid, p, id@);
                    DocumentStore::lemma_find_idx_remove(before, k as int, id@);
                    DocumentStore::lemma_find_idx(mid, id@);
                    assert forall|other: Seq<char>| other != id@ implies final(self).spec_get(
                        other,
                    ) == old(self).spec_get(other) by {
                        DocumentStore::lemma_find_idx_push(mid, p, other);
                        DocumentStore::lemma_find_idx_remove(before, k as int, other);
                        DocumentStore::lemma_find_idx(mid, other);
                        DocumentStore::lemma_find_idx(before, other);
                    }
                    assert forall|i: int, j: int|
                        0 <= i < j < after.len() implies after[i].0@ != after[j].0@ by {
                        if j == mid.len() {
                            assert(after[i] == mid[i]);
                            assert(after[j] == p);
                            DocumentStore::lemma_find_idx(mid, id@);
                        }
                    }
                }
                true
            },
        }
    }

    /// Apply a CRDT update to a document's replica. True only when the
    /// document exists, carries a replica, and the replica accepted the
    /// update; bytes that do not decode as an update never succeed.
    pub fn apply_update(&self, id: &str, update: &[u8]) -> (r: bool)
        ensures
            r ==> (self.spec_get(id@) matches Some(d) && d.ydoc is Some),
            !crate::crdt::update_decodes_v1(update@) ==> !r,
    {
        match self.get_document(id) {
            Some(doc) => match &doc.ydoc {
                Some(d) => crate::crdt::ydoc_apply_update(d, update).is_ok(),
                None => false,
            },
            None => false,
        }
    }

    /// All document ids, in insertion order.
    pub fn list_documents(&self) -> (r: Vec<String>)
        ensures
            r.deep_view() == Seq::new(
                self.entries().len(),
                |i: int| self.entries()[i].0@,
            ),
    {
        let mut out: Vec<String> = Vec::new();
        let mut k: usize = 0;
        while k < self.docs.len()
            invariant
                k <= self.docs@.len(),
                out@.len() == k,
                forall|i: int| 0 <= i < k ==> out@[i]@ == self.entries()[i].0@,
            decreases self.docs@.len() - k,
        {
            out.push(self.docs[k].0.clone());
            k = k + 1;
        }
        proof {
            assert(out.deep_view() =~= Seq::new(
                self.entries().len(),
                |i: int| self.entries()[i].0@,
            ));
        }
        out
    }
}

}
