//! The virtual-filesystem schema and its reconciler.
//!
//! A designated fs-root document carries a JSON schema describing a tree of
//! documents and directories; the reconciler materializes the documents the
//! schema implies, non-destructively and tolerant of cycles.

use vstd::prelude::*;

use crate::document::{ContentType, DocumentStore};
use crate::json::JsonValue;

verus! {

/// Errors from parsing or walking a filesystem schema.
#[derive(Debug)]
pub enum FsError {
    /// The fs-root content is not JSON, or not shaped like a schema
    ParseError(String),
    /// The schema names a version this server does not speak
    UnsupportedVersion(u64),
    /// The schema breaks a structural rule (root not a directory, an
    /// invalid entry name, a directory both inline and document-backed)
    SchemaError(String),
}

/// One entry of a filesystem schema: a document, or a directory that is
/// either inline (carrying its entries) or document-backed (carrying the id
/// of the document that holds its schema).
#[derive(Debug)]
pub enum FsEntry {
    Doc { node_id: Option<String>, content_type: Option<String> },
    Dir {
        node_id: Option<String>,
        content_type: Option<String>,
        entries: Option<Vec<(String, FsEntry)>>,
    },
}

/// A parsed filesystem schema.
#[derive(Debug)]
pub struct FsSchema {
    pub version: u64,
    pub root: Option<FsEntry>,
}

/// Mathematical model of a schema entry, over character sequences.
pub enum FsEntryModel {
    Doc { node_id: Option<Seq<char>>, content_type: Option<Seq<char>> },
    Dir {
        node_id: Option<Seq<char>>,
        content_type: Option<Seq<char>>,
        entries: Option<Seq<(Seq<char>, FsEntryModel)>>,
    },
}

/// Mathematical model of a schema.
pub struct FsSchemaModel {
    pub version: u64,
    pub root: Option<FsEntryModel>,
}

/// The model of an optional string.
pub open spec fn opt_str_view(o: Option<String>) -> Option<Seq<char>> {
    match o {
        Some(s) => Some(s@),
        None => None,
    }
}

/// The model of a schema entry.
pub open spec fn entry_view(e: FsEntry) -> FsEntryModel
    decreases e,
{
    match e {
        FsEntry::Doc { node_id, content_type } => FsEntryModel::Doc {
            node_id: opt_str_view(node_id),
            content_type: opt_str_view(content_type),
        },
        FsEntry::Dir { node_id, content_type, entries } => FsEntryModel::Dir {
            node_id: opt_str_view(node_id),
            content_type: opt_str_view(content_type),
            entries: match entries {
                None => None,
                Some(v) => Some(entries_view(v@)),
            },
        },
    }
}

/// The model of a named entry list, in order.
pub open spec fn entries_view(s: Seq<(String, FsEntry)>) -> Seq<(Seq<char>, FsEntryModel)>
    decreases s,
{
    if s.len() == 0 {
        Seq::empty()
    } else {
        seq![(s[0].0@, entry_view(s[0].1))] + entries_view(s.drop_first())
    }
}

/// The model of a schema.
pub open spec fn schema_view(s: FsSchema) -> FsSchemaModel {
    FsSchemaModel {
        version: s.version,
        root: match s.root {
            None => None,
            Some(e) => Some(entry_view(e)),
        },
    }
}

/// Appending one named entry extends the model by its model.
pub proof fn lemma_entries_view_push(s: Seq<(String, FsEntry)>, p: (String, FsEntry))
    ensures
        entries_view(s.push(p)) == entries_view(s).push((p.0@, entry_view(p.1))),
    decreases s.len(),
{
    let pm = (p.0@, entry_view(p.1));
    if s.len() == 0 {
        assert(s.push(p)[0] == p);
        assert(s.push(p).drop_first() =~= Seq::<(String, FsEntry)>::empty());
        assert(entries_view(Seq::<(String, FsEntry)>::empty())
            == Seq::<(Seq<char>, FsEntryModel)>::empty());
        assert(seq![pm] + Seq::<(Seq<char>, FsEntryModel)>::empty() =~= entries_view(s).push(pm));
    } else {
        let hd = (s[0].0@, entry_view(s[0].1));
        assert(s.push(p)[0] == s[0]);
        assert(s.push(p).drop_first() =~= s.drop_first().push(p));
        lemma_entries_view_push(s.drop_first(), p);
        assert(seq![hd] + entries_view(s.drop_first()).push(pm) =~= (seq![hd] + entries_view(
            s.drop_first(),
        )).push(pm));
    }
}

/// Element access in an entry-list model.
pub proof fn lemma_entries_view_index(s: Seq<(String, FsEntry)>)
    ensures
        entries_view(s).len() == s.len(),
        forall|i: int|
            0 <= i < s.len() ==> entries_view(s)[i] == (s[i].0@, entry_view(s[i].1)),
    decreases s.len(),
{
    if s.len() > 0 {
        lemma_entries_view_index(s.drop_first());
        assert(forall|j: int| 0 <= j < s.len() - 1 ==> s.drop_first()[j] == s[j + 1]);
        assert forall|i: int| 0 <= i < s.len() implies entries_view(s)[i] == (
        s[i].0@,
        entry_view(s[i].1),
        ) by {
            if i > 0 {
                assert(entries_view(s)[i] == entries_view(s.drop_first())[i - 1]);
            }
        }
    }
}

/// An optional string field of a JSON object: absent or null stands for
/// `None`; any other non-string value is a shape error.
pub open spec fn spec_opt_string(
    fields: Seq<(String, JsonValue)>,
    key: Seq<char>,
) -> Option<Option<Seq<char>>> {
    match JsonValue::spec_field(fields, key) {
        None => Some(None),
        Some(JsonValue::Null) => Some(None),
        Some(JsonValue::Str(s)) => Some(Some(s@)),
        Some(_) => None,
    }
}

#[via_fn]
proof fn spec_entry_of_json_dec(v: JsonValue) {
    match v {
        JsonValue::Object(fields) => {
            JsonValue::lemma_spec_field_witness(fields@, "entries"@);
            match JsonValue::spec_field(fields@, "entries"@) {
                Some(ev) => {
                    let i = choose|i: int| 0 <= i < fields@.len() && fields@[i].1 == ev;
                    assert(decreases_to!(v => fields));
                    assert(decreases_to!(fields => fields@));
                    assert(decreases_to!(fields@ => fields@[i]));
                    assert(decreases_to!(fields@[i] => fields@[i].1));
                    match ev {
                        JsonValue::Object(children) => {
                            assert(decreases_to!(ev => children));
                            assert(decreases_to!(children => children@));
                        },
                        _ => {},
                    }
                },
                None => {},
            }
        },
        _ => {},
    }
}

/// The schema entry a JSON value describes, or `None` on a shape error.
pub open spec fn spec_entry_of_json(v: JsonValue) -> Option<FsEntryModel>
    decreases v,
    via spec_entry_of_json_dec
{
    match v {
        JsonValue::Object(fields) => match JsonValue::spec_field(fields@, "type"@) {
            Some(JsonValue::Str(t)) => if t@ == "doc"@ {
                match (spec_opt_string(fields@, "node_id"@), spec_opt_string(
                    fields@,
                    "content_type"@,
                )) {
                    (Some(node_id), Some(content_type)) => Some(
                        FsEntryModel::Doc { node_id, content_type },
                    ),
                    _ => None,
                }
            } else if t@ == "dir"@ {
                match (spec_opt_string(fields@, "node_id"@), spec_opt_string(
                    fields@,
                    "content_type"@,
                )) {
                    (Some(node_id), Some(content_type)) => match JsonValue::spec_field(
                        fields@,
                        "entries"@,
                    ) {
                        None => Some(FsEntryModel::Dir { node_id, content_type, entries: None }),
                        Some(JsonValue::Null) => Some(
                            FsEntryModel::Dir { node_id, content_type, entries: None },
                        ),
                        Some(JsonValue::Object(children)) => match spec_entries_of_json(
                            children@,
                        ) {
                            Some(list) => Some(
                                FsEntryModel::Dir { node_id, content_type, entries: Some(list) },
                            ),
                            None => None,
                        },
                        Some(_) => None,
                    },
                    _ => None,
                }
            } else {
                None
            },
            _ => None,
        },
        _ => None,
    }
}

/// The entry-list model a JSON object's fields describe, in field order.
pub open spec fn spec_entries_of_json(s: Seq<(String, JsonValue)>) -> Option<
    Seq<(Seq<char>, FsEntryModel)>,
>
    decreases s,
{
    if s.len() == 0 {
        Some(Seq::empty())
    } else {
        match spec_entry_of_json(s[0].1) {
            None => None,
            Some(e) => match spec_entries_of_json(s.drop_first()) {
                None => None,
                Some(rest) => Some(seq![(s[0].0@, e)] + rest),
            },
        }
    }
}

/// The schema model a JSON value describes, or `None` on a shape error.
pub open spec fn spec_schema_of_json(v: JsonValue) -> Option<FsSchemaModel> {
    match v {
        JsonValue::Object(fields) => match JsonValue::spec_field(fields@, "version"@) {
            Some(JsonValue::UInt(version)) => match JsonValue::spec_field(fields@, "root"@) {
                None => Some(FsSchemaModel { version, root: None }),
                Some(JsonValue::Null) => Some(FsSchemaModel { version, root: None }),
                Some(rv) => match spec_entry_of_json(rv) {
                    Some(e) => Some(FsSchemaModel { version, root: Some(e) }),
                    None => None,
                },
            },
            _ => None,
        },
        _ => None,
    }
}

/// The schema model a text parses to: `None` on malformed JSON or a bad shape.
pub open spec fn spec_parse_schema(s: Seq<char>) -> Option<FsSchemaModel> {
    match crate::json::parsed_json(s) {
        None => None,
        Some(v) => spec_schema_of_json(v),
    }
}

fn opt_string_of(v: &JsonValue, key: &str) -> (r: Option<Option<String>>)
    ensures
        match *v {
            JsonValue::Object(fields) => match spec_opt_string(fields@, key@) {
                Some(m) => r matches Some(o) && opt_str_view(o) == m,
                None => r is None,
            },
            _ => true,
        },
{
    match v.get(key) {
        None => Some(None),
        Some(JsonValue::Null) => Some(None),
        Some(JsonValue::Str(s)) => Some(Some(s.clone())),
        Some(_) => None,
    }
}

/// Read one schema entry out of a parsed JSON value.
pub fn entry_of_json(v: &JsonValue) -> (r: Option<FsEntry>)
    ensures
        match spec_entry_of_json(*v) {
            Some(m) => r matches Some(e) && entry_view(e) == m,
            None => r is None,
        },
    decreases *v,
{
    let fields = match v {
        JsonValue::Object(fields) => fields,
        _ => {
            return None;
        },
    };
    let t = match v.get("type") {
        Some(JsonValue::Str(t)) => t,
        _ => {
            return None;
        },
    };
    let node_id = match opt_string_of(v, "node_id") {
        Some(x) => x,
        None => {
            return None;
        },
    };
    let content_type = match opt_string_of(v, "content_type") {
        Some(x) => x,
        None => {
            return None;
        },
    };
    if crate::text::str_eq(t.as_str(), "doc") {
        Some(FsEntry::Doc { node_id, content_type })
    } else if crate::text::str_eq(t.as_str(), "dir") {
        let children = match v.get("entries") {
            None => {
                return Some(FsEntry::Dir { node_id, content_type, entries: None });
            },
            Some(JsonValue::Null) => {
                return Some(FsEntry::Dir { node_id, content_type, entries: None });
            },
            Some(JsonValue::Object(children)) => children,
            Some(_) => {
                return None;
            },
        };
        let ghost all = children@;
        proof {
            assert(all.subrange(0, all.len() as int) =~= all);
            JsonValue::lemma_spec_field_witness(fields@, "entries"@);
            let i = choose|i: int|
                0 <= i < fields@.len() && fields@[i].1 == JsonValue::Object(*children);
            assert(decreases_to!(*v => *fields));
            assert(decreases_to!(*fields => fields@));
            assert(decreases_to!(fields@ => fields@[i]));
            assert(decreases_to!(fields@[i] => fields@[i].1));
            assert(decreases_to!(fields@[i].1 => *children));
            assert(decreases_to!(*children => all));
        }
        let mut out: Vec<(String, FsEntry)> = Vec::new();
        let mut k: usize = 0;
        loop
            invariant
                k <= children@.len(),
                children@ == all,
                decreases_to!(*v => all),
                spec_entry_of_json(*v) == (match spec_entries_of_json(all) {
                    Some(list) => Some(
                        FsEntryModel::Dir {
                            node_id: opt_str_view(node_id),
                            content_type: opt_str_view(content_type),
                            entries: Some(list),
                        },
                    ),
                    None => None::<FsEntryModel>,
                }),
                match spec_entries_of_json(all.subrange(k as int, all.len() as int)) {
                    Some(rest) => spec_entries_of_json(all) == Some(entries_view(out@) + rest),
                    None => spec_entries_of_json(all) is None,
                },
            decreases all.len() - k,
        {
            if k >= children.len() {
                proof {
                    assert(all.subrange(k as int, all.len() as int) =~= Seq::empty());
                    assert(entries_view(out@) + Seq::<(Seq<char>, FsEntryModel)>::empty()
                        =~= entries_view(out@));
                }
                return Some(FsEntry::Dir { node_id, content_type, entries: Some(out) });
            }
            let ghost rest = all.subrange(k as int, all.len() as int);
            proof {
                assert(rest[0] == all[k as int]);
                assert(rest.drop_first() =~= all.subrange(k as int + 1, all.len() as int));
                assert(decreases_to!(all => all[k as int]));
                assert(decreases_to!(all[k as int] => all[k as int].1));
            }
            let child = match entry_of_json(&children[k].1) {
                Some(e) => e,
                None => {
                    return None;
                },
            };
            let ghost out_before = out@;
            let name = children[k].0.clone();
            let ghost p = (name, child);
            out.push((name, child));
            proof {
                lemma_entries_view_push(out_before, p);
                match spec_entries_of_json(rest.drop_first()) {
                    Some(tail) => {
                        assert(entries_view(out_before) + (seq![(rest[0].0@, entry_view(p.1))]
                            + tail) =~= entries_view(out@) + tail);
                    },
                    None => {},
                }
            }
            k = k + 1;
        }
    } else {
        None
    }
}

/// Read a whole schema out of a parsed JSON value.
pub fn schema_of_json(v: &JsonValue) -> (r: Option<FsSchema>)
    ensures
        match spec_schema_of_json(*v) {
            Some(m) => r matches Some(s) && schema_view(s) == m,
            None => r is None,
        },
{
    match v {
        JsonValue::Object(_) => {},
        _ => {
            return None;
        },
    }
    let version = match v.get("version") {
        Some(JsonValue::UInt(n)) => *n,
        _ => {
            return None;
        },
    };
    match v.get("root") {
        None => Some(FsSchema { version, root: None }),
        Some(JsonValue::Null) => Some(FsSchema { version, root: None }),
        Some(rv) => match entry_of_json(rv) {
            Some(e) => Some(FsSchema { version, root: Some(e) }),
            None => None,
        },
    }
}

/// Parse a schema from text: `None` on malformed JSON or a bad shape.
pub fn parse_schema(content: &str) -> (r: Option<FsSchema>)
    ensures
        match spec_parse_schema(content@) {
            Some(m) => r matches Some(s) && schema_view(s) == m,
            None => r is None,
        },
{
    match crate::json::parse_json(content) {
        Some(v) => schema_of_json(&v),
        None => None,
    }
}

/// The position of the first `/` in a path, if any.
pub open spec fn spec_first_slash(s: Seq<char>) -> Option<int>
    decreases s.len(),
{
    if s.len() == 0 {
        None
    } else if s[0] == '/' {
        Some(0)
    } else {
        match spec_first_slash(s.drop_first()) {
            Some(i) => Some(i + 1),
            None => None,
        }
    }
}

/// The first slash is a slash, everything before it is not; absence means
/// no position holds one.
pub proof fn lemma_first_slash(s: Seq<char>)
    ensures
        match spec_first_slash(s) {
            Some(i) => 0 <= i < s.len() && s[i] == '/' && (forall|j: int|
                0 <= j < i ==> s[j] != '/'),
            None => forall|j: int| 0 <= j < s.len() ==> s[j] != '/',
        },
    decreases s.len(),
{
    if s.len() > 0 && s[0] != '/' {
        let d = s.drop_first();
        lemma_first_slash(d);
        assert(forall|j: int| 0 <= j < d.len() ==> d[j] == s[j + 1]);
        match spec_first_slash(d) {
            Some(i) => {
                assert(s[i + 1] == '/');
                assert forall|j: int| 0 <= j < i + 1 implies s[j] != '/' by {
                    if j > 0 {
                        assert(d[j - 1] == s[j]);
                    }
                }
            },
            None => {
                assert forall|j: int| 0 <= j < s.len() implies s[j] != '/' by {
                    if j > 0 {
                        assert(d[j - 1] == s[j]);
                    }
                }
            },
        }
    }
}

#[via_fn]
proof fn spec_split_path_dec(s: Seq<char>) {
    lemma_first_slash(s);
}

/// A path split on `/`, empty components kept; the empty path gives one
/// empty component.
pub open spec fn spec_split_path(s: Seq<char>) -> Seq<Seq<char>>
    decreases s.len(),
    via spec_split_path_dec
{
    match spec_first_slash(s) {
        None => seq![s],
        Some(i) => seq![s.take(i)] + spec_split_path(s.skip(i + 1)),
    }
}

/// A path with its leading slashes removed.
pub open spec fn spec_strip_leading_slashes(s: Seq<char>) -> Seq<char>
    decreases s.len(),
{
    if s.len() > 0 && s[0] == '/' {
        spec_strip_leading_slashes(s.drop_first())
    } else {
        s
    }
}

/// Stripping leading slashes is skipping past them.
pub proof fn lemma_strip_leading(s: Seq<char>, k: int)
    requires
        0 <= k <= s.len(),
        forall|j: int| 0 <= j < k ==> s[j] == '/',
        k == s.len() || s[k] != '/',
    ensures
        spec_strip_leading_slashes(s) == s.skip(k),
    decreases k,
{
    if k == 0 {
        assert(s.skip(0) =~= s);
    } else {
        let d = s.drop_first();
        assert(forall|j: int| 0 <= j < d.len() ==> d[j] == s[j + 1]);
        lemma_strip_leading(d, k - 1);
        assert(d.skip(k - 1) =~= s.skip(k));
    }
}

/// Split a path into components on `/`.
pub fn split_path(s: &str) -> (r: Vec<String>)
    ensures
        r.deep_view() == spec_split_path(s@),
{
    let n = s.unicode_len();
    let mut out: Vec<String> = Vec::new();
    proof {
        assert(s@.skip(0) =~= s@);
        assert(out.deep_view() =~= Seq::<Seq<char>>::empty());
        assert(out.deep_view() + spec_split_path(s@) =~= spec_split_path(s@));
    }
    let mut start: usize = 0;
    let mut i: usize = 0;
    while i < n
        invariant
            n == s@.len(),
            start <= i <= n,
            forall|j: int| start <= j < i ==> s@[j] != '/',
            spec_split_path(s@) == out.deep_view() + spec_split_path(s@.skip(start as int)),
        decreases n - i,
    {
        if s.get_char(i) == '/' {
            let ghost tail = s@.skip(start as int);
            proof {
                assert(forall|j: int| 0 <= j < tail.len() ==> tail[j] == s@[j + start]);
                lemma_first_slash(tail);
                match spec_first_slash(tail) {
                    Some(fi) => {
                        assert(tail[i - start] == '/');
                        assert(fi == i - start) by {
                            if fi < i - start {
                                assert(s@[fi + start] == '/');
                            }
                        }
                        assert(tail.take(fi) =~= s@.subrange(start as int, i as int));
                        assert(tail.skip(fi + 1) =~= s@.skip(i + 1));
                    },
                    None => {
                        assert(tail[i - start] == '/');
                    },
                }
            }
            let comp = String::from_str(s.substring_char(start, i));
            let ghost dv_before = out.deep_view();
            out.push(comp);
            proof {
                assert(out.deep_view() =~= dv_before.push(s@.subrange(start as int, i as int)));
                assert(dv_before + (seq![s@.subrange(start as int, i as int)] + spec_split_path(
                    s@.skip(i + 1),
                )) =~= out.deep_view() + spec_split_path(s@.skip(i + 1)));
            }
            start = i + 1;
        }
        i = i + 1;
    }
    let ghost tail = s@.skip(start as int);
    proof {
        assert(forall|j: int| 0 <= j < tail.len() ==> tail[j] == s@[j + start]);
        lemma_first_slash(tail);
        match spec_first_slash(tail) {
            Some(fi) => {
                assert(s@[fi + start] == '/');
            },
            None => {},
        }
        assert(tail =~= s@.subrange(start as int, n as int));
    }
    let comp = String::from_str(s.substring_char(start, n));
    let ghost dv_before = out.deep_view();
    out.push(comp);
    proof {
        assert(out.deep_view() =~= dv_before.push(tail));
        assert(dv_before + seq![tail] =~= out.deep_view());
    }
    out
}

/// The first entry of a directory listing with the given name.
pub open spec fn spec_lookup(
    entries: Seq<(Seq<char>, FsEntryModel)>,
    name: Seq<char>,
) -> Option<FsEntryModel>
    decreases entries.len(),
{
    if entries.len() == 0 {
        None
    } else if entries[0].0 == name {
        Some(entries[0].1)
    } else {
        spec_lookup(entries.drop_first(), name)
    }
}

/// The node id a component path resolves to inside a directory listing:
/// inline directories are entered, a document-backed directory ends the
/// walk, and the final component must name a document with an explicit id.
pub open spec fn spec_resolve_in(
    entries: Seq<(Seq<char>, FsEntryModel)>,
    comps: Seq<Seq<char>>,
) -> Option<Seq<char>>
    decreases comps.len(),
{
    if comps.len() == 0 {
        None
    } else {
        match spec_lookup(entries, comps[0]) {
            None => None,
            Some(e) => if comps.len() == 1 {
                match e {
                    FsEntryModel::Doc { node_id, .. } => node_id,
                    FsEntryModel::Dir { .. } => None,
                }
            } else {
                match e {
                    FsEntryModel::Dir { entries: Some(es), .. } => spec_resolve_in(
                        es,
                        comps.drop_first(),
                    ),
                    _ => None,
                }
            },
        }
    }
}

/// The node id a file path resolves to against a schema, after slash
/// normalization; `None` whenever the walk cannot reach a document id.
pub open spec fn spec_resolve(schema: FsSchemaModel, path: Seq<char>) -> Option<Seq<char>> {
    match schema.root {
        Some(FsEntryModel::Dir { entries: Some(es), .. }) => spec_resolve_in(
            es,
            spec_split_path(spec_strip_leading_slashes(path)),
        ),
        _ => None,
    }
}

/// Find an entry by name in a directory listing.
pub fn lookup_entry<'a>(entries: &'a Vec<(String, FsEntry)>, name: &str) -> (r: Option<
    &'a FsEntry,
>)
    ensures
        match spec_lookup(entries_view(entries@), name@) {
            Some(m) => r matches Some(e) && entry_view(*e) == m,
            None => r is None,
        },
{
    let ghost all = entries_view(entries@);
    proof {
        lemma_entries_view_index(entries@);
        assert(all.subrange(0, all.len() as int) =~= all);
    }
    let mut k: usize = 0;
    loop
        invariant
            k <= entries@.len(),
            all == entries_view(entries@),
            all.len() == entries@.len(),
            forall|i: int|
                0 <= i < entries@.len() ==> all[i] == (entries@[i].0@, entry_view(entries@[i].1)),
            match spec_lookup(all.subrange(k as int, all.len() as int), name@) {
                Some(m) => spec_lookup(all, name@) == Some(m),
                None => spec_lookup(all, name@) is None,
            },
        decreases entries@.len() - k,
    {
        if k >= entries.len() {
            proof {
                assert(all.subrange(k as int, all.len() as int) =~= Seq::empty());
            }
            return None;
        }
        let ghost rest = all.subrange(k as int, all.len() as int);
        proof {
            assert(rest[0] == all[k as int]);
            assert(rest.drop_first() =~= all.subrange(k as int + 1, all.len() as int));
        }
        if crate::text::str_eq(entries[k].0.as_str(), name) {
            return Some(&entries[k].1);
        }
        k = k + 1;
    }
}

/// A materialization order: the path an entry stands at, the document id
/// backing it, and the content type it is created with if missing.
pub open spec fn triples_view(s: Seq<(String, String, ContentType)>) -> Seq<
    (Seq<char>, Seq<char>, ContentType),
> {
    Seq::new(s.len(), |i: int| (s[i].0@, s[i].1@, s[i].2))
}

/// The derived id of the document at a path: the fs-root id itself at the
/// empty path, else `"<fs-root-id>:<path>"`.
pub open spec fn spec_derive_doc_id(fs_root_id: Seq<char>, path: Seq<char>) -> Seq<char> {
    if path.len() == 0 {
        fs_root_id
    } else {
        fs_root_id + ":"@ + path
    }
}

/// The content type an optional MIME string selects; JSON by default and
/// for unsupported strings.
pub open spec fn spec_ct_of(content_type: Option<Seq<char>>) -> ContentType {
    match content_type {
        Some(m) => match ContentType::spec_from_mime(m) {
            Some(ct) => ct,
            None => ContentType::Json,
        },
        None => ContentType::Json,
    }
}

/// The path of a child entry under a directory path.
pub open spec fn spec_child_path(path: Seq<char>, name: Seq<char>) -> Seq<char> {
    if path.len() == 0 {
        name
    } else {
        path + "/"@ + name
    }
}

/// The schema cached for a document-backed directory, first match by id.
pub open spec fn spec_cache_lookup(cache: Seq<(String, FsSchema)>, id: Seq<char>) -> Option<
    FsSchemaModel,
>
    decreases cache.len(),
{
    if cache.len() == 0 {
        None
    } else if cache[0].0@ == id {
        Some(schema_view(cache[0].1))
    } else {
        spec_cache_lookup(cache.drop_first(), id)
    }
}

/// How many store ids are still open for descent: the ids not on the
/// recursion stack. Descending through a document-backed directory consumes
/// one, which bounds the walk.
pub open spec fn free_ids(store: DocumentStore, stack: Set<Seq<char>>) -> nat {
    store.id_set().difference(stack).len()
}

/// Pushing a stored, unvisited id onto the stack strictly shrinks the
/// free-id budget.
pub proof fn lemma_free_ids_decrease(store: DocumentStore, stack: Set<Seq<char>>, id: Seq<char>)
    requires
        store.id_set().contains(id),
        !stack.contains(id),
    ensures
        free_ids(store, stack.insert(id)) < free_ids(store, stack),
{
    broadcast use vstd::seq_lib::seq_to_set_is_finite;

    let d1 = store.id_set().difference(stack);
    let d2 = store.id_set().difference(stack.insert(id));
    store.lemma_id_set();
    assert(d1.finite()) by {
        vstd::set_lib::lemma_set_subset_finite(store.id_set(), d1);
    }
    assert(d2 =~= d1.remove(id));
    assert(d1.contains(id));
    assert(d1.remove(id).len() == d1.len() - 1);
}

#[via_fn]
proof fn spec_collect_entry_dec(
    store: DocumentStore,
    cache: Seq<(String, FsSchema)>,
    stack: Set<Seq<char>>,
    fs_root_id: Seq<char>,
    e: FsEntryModel,
    path: Seq<char>,
) {
    match e {
        FsEntryModel::Dir { node_id, content_type, entries } => {
            match node_id {
                Some(id) => if !stack.contains(id) && store.contains(id) {
                    store.lemma_id_set();
                    lemma_free_ids_decrease(store, stack, id);
                },
                None => {},
            }
            match entries {
                Some(children) => {
                    assert(decreases_to!(e => entries));
                    assert(decreases_to!(entries => children));
                },
                None => {},
            }
        },
        _ => {},
    }
}

/// The walk of one schema entry: the materialization orders it and the
/// subtrees it reaches produce, or a structural error.
pub open spec fn spec_collect_entry(
    store: DocumentStore,
    cache: Seq<(String, FsSchema)>,
    stack: Set<Seq<char>>,
    fs_root_id: Seq<char>,
    e: FsEntryModel,
    path: Seq<char>,
) -> Result<Seq<(Seq<char>, Seq<char>, ContentType)>, ()>
    decreases free_ids(store, stack), 1int, e,
    via spec_collect_entry_dec
{
    match e {
        FsEntryModel::Doc { node_id, content_type } => Ok(
            seq![
                (
                    path,
                    match node_id {
                        Some(n) => n,
                        None => spec_derive_doc_id(fs_root_id, path),
                    },
                    spec_ct_of(content_type),
                ),
            ],
        ),
        FsEntryModel::Dir { node_id, content_type, entries } => {
            if node_id is Some && entries is Some {
                Err(())
            } else {
                let own: Seq<(Seq<char>, Seq<char>, ContentType)> = match node_id {
                    Some(id) => {
                        let own_triple = seq![(path, id, spec_ct_of(content_type))];
                        if stack.contains(id) {
                            own_triple
                        } else if !store.contains(id) {
                            own_triple
                        } else {
                            own_triple + (match spec_collect_doc_backed(
                                store,
                                cache,
                                stack.insert(id),
                                fs_root_id,
                                id,
                                path,
                            ) {
                                Some(extra) => extra,
                                None => Seq::empty(),
                            })
                        }
                    },
                    None => Seq::empty(),
                };
                match entries {
                    Some(children) => match spec_collect_children(
                        store,
                        cache,
                        stack,
                        fs_root_id,
                        children,
                        path,
                    ) {
                        Ok(more) => Ok(own + more),
                        Err(()) => Err(()),
                    },
                    None => Ok(own),
                }
            }
        },
    }
}

/// The walk of a directory's named children, left to right; a child with an
/// illegal name is a structural error.
pub open spec fn spec_collect_children(
    store: DocumentStore,
    cache: Seq<(String, FsSchema)>,
    stack: Set<Seq<char>>,
    fs_root_id: Seq<char>,
    children: Seq<(Seq<char>, FsEntryModel)>,
    path: Seq<char>,
) -> Result<Seq<(Seq<char>, Seq<char>, ContentType)>, ()>
    decreases free_ids(store, stack), 1int, children,
{
    if children.len() == 0 {
        Ok(Seq::empty())
    } else if !spec_valid_name(children[0].0) {
        Err(())
    } else {
        match spec_collect_entry(
            store,
            cache,
            stack,
            fs_root_id,
            children[0].1,
            spec_child_path(path, children[0].0),
        ) {
            Err(()) => Err(()),
            Ok(first) => match spec_collect_children(
                store,
                cache,
                stack,
                fs_root_id,
                children.drop_first(),
                path,
            ) {
                Err(()) => Err(()),
                Ok(more) => Ok(first + more),
            },
        }
    }
}

/// The walk below a document-backed directory: fetch that document's
/// content, read it as a nested schema, fall back to the cached schema when
/// it is malformed, and give the subtree up (`None`) when neither works.
pub open spec fn spec_collect_doc_backed(
    store: DocumentStore,
    cache: Seq<(String, FsSchema)>,
    stack: Set<Seq<char>>,
    fs_root_id: Seq<char>,
    doc_id: Seq<char>,
    base_path: Seq<char>,
) -> Option<Seq<(Seq<char>, Seq<char>, ContentType)>>
    decreases free_ids(store, stack), 3int, (FsEntryModel::Doc {
        node_id: None,
        content_type: None,
    }),
{
    match store.spec_get(doc_id) {
        None => None,
        Some(doc) => {
            let content = doc.content@;
            if content.len() == 0 || content == "{}"@ {
                None
            } else {
                let schema_opt = match spec_parse_schema(content) {
                    Some(s) => Some(s),
                    None => spec_cache_lookup(cache, doc_id),
                };
                match schema_opt {
                    None => None,
                    Some(schema) => if schema.version != 1 {
                        match spec_cache_lookup(cache, doc_id) {
                            Some(c) => spec_collect_valid(
                                store,
                                cache,
                                stack,
                                fs_root_id,
                                c,
                                base_path,
                            ),
                            None => None,
                        }
                    } else if (match schema.root {
                        Some(e) => !(e is Dir),
                        None => false,
                    }) {
                        match spec_cache_lookup(cache, doc_id) {
                            Some(c) => spec_collect_valid(
                                store,
                                cache,
                                stack,
                                fs_root_id,
                                c,
                                base_path,
                            ),
                            None => None,
                        }
                    } else {
                        spec_collect_valid(store, cache, stack, fs_root_id, schema, base_path)
                    },
                }
            }
        },
    }
}

/// The walk of a nested schema that passed its checks: its root subtree,
/// with a failing subtree given up rather than poisoning the whole walk.
pub open spec fn spec_collect_valid(
    store: DocumentStore,
    cache: Seq<(String, FsSchema)>,
    stack: Set<Seq<char>>,
    fs_root_id: Seq<char>,
    schema: FsSchemaModel,
    base_path: Seq<char>,
) -> Option<Seq<(Seq<char>, Seq<char>, ContentType)>>
    decreases free_ids(store, stack), 2int, (FsEntryModel::Doc {
        node_id: None,
        content_type: None,
    }),
{
    match schema.root {
        None => Some(Seq::empty()),
        Some(root) => match spec_collect_entry(store, cache, stack, fs_root_id, root, base_path) {
            Ok(l) => Some(l),
            Err(()) => None,
        },
    }
}

/// The ids of a string list, as a set.
pub open spec fn str_set(v: Seq<String>) -> Set<Seq<char>> {
    v.map_values(|s: String| s@).to_set()
}

/// Pushing a string inserts its characters into the set.
pub proof fn lemma_str_set_push(v: Seq<String>, s: String)
    ensures
        str_set(v.push(s)) == str_set(v).insert(s@),
{
    let f = |x: String| x@;
    let m = v.map_values(f);
    assert(v.push(s).map_values(f) =~= m.push(s@));
    assert forall|a: Seq<char>| #[trigger] m.push(s@).contains(a) implies (m.contains(a) || a
        == s@) by {
        let i = choose|i: int| 0 <= i < m.push(s@).len() && m.push(s@)[i] == a;
        if i < m.len() {
            assert(m[i] == a);
        }
    }
    assert forall|a: Seq<char>| #[trigger] m.contains(a) implies m.push(s@).contains(a) by {
        let i = choose|i: int| 0 <= i < m.len() && m[i] == a;
        assert(m.push(s@)[i] == a);
    }
    assert(m.push(s@)[m.len() as int] == s@);
    assert(m.push(s@).contains(s@));
    assert(m.push(s@).to_set() =~= m.to_set().insert(s@));
}

/// Membership in the set is having the characters of some list entry.
pub proof fn lemma_str_set_members(v: Seq<String>)
    ensures
        forall|x: Seq<char>|
            #[trigger] str_set(v).contains(x) <==> exists|i: int| 0 <= i < v.len() && v[i]@ == x,
{
    let f = |x: String| x@;
    assert forall|x: Seq<char>| #[trigger] str_set(v).contains(x) implies exists|i: int|
        0 <= i < v.len() && v[i]@ == x by {
        let i = choose|i: int| 0 <= i < v.map_values(f).len() && v.map_values(f)[i] == x;
        assert(v[i]@ == x);
    }
    assert forall|x: Seq<char>| (exists|i: int| 0 <= i < v.len() && v[i]@ == x) implies #[trigger]
    str_set(v).contains(x) by {
        let i = choose|i: int| 0 <= i < v.len() && v[i]@ == x;
        assert(v.map_values(f)[i] == x);
        assert(v.map_values(f).contains(x));
    }
}

/// Whether the list holds the string.
pub(crate) fn contains_str(v: &Vec<String>, s: &str) -> (r: bool)
    ensures
        r == str_set(v@).contains(s@),
{
    proof {
        lemma_str_set_members(v@);
    }
    let mut k: usize = 0;
    while k < v.len()
        invariant
            k <= v@.len(),
            forall|j: int| 0 <= j < k ==> v@[j]@ != s@,
            forall|x: Seq<char>|
                #[trigger] str_set(v@).contains(x) <==> exists|i: int|
                    0 <= i < v@.len() && v@[i]@ == x,
        decreases v@.len() - k,
    {
        if crate::text::str_eq(v[k].as_str(), s) {
            return true;
        }
        k = k + 1;
    }
    false
}

/// The cached schema for a document-backed directory, if any.
fn cache_get<'a>(cache: &'a Vec<(String, FsSchema)>, id: &str) -> (r: Option<&'a FsSchema>)
    ensures
        match spec_cache_lookup(cache@, id@) {
            Some(m) => r matches Some(s) && schema_view(*s) == m,
            None => r is None,
        },
{
    let ghost all = cache@;
    proof {
        assert(all.subrange(0, all.len() as int) =~= all);
    }
    let mut k: usize = 0;
    loop
        invariant
            k <= cache@.len(),
            cache@ == all,
            match spec_cache_lookup(all.subrange(k as int, all.len() as int), id@) {
                Some(m) => spec_cache_lookup(all, id@) == Some(m),
                None => spec_cache_lookup(all, id@) is None,
            },
        decreases cache@.len() - k,
    {
        if k >= cache.len() {
            proof {
                assert(all.subrange(k as int, all.len() as int) =~= Seq::empty());
            }
            return None;
        }
        let ghost rest = all.subrange(k as int, all.len() as int);
        proof {
            assert(rest[0] == all[k as int]);
            assert(rest.drop_first() =~= all.subrange(k as int + 1, all.len() as int));
        }
        if crate::text::str_eq(cache[k].0.as_str(), id) {
            return Some(&cache[k].1);
        }
        k = k + 1;
    }
}

/// The content type an optional MIME string selects, JSON by default.
fn ct_of(content_type: &Option<String>) -> (r: ContentType)
    ensures
        r == spec_ct_of(opt_str_view(*content_type)),
{
    match content_type {
        Some(s) => match ContentType::from_mime(s.as_str()) {
            Some(ct) => ct,
            None => ContentType::Json,
        },
        None => ContentType::Json,
    }
}

/// The derived id of the document at a path.
fn derive_doc_id_of(fs_root_id: &str, path: &str) -> (r: String)
    ensures
        r@ == spec_derive_doc_id(fs_root_id@, path@),
{
    if path.is_empty() {
        String::from_str(fs_root_id)
    } else {
        let head = crate::text::concat_strs(fs_root_id, ":");
        crate::text::concat_strs(head.as_str(), path)
    }
}

/// A legal entry name: non-empty, not `.` or `..`, and free of `/` and NUL.
pub open spec fn spec_valid_name(name: Seq<char>) -> bool {
    &&& name.len() > 0
    &&& name != "."@
    &&& name != ".."@
    &&& forall|i: int| 0 <= i < name.len() ==> name[i] != '/' && name[i] != '\u{0}'
}

/// Collect the materialization orders of one schema entry and the
/// subtrees it reaches, against a read-only store and schema cache.
fn collect_entries_with_dirs(
    store: &DocumentStore,
    cache: &Vec<(String, FsSchema)>,
    new_cache: &mut Vec<(String, FsSchema)>,
    fs_root_id: &String,
    entry: &FsEntry,
    current_path: &String,
    doc_backed_dirs: &mut Vec<String>,
    recursion_stack: &mut Vec<String>,
) -> (r: Result<Vec<(String, String, ContentType)>, FsError>)
    ensures
        final(recursion_stack)@ == old(recursion_stack)@,
        match spec_collect_entry(
            *store,
            cache@,
            str_set(old(recursion_stack)@),
            fs_root_id@,
            entry_view(*entry),
            current_path@,
        ) {
            Ok(l) => r matches Ok(v) && triples_view(v@) == l,
            Err(()) => r matches Err(e) && e is SchemaError,
        },
    decreases free_ids(*store, str_set(recursion_stack@)), 1int, *entry,
{
    let ghost stack0 = recursion_stack@;
    let ghost sset = str_set(stack0);
    match entry {
        FsEntry::Doc { node_id, content_type } => {
            let doc_id: String = match node_id {
                Some(n) => n.clone(),
                None => derive_doc_id_of(fs_root_id.as_str(), current_path.as_str()),
            };
            let ct = ct_of(content_type);
            let mut results: Vec<(String, String, ContentType)> = Vec::new();
            results.push((current_path.clone(), doc_id, ct));
            proof {
                assert(triples_view(results@) =~= spec_collect_entry(
                    *store,
                    cache@,
                    sset,
                    fs_root_id@,
                    entry_view(*entry),
                    current_path@,
                ).unwrap());
            }
            Ok(results)
        },
        FsEntry::Dir { node_id, content_type, entries } => {
            if node_id.is_some() && entries.is_some() {
                let shown = if current_path.as_str().is_empty() {
                    "/"
                } else {
                    current_path.as_str()
                };
                let head = crate::text::concat_strs("Directory at '", shown);
                let msg = crate::text::concat_strs(
                    head.as_str(),
                    "' has both node_id and entries (mutually exclusive)",
                );
                return Err(FsError::SchemaError(msg));
            }
            let mut results: Vec<(String, String, ContentType)> = Vec::new();
            let ghost spec_own: Seq<(Seq<char>, Seq<char>, ContentType)> = (match entry_view(
                *entry,
            ) {
                FsEntryModel::Dir { node_id: nid, content_type: ctm, entries: _ } => match nid {
                    Some(idm) => {
                        let own_triple = seq![(current_path@, idm, spec_ct_of(ctm))];
                        if sset.contains(idm) {
                            own_triple
                        } else if !store.contains(idm) {
                            own_triple
                        } else {
                            own_triple + (match spec_collect_doc_backed(
                                *store,
                                cache@,
                                sset.insert(idm),
                                fs_root_id@,
                                idm,
                                current_path@,
                            ) {
                                Some(extra) => extra,
                                None => Seq::empty(),
                            })
                        }
                    },
                    None => Seq::empty(),
                },
                _ => Seq::empty(),
            });
            if let Some(id) = node_id {
                let ct = ct_of(content_type);
                results.push((current_path.clone(), id.clone(), ct));
                let ghost own_triple = seq![(current_path@, id@, ct)];
                proof {
                    assert(triples_view(results@) =~= own_triple);
                }
                if !contains_str(doc_backed_dirs, id.as_str()) {
                    doc_backed_dirs.push(id.clone());
                }
                let in_stack = contains_str(recursion_stack, id.as_str());
                if in_stack {
                    proof {
                        assert(triples_view(results@) == spec_own);
                    }
                } else {
                    let exists_doc = store.get_document(id.as_str()).is_some();
                    if exists_doc {
                        proof {
                            store.lemma_id_set();
                            lemma_free_ids_decrease(*store, sset, id@);
                        }
                        let cl = id.clone();
                        let ghost clg = cl;
                        recursion_stack.push(cl);
                        proof {
                            lemma_str_set_push(stack0, clg);
                            assert(str_set(recursion_stack@) == sset.insert(id@));
                        }
                        let extra = collect_doc_backed_dir_entries_with_dirs(
                            store,
                            cache,
                            new_cache,
                            fs_root_id,
                            id,
                            current_path,
                            doc_backed_dirs,
                            recursion_stack,
                        );
                        let _ = recursion_stack.pop();
                        proof {
                            assert(recursion_stack@ =~= stack0);
                        }
                        match extra {
                            Some(mut ex) => {
                                let ghost before = results@;
                                let ghost exv = ex@;
                                results.append(&mut ex);
                                proof {
                                    assert(triples_view(before + exv) =~= triples_view(before)
                                        + triples_view(exv));
                                    assert(triples_view(results@) == spec_own);
                                }
                            },
                            None => {
                                proof {
                                    assert(own_triple + Seq::<
                                        (Seq<char>, Seq<char>, ContentType),
                                    >::empty() =~= own_triple);
                                    assert(triples_view(results@) == spec_own);
                                }
                            },
                        }
                    } else {
                        proof {
                            assert(triples_view(results@) == spec_own);
                        }
                    }
                }
            } else {
                proof {
                    assert(triples_view(results@) =~= Seq::<
                        (Seq<char>, Seq<char>, ContentType),
                    >::empty());
                    assert(triples_view(results@) == spec_own);
                }
            }
            let ghost own = triples_view(results@);
            let ghost target = spec_collect_entry(
                *store,
                cache@,
                sset,
                fs_root_id@,
                entry_view(*entry),
                current_path@,
            );
            match entries {
                None => {
                    proof {
                        assert(target == Ok::<_, ()>(own));
                    }
                    Ok(results)
                },
                Some(children) => {
                    let ghost cm = entries_view(children@);
                    proof {
                        lemma_entries_view_index(children@);
                        assert(cm.subrange(0, cm.len() as int) =~= cm);
                        assert(target == (match spec_collect_children(
                            *store,
                            cache@,
                            sset,
                            fs_root_id@,
                            cm,
                            current_path@,
                        ) {
                            Ok(more) => Ok::<_, ()>(own + more),
                            Err(()) => Err::<Seq<(Seq<char>, Seq<char>, ContentType)>, ()>(()),
                        }));
                    }
                    let ghost mut done: Seq<(Seq<char>, Seq<char>, ContentType)> = Seq::empty();
                    proof {
                        assert(own + done =~= own);
                    }
                    let mut k: usize = 0;
                    loop
                        invariant
                            k <= children@.len(),
                            cm == entries_view(children@),
                            cm.len() == children@.len(),
                            forall|i: int|
                                0 <= i < children@.len() ==> cm[i] == (
                                    children@[i].0@,
                                    entry_view(children@[i].1),
                                ),
                            recursion_stack@ == stack0,
                            stack0 == old(recursion_stack)@,
                            sset == str_set(stack0),
                            *entry is Dir,
                            entry->Dir_entries == Some(*children),
                            triples_view(results@) == own + done,
                            target == spec_collect_entry(
                                *store,
                                cache@,
                                sset,
                                fs_root_id@,
                                entry_view(*entry),
                                current_path@,
                            ),
                            target == (match spec_collect_children(
                                *store,
                                cache@,
                                sset,
                                fs_root_id@,
                                cm,
                                current_path@,
                            ) {
                                Ok(more) => Ok::<_, ()>(own + more),
                                Err(()) => Err::<Seq<(Seq<char>, Seq<char>, ContentType)>, ()>(
                                    (),
                                ),
                            }),
                            match spec_collect_children(
                                *store,
                                cache@,
                                sset,
                                fs_root_id@,
                                cm.subrange(k as int, cm.len() as int),
                                current_path@,
                            ) {
                                Ok(rest) => spec_collect_children(
                                    *store,
                                    cache@,
                                    sset,
                                    fs_root_id@,
                                    cm,
                                    current_path@,
                                ) == Ok::<_, ()>(done + rest),
                                Err(()) => spec_collect_children(
                                    *store,
                                    cache@,
                                    sset,
                                    fs_root_id@,
                                    cm,
                                    current_path@,
                                ) is Err,
                            },
                        decreases children@.len() - k,
                    {
                        if k >= children.len() {
                            proof {
                                assert(cm.subrange(k as int, cm.len() as int) =~= Seq::empty());
                                assert(done + Seq::<(Seq<char>, Seq<char>, ContentType)>::empty()
                                    =~= done);
                            }
                            return Ok(results);
                        }
                        let ghost rest = cm.subrange(k as int, cm.len() as int);
                        proof {
                            assert(rest[0] == cm[k as int]);
                            assert(rest.drop_first() =~= cm.subrange(
                                k as int + 1,
                                cm.len() as int,
                            ));
                        }
                        if !validate_name(children[k].0.as_str()) {
                            let head = crate::text::concat_strs(
                                "invalid entry name: '",
                                children[k].0.as_str(),
                            );
                            let msg = crate::text::concat_strs(head.as_str(), "'");
                            return Err(FsError::SchemaError(msg));
                        }
                        let child_path: String = if current_path.as_str().is_empty() {
                            children[k].0.clone()
                        } else {
                            let head = crate::text::concat_strs(current_path.as_str(), "/");
                            crate::text::concat_strs(head.as_str(), children[k].0.as_str())
                        };
                        proof {
                            assert(child_path@ == spec_child_path(current_path@, cm[k as int].0));
                            assert(decreases_to!(*entry => entry->Dir_entries));
                            assert(decreases_to!(entry->Dir_entries => entry->Dir_entries->0));
                            assert(entry->Dir_entries->0 == *children);
                            assert(decreases_to!(*children => children@));
                            assert(decreases_to!(children@ => children@[k as int]));
                            assert(decreases_to!(children@[k as int] => children@[k as int].1));
                        }
                        let sub = collect_entries_with_dirs(
                            store,
                            cache,
                            new_cache,
                            fs_root_id,
                            &children[k].1,
                            &child_path,
                            doc_backed_dirs,
                            recursion_stack,
                        );
                        match sub {
                            Ok(mut v) => {
                                let ghost before = results@;
                                let ghost vv = v@;
                                results.append(&mut v);
                                proof {
                                    assert(triples_view(before + vv) =~= triples_view(before)
                                        + triples_view(vv));
                                    let done_old = done;
                                    done = done + triples_view(vv);
                                    assert((own + done_old) + triples_view(vv) =~= own + (done_old
                                        + triples_view(vv)));
                                    match spec_collect_children(
                                        *store,
                                        cache@,
                                        sset,
                                        fs_root_id@,
                                        cm.subrange(k as int + 1, cm.len() as int),
                                        current_path@,
                                    ) {
                                        Ok(more) => {
                                            assert(done_old + (triples_view(vv) + more) =~= done
                                                + more);
                                        },
                                        Err(()) => {},
                                    }
                                }
                            },
                            Err(e) => {
                                return Err(e);
                            },
                        }
                        k = k + 1;
                    }
                },
            }
        },
    }
}

/// Fetch a document-backed directory's content and walk the nested schema
/// it holds, falling back to the cached schema when it is malformed.
fn collect_doc_backed_dir_entries_with_dirs(
    store: &DocumentStore,
    cache: &Vec<(String, FsSchema)>,
    new_cache: &mut Vec<(String, FsSchema)>,
    fs_root_id: &String,
    doc_id: &String,
    base_path: &String,
    doc_backed_dirs: &mut Vec<String>,
    recursion_stack: &mut Vec<String>,
) -> (r: Option<Vec<(String, String, ContentType)>>)
    ensures
        final(recursion_stack)@ == old(recursion_stack)@,
        match spec_collect_doc_backed(
            *store,
            cache@,
            str_set(old(recursion_stack)@),
            fs_root_id@,
            doc_id@,
            base_path@,
        ) {
            Some(l) => r matches Some(v) && triples_view(v@) == l,
            None => r is None,
        },
    decreases free_ids(*store, str_set(recursion_stack@)), 3int, (FsEntry::Doc {
        node_id: None,
        content_type: None,
    }),
{
    let doc = match store.get_document(doc_id.as_str()) {
        Some(d) => d,
        None => {
            return None;
        },
    };
    if doc.content.as_str().is_empty() || crate::text::str_eq(doc.content.as_str(), "{}") {
        return None;
    }
    let parsed = parse_schema(doc.content.as_str());
    let schema: &FsSchema = match &parsed {
        Some(s) => s,
        None => match cache_get(cache, doc_id.as_str()) {
            Some(c) => c,
            None => {
                return None;
            },
        },
    };
    if schema.version != 1 {
        return match cache_get(cache, doc_id.as_str()) {
            Some(c) => collect_from_valid_doc_schema(
                store,
                cache,
                new_cache,
                fs_root_id,
                c,
                base_path,
                doc_backed_dirs,
                recursion_stack,
            ),
            None => None,
        };
    }
    let root_bad = match &schema.root {
        Some(FsEntry::Dir { .. }) => false,
        Some(_) => true,
        None => false,
    };
    if root_bad {
        return match cache_get(cache, doc_id.as_str()) {
            Some(c) => collect_from_valid_doc_schema(
                store,
                cache,
                new_cache,
                fs_root_id,
                c,
                base_path,
                doc_backed_dirs,
                recursion_stack,
            ),
            None => None,
        };
    }
    if let Some(reparsed) = parse_schema(doc.content.as_str()) {
        new_cache.push((doc_id.clone(), reparsed));
    }
    collect_from_valid_doc_schema(
        store,
        cache,
        new_cache,
        fs_root_id,
        schema,
        base_path,
        doc_backed_dirs,
        recursion_stack,
    )
}

/// Walk the root of a nested schema that passed its checks.
fn collect_from_valid_doc_schema(
    store: &DocumentStore,
    cache: &Vec<(String, FsSchema)>,
    new_cache: &mut Vec<(String, FsSchema)>,
    fs_root_id: &String,
    schema: &FsSchema,
    base_path: &String,
    doc_backed_dirs: &mut Vec<String>,
    recursion_stack: &mut Vec<String>,
) -> (r: Option<Vec<(String, String, ContentType)>>)
    ensures
        final(recursion_stack)@ == old(recursion_stack)@,
        match spec_collect_valid(
            *store,
            cache@,
            str_set(old(recursion_stack)@),
            fs_root_id@,
            schema_view(*schema),
            base_path@,
        ) {
            Some(l) => r matches Some(v) && triples_view(v@) == l,
            None => r is None,
        },
    decreases free_ids(*store, str_set(recursion_stack@)), 2int, (FsEntry::Doc {
        node_id: None,
        content_type: None,
    }),
{
    match &schema.root {
        None => {
            let out: Vec<(String, String, ContentType)> = Vec::new();
            proof {
                assert(triples_view(out@) =~= Seq::<(Seq<char>, Seq<char>, ContentType)>::empty());
            }
            Some(out)
        },
        Some(root) => match collect_entries_with_dirs(
            store,
            cache,
            new_cache,
            fs_root_id,
            root,
            base_path,
            doc_backed_dirs,
            recursion_stack,
        ) {
            Ok(v) => Some(v),
            Err(_) => None,
        },
    }
}

/// Check an entry name against the schema's naming rules.
pub fn validate_name(name: &str) -> (r: bool)
    ensures
        r == spec_valid_name(name@),
{
    let n = name.unicode_len();
    if n == 0 {
        return false;
    }
    if crate::text::str_eq(name, ".") || crate::text::str_eq(name, "..") {
        return false;
    }
    let mut i: usize = 0;
    while i < n
        invariant
            n == name@.len(),
            i <= n,
            name@.len() > 0,
            name@ != "."@,
            name@ != ".."@,
            forall|j: int| 0 <= j < i ==> name@[j] != '/' && name@[j] != '\u{0}',
        decreases n - i,
    {
        let c = name.get_char(i);
        if c == '/' || c == '\u{0}' {
            return false;
        }
        i = i + 1;
    }
    true
}


/// The content type of the first materialization order naming an id.
pub open spec fn spec_first_ct(
    triples: Seq<(Seq<char>, Seq<char>, ContentType)>,
    id: Seq<char>,
) -> Option<ContentType>
    decreases triples.len(),
{
    if triples.len() == 0 {
        None
    } else if triples[0].1 == id {
        Some(triples[0].2)
    } else {
        spec_first_ct(triples.drop_first(), id)
    }
}

/// How the first order for an id changes when one order is appended.
pub proof fn lemma_first_ct_push(
    s: Seq<(Seq<char>, Seq<char>, ContentType)>,
    p: (Seq<char>, Seq<char>, ContentType),
    id: Seq<char>,
)
    ensures
        spec_first_ct(s.push(p), id) == (match spec_first_ct(s, id) {
            Some(ct) => Some(ct),
            None => if p.1 == id {
                Some(p.2)
            } else {
                None::<ContentType>
            },
        }),
    decreases s.len(),
{
    if s.len() == 0 {
        assert(s.push(p)[0] == p);
        assert(s.push(p).drop_first() =~= Seq::<(Seq<char>, Seq<char>, ContentType)>::empty());
    } else {
        assert(s.push(p)[0] == s[0]);
        assert(s.push(p).drop_first() =~= s.drop_first().push(p));
        lemma_first_ct_push(s.drop_first(), p, id);
    }
}

/// The materialization orders a whole schema yields against a store and a
/// schema cache, starting from an empty recursion stack at the empty path.
pub open spec fn spec_reconcile_triples(
    store: DocumentStore,
    cache: Seq<(String, FsSchema)>,
    fs_root_id: Seq<char>,
    schema: FsSchemaModel,
) -> Result<Seq<(Seq<char>, Seq<char>, ContentType)>, ()> {
    match schema.root {
        None => Ok(Seq::empty()),
        Some(root) => spec_collect_entry(
            store,
            cache,
            Set::empty(),
            fs_root_id,
            root,
            Seq::empty(),
        ),
    }
}

/// What reconciliation did to an id that was not in the store: created it
/// fresh under the first order naming it, or left it absent.
pub open spec fn spec_created(
    store: DocumentStore,
    triples: Seq<(Seq<char>, Seq<char>, ContentType)>,
    id: Seq<char>,
) -> bool {
    match spec_first_ct(triples, id) {
        Some(ct) => store.spec_get(id) matches Some(d) && d.is_fresh(ct),
        None => !store.contains(id),
    }
}

#[via_fn]
proof fn entry_has_no_mounts_dec(e: FsEntryModel) {
    match e {
        FsEntryModel::Dir { entries, .. } => match entries {
            Some(children) => {
                assert(decreases_to!(e => entries));
                assert(decreases_to!(entries => children));
            },
            None => {},
        },
        _ => {},
    }
}

/// No directory below the entry is document-backed: the walk of such an
/// entry reads neither the store nor the schema cache.
pub open spec fn entry_has_no_mounts(e: FsEntryModel) -> bool
    decreases e, 0int,
    via entry_has_no_mounts_dec
{
    match e {
        FsEntryModel::Doc { .. } => true,
        FsEntryModel::Dir { node_id, entries, .. } => node_id is None && (match entries {
            None => true,
            Some(children) => children_have_no_mounts(children),
        }),
    }
}

/// No directory below any child is document-backed.
pub open spec fn children_have_no_mounts(children: Seq<(Seq<char>, FsEntryModel)>) -> bool
    decreases children, 1int,
{
    children.len() == 0 || (entry_has_no_mounts(children[0].1) && children_have_no_mounts(
        children.drop_first(),
    ))
}

/// The walk of a mount-free entry is a pure function of the entry: the
/// store, the cache, and the recursion stack do not enter it.
pub proof fn lemma_collect_entry_pure(
    store_a: DocumentStore,
    cache_a: Seq<(String, FsSchema)>,
    stack_a: Set<Seq<char>>,
    store_b: DocumentStore,
    cache_b: Seq<(String, FsSchema)>,
    stack_b: Set<Seq<char>>,
    fs_root_id: Seq<char>,
    e: FsEntryModel,
    path: Seq<char>,
)
    requires
        entry_has_no_mounts(e),
    ensures
        spec_collect_entry(store_a, cache_a, stack_a, fs_root_id, e, path) == spec_collect_entry(
            store_b,
            cache_b,
            stack_b,
            fs_root_id,
            e,
            path,
        ),
    decreases e, 0int,
{
    match e {
        FsEntryModel::Doc { .. } => {},
        FsEntryModel::Dir { node_id, entries, .. } => {
            match entries {
                Some(children) => {
                    assert(decreases_to!(e => entries));
                    assert(decreases_to!(entries => children));
                    lemma_collect_children_pure(
                        store_a,
                        cache_a,
                        stack_a,
                        store_b,
                        cache_b,
                        stack_b,
                        fs_root_id,
                        children,
                        path,
                    );
                },
                None => {},
            }
        },
    }
}

/// The walk of mount-free children is a pure function of the children.
pub proof fn lemma_collect_children_pure(
    store_a: DocumentStore,
    cache_a: Seq<(String, FsSchema)>,
    stack_a: Set<Seq<char>>,
    store_b: DocumentStore,
    cache_b: Seq<(String, FsSchema)>,
    stack_b: Set<Seq<char>>,
    fs_root_id: Seq<char>,
    children: Seq<(Seq<char>, FsEntryModel)>,
    path: Seq<char>,
)
    requires
        children_have_no_mounts(children),
    ensures
        spec_collect_children(store_a, cache_a, stack_a, fs_root_id, children, path)
            == spec_collect_children(store_b, cache_b, stack_b, fs_root_id, children, path),
    decreases children, 1int,
{
    if children.len() > 0 {
        if spec_valid_name(children[0].0) {
            lemma_collect_entry_pure(
                store_a,
                cache_a,
                stack_a,
                store_b,
                cache_b,
                stack_b,
                fs_root_id,
                children[0].1,
                spec_child_path(path, children[0].0),
            );
            lemma_collect_children_pure(
                store_a,
                cache_a,
                stack_a,
                store_b,
                cache_b,
                stack_b,
                fs_root_id,
                children.drop_first(),
                path,
            );
        }
    }
}

/// Idempotence for mount-free schemas: the walk of a schema without
/// document-backed directories ignores the store and cache, so a second
/// reconciliation of the same content orders the same materializations —
/// which the first already made — and changes nothing.
///
/// The hypotheses are the postconditions the two `reconcile` calls
/// establish; the conclusion is that the second call left every document
/// exactly as the first left it.
pub proof fn lemma_reconcile_idempotent(
    store0: DocumentStore,
    store1: DocumentStore,
    store2: DocumentStore,
    cache0: Seq<(String, FsSchema)>,
    cache1: Seq<(String, FsSchema)>,
    fs_root_id: Seq<char>,
    schema: FsSchemaModel,
)
    requires
        match schema.root {
            Some(e) => entry_has_no_mounts(e),
            None => true,
        },
        spec_reconcile_triples(store0, cache0, fs_root_id, schema) is Ok,
        forall|id: Seq<char>|
            store0.contains(id) ==> store1.spec_get(id) == store0.spec_get(id),
        forall|id: Seq<char>|
            !store0.contains(id) ==> spec_created(
                store1,
                spec_reconcile_triples(store0, cache0, fs_root_id, schema).unwrap(),
                id,
            ),
        forall|id: Seq<char>|
            store1.contains(id) ==> store2.spec_get(id) == store1.spec_get(id),
        forall|id: Seq<char>|
            !store1.contains(id) ==> spec_created(
                store2,
                spec_reconcile_triples(store1, cache1, fs_root_id, schema).unwrap(),
                id,
            ),
    ensures
        forall|id: Seq<char>| store2.spec_get(id) == store1.spec_get(id),
{
    match schema.root {
        Some(root) => {
            lemma_collect_entry_pure(
                store0,
                cache0,
                Set::empty(),
                store1,
                cache1,
                Set::empty(),
                fs_root_id,
                root,
                Seq::empty(),
            );
        },
        None => {},
    }
    let triples = spec_reconcile_triples(store0, cache0, fs_root_id, schema).unwrap();
    assert(spec_reconcile_triples(store1, cache1, fs_root_id, schema) == Ok::<_, ()>(triples));
    assert forall|id: Seq<char>| true implies store2.spec_get(id) == store1.spec_get(id) by {
        if store1.contains(id) {
        } else {
            if store0.contains(id) {
                assert(store1.spec_get(id) == store0.spec_get(id));
                assert(false);
            }
            assert(spec_created(store1, triples, id));
            match spec_first_ct(triples, id) {
                Some(ct) => {
                    assert(store1.contains(id));
                    assert(false);
                },
                None => {
                    assert(spec_created(store2, triples, id));
                    assert(!store2.contains(id));
                },
            }
        }
    }
}

/// Interprets the fs-root document as a filesystem schema and materializes
/// the documents it implies.
///
/// Reconciliation is non-destructive: it never deletes or changes an
/// existing document, and creates only fresh documents with default
/// content. Nested schemas read during a walk come from the cache state
/// the walk began with; the schemas validated during the walk are folded
/// into the cache afterwards.
pub struct FilesystemReconciler {
    /// The fs-root document id
    fs_root_id: String,
    /// Last successfully parsed top-level schema (kept on parse errors)
    last_valid_schema: Option<FsSchema>,
    /// Document ids this reconciler has seen materialized
    known_documents: Vec<String>,
    /// Last valid schema of each document-backed directory
    last_valid_node_schemas: Vec<(String, FsSchema)>,
}

impl FilesystemReconciler {
    /// The fs-root document id.
    pub closed spec fn spec_fs_root_id(&self) -> Seq<char> {
        self.fs_root_id@
    }

    /// The cached schemas of document-backed directories.
    pub closed spec fn cache_entries(&self) -> Seq<(String, FsSchema)> {
        self.last_valid_node_schemas@
    }

    /// Create a new reconciler for the given fs-root document.
    pub fn new(fs_root_id: String) -> (r: FilesystemReconciler)
        ensures
            r.spec_fs_root_id() == fs_root_id@,
            r.cache_entries() == Seq::<(String, FsSchema)>::empty(),
    {
        FilesystemReconciler {
            fs_root_id,
            last_valid_schema: None,
            known_documents: Vec::new(),
            last_valid_node_schemas: Vec::new(),
        }
    }

    /// Get the fs-root document ID.
    pub fn fs_root_id(&self) -> (r: &str)
        ensures
            r@ == self.spec_fs_root_id(),
    {
        self.fs_root_id.as_str()
    }

    /// Derive document ID from path: the fs-root id at the empty path, else
    /// `"<fs-root-id>:<path>"`.
    pub fn derive_doc_id(&self, path: &str) -> (r: String)
        ensures
            r@ == spec_derive_doc_id(self.spec_fs_root_id(), path@),
    {
        derive_doc_id_of(self.fs_root_id.as_str(), path)
    }

    /// Reconcile current state: parse the content as a schema, collect the
    /// entries it implies, and create every missing document.
    pub fn reconcile(&mut self, store: &mut DocumentStore, content: &str) -> (r: Result<
        (),
        FsError,
    >)
        requires
            old(store).wf(),
        ensures
            final(store).wf(),
            final(self).spec_fs_root_id() == old(self).spec_fs_root_id(),
            forall|id: Seq<char>|
                old(store).contains(id) ==> final(store).spec_get(id) == old(store).spec_get(id),
            r is Err ==> *final(store) == *old(store),
            match spec_parse_schema(content@) {
                None => r matches Err(e) && e is ParseError,
                Some(schema) => if schema.version != 1 {
                    r matches Err(e) && e matches FsError::UnsupportedVersion(v) && v
                        == schema.version
                } else if (match schema.root {
                    Some(e) => !(e is Dir),
                    None => false,
                }) {
                    r matches Err(e) && e is SchemaError
                } else {
                    match spec_reconcile_triples(
                        *old(store),
                        old(self).cache_entries(),
                        old(self).spec_fs_root_id(),
                        schema,
                    ) {
                        Err(()) => r matches Err(e) && e is SchemaError,
                        Ok(triples) => r is Ok && forall|id: Seq<char>|
                            !old(store).contains(id) ==> spec_created(*final(store), triples, id),
                    }
                },
            },
    {
        let ghost cache0 = self.last_valid_node_schemas@;
        let schema = match parse_schema(content) {
            Some(s) => s,
            None => {
                return Err(FsError::ParseError(String::from_str("malformed schema")));
            },
        };
        if schema.version != 1 {
            return Err(FsError::UnsupportedVersion(schema.version));
        }
        let root_bad = match &schema.root {
            Some(FsEntry::Dir { .. }) => false,
            Some(_) => true,
            None => false,
        };
        if root_bad {
            return Err(FsError::SchemaError(String::from_str("root must be a directory")));
        }
        let mut new_cache: Vec<(String, FsSchema)> = Vec::new();
        let mut doc_backed_dirs: Vec<String> = Vec::new();
        let mut recursion_stack: Vec<String> = Vec::new();
        let empty_path = String::new();
        proof {
            let f = |x: String| x@;
            assert(Seq::<String>::empty().map_values(f) =~= Seq::<Seq<char>>::empty());
            assert(str_set(Seq::<String>::empty()) =~= Set::<Seq<char>>::empty());
        }
        let collected = match &schema.root {
            None => {
                let out: Vec<(String, String, ContentType)> = Vec::new();
                proof {
                    assert(triples_view(out@) =~= Seq::<
                        (Seq<char>, Seq<char>, ContentType),
                    >::empty());
                }
                Ok(out)
            },
            Some(root) => collect_entries_with_dirs(
                store,
                &self.last_valid_node_schemas,
                &mut new_cache,
                &self.fs_root_id,
                root,
                &empty_path,
                &mut doc_backed_dirs,
                &mut recursion_stack,
            ),
        };
        // fold the schemas validated during the walk into the cache
        let mut ci: usize = 0;
        while ci < new_cache.len()
            invariant
                ci <= new_cache@.len(),
                self.fs_root_id@ == old(self).spec_fs_root_id(),
            decreases new_cache@.len() - ci,
        {
            let entry_id = new_cache[ci].0.clone();
            let mut k: usize = 0;
            let mut found = false;
            while k < self.last_valid_node_schemas.len() && !found
                invariant
                    k <= self.last_valid_node_schemas@.len(),
                    self.fs_root_id@ == old(self).spec_fs_root_id(),
                decreases self.last_valid_node_schemas@.len() - k,
            {
                if crate::text::str_eq(
                    self.last_valid_node_schemas[k].0.as_str(),
                    entry_id.as_str(),
                ) {
                    self.last_valid_node_schemas.remove(k);
                    found = true;
                } else {
                    k = k + 1;
                }
            }
            let moved = new_cache.remove(ci);
            self.last_valid_node_schemas.push(moved);
        }
        let triples = match collected {
            Ok(t) => t,
            Err(e) => {
                return Err(e);
            },
        };
        let ghost tv = triples_view(triples@);
        proof {
            assert(tv.subrange(0, tv.len() as int) =~= tv);
        }
        let mut k: usize = 0;
        while k < triples.len()
            invariant
                k <= triples@.len(),
                tv == triples_view(triples@),
                tv.len() == triples@.len(),
                self.fs_root_id@ == old(self).spec_fs_root_id(),
                store.wf(),
                forall|id: Seq<char>|
                    old(store).contains(id) ==> store.spec_get(id) == old(store).spec_get(id),
                forall|id: Seq<char>|
                    !old(store).contains(id) ==> spec_created(
                        *store,
                        tv.take(k as int),
                        id,
                    ),
            decreases triples@.len() - k,
        {
            let ghost tvk = tv.take(k as int);
            let doc_id = &triples[k].1;
            let ct = triples[k].2;
            let ghost before = *store;
            store.get_or_create_with_id(doc_id.as_str(), ct);
            if !contains_str(&self.known_documents, doc_id.as_str()) {
                self.known_documents.push(doc_id.clone());
            }
            proof {
                assert(tv.take(k as int + 1) =~= tvk.push(tv[k as int]));
                assert(tv[k as int] == (triples@[k as int].0@, doc_id@, ct));
                assert forall|id: Seq<char>| !old(store).contains(id) implies spec_created(
                    *store,
                    tv.take(k as int + 1),
                    id,
                ) by {
                    lemma_first_ct_push(tvk, tv[k as int], id);
                }
            }
            k = k + 1;
        }
        proof {
            assert(tv.take(tv.len() as int) =~= tv);
        }
        self.last_valid_schema = Some(schema);
        Ok(())
    }
}

}
