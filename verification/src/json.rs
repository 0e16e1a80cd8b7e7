//! A plain-value JSON tree and the trusted parse that produces it.
//!
//! The schema and config logic of this crate reads JSON through this type;
//! parsing itself is serde_json's work and stands behind a trusted wrapper.

use vstd::prelude::*;

verus! {

/// A parsed JSON document as plain values.
///
/// Numbers that fit an unsigned 64-bit integer are kept exactly (the only
/// numbers the schema and config logic reads); any other number is kept as
/// `OtherNum`.
#[derive(Debug)]
pub enum JsonValue {
    Null,
    Bool(bool),
    UInt(u64),
    OtherNum,
    Str(String),
    Array(Vec<JsonValue>),
    Object(Vec<(String, JsonValue)>),
}

#[verifier::external_type_specification]
#[verifier::external_body]
pub struct ExSerdeJsonValue(serde_json::Value);

/// What serde_json parses a text to, carried over into [`JsonValue`]:
/// a function of the text alone; `None` exactly on malformed input.
pub uninterp spec fn parsed_json(s: Seq<char>) -> Option<JsonValue>;

/// Conversion from serde_json's tree into the crate's own, variant by
/// variant, moving fields. Only `parse_json` reaches it.
#[verifier::external_body]
fn json_of_value(v: serde_json::Value) -> JsonValue {
    match v {
        serde_json::Value::Null => JsonValue::Null,
        serde_json::Value::Bool(b) => JsonValue::Bool(b),
        serde_json::Value::Number(n) => match n.as_u64() {
            Some(u) => JsonValue::UInt(u),
            None => JsonValue::OtherNum,
        },
        serde_json::Value::String(s) => JsonValue::Str(s),
        serde_json::Value::Array(a) => JsonValue::Array(
            a.into_iter().map(json_of_value).collect(),
        ),
        serde_json::Value::Object(m) => JsonValue::Object(
            m.into_iter().map(|(k, x)| (k, json_of_value(x))).collect(),
        ),
    }
}

/// Relies on serde_json::from_str::<serde_json::Value>: parses the text;
/// `None` on malformed JSON or on nesting beyond the parser's fixed
/// recursion limit. The result depends on the text alone.
#[verifier::external_body]
pub fn parse_json(s: &str) -> (r: Option<JsonValue>)
    ensures
        r == parsed_json(s@),
{
    match serde_json::from_str::<serde_json::Value>(s) {
        Ok(v) => Some(json_of_value(v)),
        Err(_) => None,
    }
}

impl JsonValue {
    /// The value of a field of an object, first match by key.
    pub open spec fn spec_field(fields: Seq<(String, JsonValue)>, key: Seq<char>) -> Option<
        JsonValue,
    >
        decreases fields.len(),
    {
        if fields.len() == 0 {
            None
        } else if fields[0].0@ == key {
            Some(fields[0].1)
        } else {
            JsonValue::spec_field(fields.drop_first(), key)
        }
    }

    /// A found field value is one of the object's field values.
    pub proof fn lemma_spec_field_witness(fields: Seq<(String, JsonValue)>, key: Seq<char>)
        ensures
            match JsonValue::spec_field(fields, key) {
                Some(v) => exists|i: int| 0 <= i < fields.len() && fields[i].1 == v,
                None => true,
            },
        decreases fields.len(),
    {
        match JsonValue::spec_field(fields, key) {
            Some(v) => {
                if fields[0].0@ == key {
                    assert(fields[0].1 == v);
                } else {
                    JsonValue::lemma_spec_field_witness(fields.drop_first(), key);
                    let i = choose|i: int|
                        0 <= i < fields.drop_first().len() && fields.drop_first()[i].1 == v;
                    assert(fields[i + 1].1 == v);
                }
            },
            None => {},
        }
    }

    /// Look up a field of an object by key; `None` on a non-object or a
    /// missing key.
    pub fn get<'a>(&'a self, key: &str) -> (r: Option<&'a JsonValue>)
        ensures
            match *self {
                JsonValue::Object(fields) => match JsonValue::spec_field(fields@, key@) {
                    Some(v) => r matches Some(rv) && *rv == v,
                    None => r is None,
                },
                _ => r is None,
            },
    {
        match self {
            JsonValue::Object(fields) => {
                let ghost all = fields@;
                proof {
                    assert(all.subrange(0, all.len() as int) =~= all);
                }
                let mut k: usize = 0;
                loop
                    invariant
                        k <= fields@.len(),
                        fields@ == all,
                        *self == JsonValue::Object(*fields),
                        JsonValue::spec_field(all, key@) == JsonValue::spec_field(
                            all.subrange(k as int, all.len() as int),
                            key@,
                        ),
                    decreases fields@.len() - k,
                {
                    if k >= fields.len() {
                        proof {
                            assert(all.subrange(k as int, all.len() as int) =~= Seq::empty());
                        }
                        return None;
                    }
                    let ghost rest = all.subrange(k as int, all.len() as int);
                    proof {
                        assert(rest[0] == all[k as int]);
                        assert(rest.drop_first() =~= all.subrange(k as int + 1, all.len() as int));
                    }
                    if crate::text::str_eq(fields[k].0.as_str(), key) {
                        proof {
                            assert(JsonValue::spec_field(rest, key@) == Some(rest[0].1));
                        }
                        return Some(&fields[k].1);
                    }
                    k = k + 1;
                }
            },
            _ => None,
        }
    }
}

}
