use vstd::prelude::*;

verus! {

/// serde_json's number, carried through this crate's model unread.
#[verifier::external_type_specification]
#[verifier::external_body]
pub struct ExJsonNumber(serde_json::Number);

/// serde_json's document type, which the parsing and rendering below go
/// through.
#[verifier::external_type_specification]
#[verifier::external_body]
pub struct ExJsonDocument(serde_json::Value);

/// A JSON document, as the Notion API returns it. Numbers are carried as
/// serde_json holds them; nothing here reads them.
pub enum JsonValue {
    Null,
    Bool(bool),
    Number(serde_json::Number),
    String(String),
    Array(Vec<JsonValue>),
    Object(Vec<(String, JsonValue)>),
}

/// The value of the first member called `key` among the entries.
pub open spec fn entries_get(entries: Seq<(String, JsonValue)>, key: Seq<char>) -> Option<JsonValue>
    decreases entries.len(),
{
    if entries.len() == 0 {
        None
    } else if entries[0].0@ == key {
        Some(entries[0].1)
    } else {
        entries_get(entries.drop_first(), key)
    }
}

/// The member `key` of an object; `None` for anything else.
pub open spec fn json_get(v: JsonValue, key: Seq<char>) -> Option<JsonValue> {
    match v {
        JsonValue::Object(entries) => entries_get(entries@, key),
        _ => None,
    }
}

/// The element at `i` of an array; `None` for anything else.
pub open spec fn json_at(v: JsonValue, i: int) -> Option<JsonValue> {
    match v {
        JsonValue::Array(items) => if 0 <= i < items@.len() {
            Some(items@[i])
        } else {
            None
        },
        _ => None,
    }
}

/// The text of a string; `None` for anything else.
pub open spec fn json_str(v: JsonValue) -> Option<Seq<char>> {
    match v {
        JsonValue::String(s) => Some(s@),
        _ => None,
    }
}

impl JsonValue {
    /// The member `key` of an object, where it is one and has that member.
    pub fn get(&self, key: &str) -> (r: Option<&JsonValue>)
        ensures
            match r {
                Some(v) => json_get(*self, key@) == Some(*v),
                None => json_get(*self, key@) is None,
            },
    {
        match self {
            JsonValue::Object(entries) => {
                let wanted = key.to_owned();
                let n = entries.len();
                let mut i: usize = 0;
                assert(entries@.skip(0) =~= entries@);
                while i < n
                    invariant
                        *self == JsonValue::Object(*entries),
                        n == entries@.len(),
                        i <= n,
                        wanted@ == key@,
                        entries_get(entries@, key@) == entries_get(entries@.skip(i as int), key@),
                    decreases n - i,
                {
                    assert(entries@.skip(i as int).drop_first() =~= entries@.skip(i + 1));
                    assert(entries@.skip(i as int)[0] == entries@[i as int]);
                    if entries[i].0 == wanted {
                        return Some(&entries[i].1);
                    }
                    i = i + 1;
                }
                assert(entries@.skip(n as int).len() == 0);
                None
            },
            _ => None,
        }
    }

    /// The element at `i` of an array, where it is one and long enough.
    pub fn at(&self, i: usize) -> (r: Option<&JsonValue>)
        ensures
            match r {
                Some(v) => json_at(*self, i as int) == Some(*v),
                None => json_at(*self, i as int) is None,
            },
    {
        match self {
            JsonValue::Array(items) => if i < items.len() {
                Some(&items[i])
            } else {
                None
            },
            _ => None,
        }
    }

    /// The text of a string.
    pub fn as_str(&self) -> (r: Option<&String>)
        ensures
            match r {
                Some(s) => json_str(*self) == Some(s@),
                None => json_str(*self) is None,
            },
    {
        match self {
            JsonValue::String(s) => Some(s),
            _ => None,
        }
    }
}

/// Looking a key up among an object's entries gives the value of the first
/// entry with that key, whatever entries come before it; nothing exactly
/// when no entry has the key.
pub proof fn law_entries_get_first_match(entries: Seq<(String, JsonValue)>, key: Seq<char>)
    ensures
        entries_get(entries, key) is None <==> forall|i: int|
            0 <= i < entries.len() ==> (#[trigger] entries[i]).0@ != key,
        forall|i: int|
            0 <= i < entries.len() && (#[trigger] entries[i]).0@ == key && (forall|j: int|
                0 <= j < i ==> entries[j].0@ != key) ==> entries_get(entries, key) == Some(
                entries[i].1,
            ),
    decreases entries.len(),
{
    if entries.len() > 0 {
        let rest = entries.drop_first();
        law_entries_get_first_match(rest, key);
        if entries[0].0@ != key {
            assert forall|i: int|
                0 <= i < entries.len() && (#[trigger] entries[i]).0@ == key && (forall|j: int|
                    0 <= j < i ==> entries[j].0@ != key) implies entries_get(entries, key) == Some(
                entries[i].1,
            ) by {
                assert(rest[i - 1] == entries[i]);
                assert forall|j: int| 0 <= j < i - 1 implies rest[j].0@ != key by {
                    assert(rest[j] == entries[j + 1]);
                }
            }
            if entries_get(entries, key) is None {
                assert forall|i: int| 0 <= i < entries.len() implies (#[trigger] entries[i]).0@
                    != key by {
                    if i > 0 {
                        assert(rest[i - 1] == entries[i]);
                    }
                }
            } else {
                let k = choose|k: int| 0 <= k < rest.len() && (#[trigger] rest[k]).0@ == key;
                assert(entries[k + 1] == rest[k]);
            }
        }
    }
}

/// The document holds no number anywhere.
pub open spec fn number_free(v: JsonValue) -> bool
    decreases v,
{
    match v {
        JsonValue::Number(_) => false,
        JsonValue::Array(items) => forall|i: int|
            0 <= i < items@.len() ==> number_free(#[trigger] items@[i]),
        JsonValue::Object(entries) => forall|i: int|
            0 <= i < entries@.len() ==> number_free(#[trigger] entries@[i].1),
        _ => true,
    }
}

/// The document that `serde_json::from_str` reads from `text`, in this
/// crate's model; `None` where `text` is not JSON.
pub uninterp spec fn json_of_text(text: Seq<char>) -> Option<JsonValue>;

/// The compact text that serde_json writes for a document (its `Display`).
pub uninterp spec fn json_compact(v: JsonValue) -> Seq<char>;

/// The document that `serde_json::from_slice` reads from the bytes `body`,
/// in this crate's model; `None` where `body` is not JSON.
pub uninterp spec fn json_of_bytes(body: Seq<u8>) -> Option<JsonValue>;

/// The indented text that serde_json's pretty writer (`to_writer_pretty`,
/// which both `to_string_pretty` and the `{:#}` format use) writes for a
/// document.
pub uninterp spec fn json_pretty(v: JsonValue) -> Seq<char>;

/// serde_json's document as this crate's model, variant for variant.
#[verifier::external_body]
fn json_from_document(v: serde_json::Value) -> JsonValue {
    match v {
        serde_json::Value::Null => JsonValue::Null,
        serde_json::Value::Bool(b) => JsonValue::Bool(b),
        serde_json::Value::Number(n) => JsonValue::Number(n),
        serde_json::Value::String(s) => JsonValue::String(s),
        serde_json::Value::Array(a) => JsonValue::Array(a.into_iter().map(json_from_document).collect()),
        serde_json::Value::Object(m) => JsonValue::Object(
            m.into_iter().map(|(k, v)| (k, json_from_document(v))).collect(),
        ),
    }
}

/// This crate's model of a document as serde_json's, variant for variant.
#[verifier::external_body]
fn json_document(v: &JsonValue) -> serde_json::Value {
    match v {
        JsonValue::Null => serde_json::Value::Null,
        JsonValue::Bool(b) => serde_json::Value::Bool(*b),
        JsonValue::Number(n) => serde_json::Value::Number(n.clone()),
        JsonValue::String(s) => serde_json::Value::String(s.clone()),
        JsonValue::Array(a) => serde_json::Value::Array(a.iter().map(json_document).collect()),
        JsonValue::Object(m) => serde_json::Value::Object(
            m.iter().map(|(k, v)| (k.clone(), json_document(v))).collect(),
        ),
    }
}

/// Reads JSON text with `serde_json::from_str`. The contract claims that the
/// result is the document that serde_json reads, named `json_of_text`, and
/// that a document so read that holds no number reads back from its compact
/// and its indented text unchanged: serde_json's map keeps its keys sorted
/// and unique, its writers escape every string so that its reader gives it
/// back, and the nesting stays within the depth that was just read. Numbers
/// are left out, as serde_json's float reader does not promise to give back
/// the very float that was written.
#[verifier::external_body]
pub(crate) fn parse_json(text: &str) -> (r: Option<JsonValue>)
    ensures
        r == json_of_text(text@),
        match r {
            Some(v) => number_free(v) ==> json_of_text(json_compact(v)) == Some(v) && json_of_text(
                json_pretty(v),
            ) == Some(v),
            None => true,
        },
{
    serde_json::from_str::<serde_json::Value>(text).ok().map(json_from_document)
}

/// Reads JSON from raw bytes with `serde_json::from_slice`, as reqwest's
/// `Response::json` does. The contract claims that the result is the
/// document that serde_json reads, named `json_of_bytes`, and, as for
/// `parse_json`, that a document so read that holds no number reads back
/// from its compact and its indented text unchanged.
#[verifier::external_body]
pub(crate) fn parse_json_bytes(body: &[u8]) -> (r: Option<JsonValue>)
    ensures
        r == json_of_bytes(body@),
        match r {
            Some(v) => number_free(v) ==> json_of_text(json_compact(v)) == Some(v) && json_of_text(
                json_pretty(v),
            ) == Some(v),
            None => true,
        },
{
    serde_json::from_slice::<serde_json::Value>(body).ok().map(json_from_document)
}

/// Writes a document as compact JSON text, through serde_json's `Display`.
/// The contract claims only that the text is the one named `json_compact`.
#[verifier::external_body]
pub(crate) fn render_compact(v: &JsonValue) -> (s: String)
    ensures
        s@ == json_compact(*v),
{
    json_document(v).to_string()
}

/// Writes a document as indented JSON text with serde_json's pretty writer,
/// through the `{:#}` format of its `Display`. Writing a document never fails
/// (its map keys are always strings); the contract claims only that the text
/// is the one named `json_pretty`.
#[verifier::external_body]
pub(crate) fn render_pretty(v: &JsonValue) -> (s: String)
    ensures
        s@ == json_pretty(*v),
{
    format!("{:#}", json_document(v))
}

} // verus!
