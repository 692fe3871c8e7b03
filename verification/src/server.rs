//! What the library says to a language server and how it reads the answers.
//!
//! The process itself (spawning, pipes, timeouts) belongs to the program;
//! the parameters of each call, the capability checks and the unwrapping of
//! call-hierarchy answers are decided here.

use crate::error::{Error, Result};
use crate::json::{field, field_of, lemma_member_at, member, object1, string_value, JsonNumber, JsonValue};
use crate::symbols::Position;
use crate::text::push_str;
use vstd::prelude::*;

verus! {

/// Does the server advertise capability `name`: present, and neither
/// `false` nor `null`?
pub open spec fn advertises(caps: JsonValue, name: Seq<char>) -> bool {
    match field_of(field(caps, "capabilities"@), name) {
        Some(v) => !(v matches JsonValue::Bool(b) && !b) && !(v is Null),
        None => false,
    }
}

/// Whether the `initialize` answer `caps` advertises capability `name`.
pub fn supports(caps: &JsonValue, name: &str) -> (r: bool)
    ensures
        r == advertises(*caps, name@),
{
    let c = match caps.get("capabilities") {
        Some(c) => c,
        None => {
            return false;
        },
    };
    match c.get(name) {
        Some(v) => {
            let is_false = match v {
                JsonValue::Bool(b) => !*b,
                _ => false,
            };
            !is_false && !v.is_null()
        },
        None => false,
    }
}

/// Whether the server answers `workspace/symbol`.
pub fn supports_workspace_symbol(caps: &JsonValue) -> (r: bool)
    ensures
        r == advertises(*caps, "workspaceSymbolProvider"@),
{
    supports(caps, "workspaceSymbolProvider")
}

/// A server is only usable if it advertises `callHierarchyProvider`.
pub fn check_call_hierarchy(server: &str, caps: &JsonValue) -> (r: Result<()>)
    ensures
        r is Ok <==> advertises(*caps, "callHierarchyProvider"@),
        r matches Err(e) ==> (e matches Error::NoCallHierarchy { server: s } && s@ == server@),
{
    if supports(caps, "callHierarchyProvider") {
        Ok(())
    } else {
        let mut s = String::new();
        push_str(&mut s, server);
        Err(Error::NoCallHierarchy { server: s })
    }
}

/// The endpoints of an `incomingCalls` (`field` = `"from"`) or
/// `outgoingCalls` (`"to"`) answer, in order; entries without one are
/// skipped, and anything but an array has none.
pub open spec fn endpoints_of(entries: Seq<JsonValue>, key: Seq<char>) -> Seq<JsonValue>
    decreases entries.len(),
{
    if entries.len() == 0 {
        Seq::empty()
    } else {
        endpoints_of(entries.drop_last(), key) + match field(entries.last(), key) {
            Some(x) => seq![x],
            None => Seq::empty(),
        }
    }
}

/// Does call entry `e` carry field `key`?
pub open spec fn has_field(key: Seq<char>) -> spec_fn(JsonValue) -> bool {
    |e: JsonValue| field(e, key) is Some
}

/// The value of field `key` of call entry `e`.
pub open spec fn field_value(key: Seq<char>) -> spec_fn(JsonValue) -> JsonValue {
    |e: JsonValue| field(e, key)->Some_0
}

/// The endpoints are the `key` fields of exactly the entries that carry
/// one, in order: one endpoint for each such entry, so as many endpoints as
/// entries carrying the field.
pub proof fn lemma_endpoints_are_every_carried_field(entries: Seq<JsonValue>, key: Seq<char>)
    ensures
        endpoints_of(entries, key) == entries.filter(has_field(key)).map_values(field_value(key)),
        endpoints_of(entries, key).len() == entries.filter(has_field(key)).len(),
    decreases entries.len(),
{
    reveal(Seq::filter);
    if entries.len() > 0 {
        let init = entries.drop_last();
        let l = entries.last();
        lemma_endpoints_are_every_carried_field(init, key);
        let f = init.filter(has_field(key));
        if has_field(key)(l) {
            assert(f.push(l).map_values(field_value(key)) =~= f.map_values(field_value(key)) + seq![
                field(l, key)->Some_0,
            ]);
            assert(f + seq![l] =~= f.push(l));
        } else {
            assert(f + Seq::<JsonValue>::empty() =~= f);
            assert(endpoints_of(init, key) + Seq::<JsonValue>::empty() =~= endpoints_of(init, key));
        }
    }
}

/// Each entry contributes its endpoint on its own: the endpoints of two runs
/// of entries are the endpoints of each, one after the other.
pub proof fn lemma_endpoints_concat(a: Seq<JsonValue>, b: Seq<JsonValue>, key: Seq<char>)
    ensures
        endpoints_of(a + b, key) == endpoints_of(a, key) + endpoints_of(b, key),
    decreases b.len(),
{
    if b.len() == 0 {
        assert(a + b =~= a);
        assert(endpoints_of(a, key) + Seq::<JsonValue>::empty() =~= endpoints_of(a, key));
    } else {
        lemma_endpoints_concat(a, b.drop_last(), key);
        assert((a + b).drop_last() =~= a + b.drop_last());
        assert((a + b).last() == b.last());
    }
}

pub open spec fn call_endpoints_of(v: JsonValue, key: Seq<char>) -> Seq<JsonValue> {
    match v {
        JsonValue::Array(a) => endpoints_of(a@, key),
        _ => Seq::empty(),
    }
}

/// Pull the `from`/`to` endpoint out of incoming/outgoing call wrappers.
pub fn call_endpoints<'a>(v: &'a JsonValue, key: &str) -> (r: Vec<&'a JsonValue>)
    ensures
        r@.len() == call_endpoints_of(*v, key@).len(),
        forall|i: int| 0 <= i < r@.len() ==> *r@[i] == #[trigger] call_endpoints_of(*v, key@)[i],
{
    let mut out: Vec<&'a JsonValue> = Vec::new();
    let arr = match v.as_array() {
        Some(a) => a,
        None => {
            return out;
        },
    };
    let mut i: usize = 0;
    while i < arr.len()
        invariant
            i <= arr@.len(),
            out@.len() == endpoints_of(arr@.take(i as int), key@).len(),
            forall|j: int| 0 <= j < out@.len() ==> *out@[j] == #[trigger] endpoints_of(arr@.take(i as int), key@)[j],
        decreases arr.len() - i,
    {
        proof {
            assert(arr@.take(i + 1).drop_last() =~= arr@.take(i as int));
            assert(arr@.take(i + 1).last() == arr@[i as int]);
        }
        match arr[i].get(key) {
            Some(x) => out.push(x),
            None => {},
        }
        i = i + 1;
    }
    proof {
        assert(arr@.take(i as int) =~= arr@);
    }
    out
}

fn bool_json(b: bool) -> (r: JsonValue)
    ensures
        r == JsonValue::Bool(b),
{
    JsonValue::Bool(b)
}

/// The parameters of `initialize`: the client's process id, the workspace
/// root (as `rootUri` and as the one workspace folder, named `root`), and
/// the capabilities the client relies on: work-done progress, call
/// hierarchy without dynamic registration, hierarchical document symbols,
/// and workspace folders.
pub fn initialize_params(process_id: u32, root_uri: &str) -> (r: JsonValue)
    ensures
        field(r, "processId"@) == Some(JsonValue::Number(JsonNumber::PosInt(process_id as u64))),
        field(r, "rootUri"@) matches Some(JsonValue::String(u)) && u@ == root_uri@,
        field(r, "workspaceFolders"@) matches Some(JsonValue::Array(f)) && f@.len() == 1 && (field(
            f@[0],
            "uri"@,
        ) matches Some(JsonValue::String(u)) && u@ == root_uri@) && (field(f@[0], "name"@) matches Some(
            JsonValue::String(n),
        ) && n@ == "root"@),
        field_of(field_of(field(r, "capabilities"@), "window"@), "workDoneProgress"@) == Some(
            JsonValue::Bool(true),
        ),
        field_of(
            field_of(field_of(field(r, "capabilities"@), "textDocument"@), "callHierarchy"@),
            "dynamicRegistration"@,
        ) == Some(JsonValue::Bool(false)),
        field_of(
            field_of(field_of(field(r, "capabilities"@), "textDocument"@), "documentSymbol"@),
            "hierarchicalDocumentSymbolSupport"@,
        ) == Some(JsonValue::Bool(true)),
        field_of(field_of(field(r, "capabilities"@), "workspace"@), "workspaceFolders"@) == Some(
            JsonValue::Bool(true),
        ),
{
    let mut folder: Vec<(String, JsonValue)> = Vec::new();
    folder.push(member("uri", string_value(root_uri)));
    folder.push(member("name", string_value("root")));
    let mut folders: Vec<JsonValue> = Vec::new();
    folders.push(JsonValue::Object(folder));

    let mut text_document: Vec<(String, JsonValue)> = Vec::new();
    text_document.push(member("callHierarchy", object1("dynamicRegistration", bool_json(false))));
    text_document.push(
        member("documentSymbol", object1("hierarchicalDocumentSymbolSupport", bool_json(true))),
    );

    let mut caps: Vec<(String, JsonValue)> = Vec::new();
    caps.push(member("window", object1("workDoneProgress", bool_json(true))));
    caps.push(member("textDocument", JsonValue::Object(text_document)));
    caps.push(member("workspace", object1("workspaceFolders", bool_json(true))));

    let mut m: Vec<(String, JsonValue)> = Vec::new();
    m.push(member("processId", JsonValue::Number(JsonNumber::PosInt(process_id as u64))));
    m.push(member("rootUri", string_value(root_uri)));
    m.push(member("workspaceFolders", JsonValue::Array(folders)));
    m.push(member("capabilities", JsonValue::Object(caps)));
    let r = JsonValue::Object(m);
    proof {
        reveal_strlit("processId");
        reveal_strlit("rootUri");
        reveal_strlit("workspaceFolders");
        reveal_strlit("capabilities");
        reveal_strlit("uri");
        reveal_strlit("name");
        reveal_strlit("window");
        reveal_strlit("textDocument");
        reveal_strlit("workspace");
        reveal_strlit("callHierarchy");
        reveal_strlit("documentSymbol");
        assert(m@[0].0@ == "processId"@);
        assert(m@[1].0@ == "rootUri"@);
        assert(m@[2].0@ == "workspaceFolders"@);
        assert(m@[3].0@ == "capabilities"@);
        assert(folders@[0]->Object_0@[0].0@ == "uri"@);
        assert(folders@[0]->Object_0@[1].0@ == "name"@);
        assert(caps@[0].0@ == "window"@);
        assert(caps@[1].0@ == "textDocument"@);
        assert(caps@[2].0@ == "workspace"@);
        assert(text_document@[0].0@ == "callHierarchy"@);
        assert(text_document@[1].0@ == "documentSymbol"@);
        lemma_member_at(m@, "rootUri"@, 1, 0);
        lemma_member_at(m@, "workspaceFolders"@, 2, 0);
        lemma_member_at(m@, "capabilities"@, 3, 0);
        lemma_member_at(folders@[0]->Object_0@, "name"@, 1, 0);
        lemma_member_at(caps@, "textDocument"@, 1, 0);
        lemma_member_at(caps@, "workspace"@, 2, 0);
        lemma_member_at(text_document@, "documentSymbol"@, 1, 0);
    }
    r
}

/// `{"textDocument": {"uri": uri}}`.
pub fn text_document_params(uri: &str) -> (r: JsonValue)
    ensures
        field_of(field(r, "textDocument"@), "uri"@) matches Some(JsonValue::String(u)) && u@ == uri@,
{
    object1("textDocument", object1("uri", string_value(uri)))
}

/// The JSON form of a position.
pub fn position_json(pos: Position) -> (r: JsonValue)
    ensures
        field(r, "line"@) == Some(JsonValue::Number(JsonNumber::PosInt(pos.line as u64))),
        field(r, "character"@) == Some(JsonValue::Number(JsonNumber::PosInt(pos.character as u64))),
{
    let mut m: Vec<(String, JsonValue)> = Vec::new();
    m.push(member("line", JsonValue::Number(JsonNumber::PosInt(pos.line as u64))));
    m.push(member("character", JsonValue::Number(JsonNumber::PosInt(pos.character as u64))));
    proof {
        reveal_strlit("line");
        reveal_strlit("character");
        assert(m@[0].0@ == "line"@);
        assert(m@[1].0@ == "character"@);
        lemma_member_at(m@, "character"@, 1, 0);
    }
    JsonValue::Object(m)
}

/// The parameters of `prepareCallHierarchy`: a document and a position in it.
pub fn position_params(uri: &str, pos: Position) -> (r: JsonValue)
    ensures
        field_of(field(r, "textDocument"@), "uri"@) matches Some(JsonValue::String(u)) && u@ == uri@,
        field_of(field(r, "position"@), "line"@) == Some(
            JsonValue::Number(JsonNumber::PosInt(pos.line as u64)),
        ),
        field_of(field(r, "position"@), "character"@) == Some(
            JsonValue::Number(JsonNumber::PosInt(pos.character as u64)),
        ),
{
    let mut m: Vec<(String, JsonValue)> = Vec::new();
    m.push(member("textDocument", object1("uri", string_value(uri))));
    m.push(member("position", position_json(pos)));
    proof {
        reveal_strlit("textDocument");
        reveal_strlit("position");
        assert(m@[0].0@ == "textDocument"@);
        assert(m@[1].0@ == "position"@);
        lemma_member_at(m@, "position"@, 1, 0);
    }
    JsonValue::Object(m)
}

/// The parameters of `didOpen`: the document, its language, version 1, and
/// its text.
pub fn did_open_params(uri: &str, language_id: &str, text: &str) -> (r: JsonValue)
    ensures
        field_of(field(r, "textDocument"@), "uri"@) matches Some(JsonValue::String(u)) && u@ == uri@,
        field_of(field(r, "textDocument"@), "languageId"@) matches Some(JsonValue::String(l)) && l@
            == language_id@,
        field_of(field(r, "textDocument"@), "version"@) == Some(JsonValue::Number(JsonNumber::PosInt(1))),
        field_of(field(r, "textDocument"@), "text"@) matches Some(JsonValue::String(t)) && t@ == text@,
{
    let mut d: Vec<(String, JsonValue)> = Vec::new();
    d.push(member("uri", string_value(uri)));
    d.push(member("languageId", string_value(language_id)));
    d.push(member("version", JsonValue::Number(JsonNumber::PosInt(1))));
    d.push(member("text", string_value(text)));
    proof {
        reveal_strlit("uri");
        reveal_strlit("languageId");
        reveal_strlit("version");
        reveal_strlit("text");
        assert(d@[0].0@ == "uri"@);
        assert(d@[1].0@ == "languageId"@);
        assert(d@[2].0@ == "version"@);
        assert(d@[3].0@ == "text"@);
        lemma_member_at(d@, "languageId"@, 1, 0);
        lemma_member_at(d@, "version"@, 2, 0);
        lemma_member_at(d@, "text"@, 3, 0);
    }
    object1("textDocument", JsonValue::Object(d))
}

/// The parameters of `incomingCalls`/`outgoingCalls`: the item asked about.
pub fn item_params(item: JsonValue) -> (r: JsonValue)
    ensures
        field(r, "item"@) == Some(item),
{
    object1("item", item)
}

/// The parameters of `workspace/symbol`: the query.
pub fn workspace_symbol_params(query: &str) -> (r: JsonValue)
    ensures
        field(r, "query"@) matches Some(JsonValue::String(q)) && q@ == query@,
{
    object1("query", string_value(query))
}

} // verus!
