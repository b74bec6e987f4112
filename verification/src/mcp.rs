//! The MCP server's decisions: which reply a JSON-RPC message gets, which
//! scan a tool call asks for, and the reply once the scan is done. Reading
//! and writing the stream, resolving paths on disk and scanning are done
//! by the caller between these steps.
use vstd::prelude::*;

use crate::json::{field, text, text_field, view_jsons, Json, JsonView, ObjBuilder, view_fields};
use crate::lang::{all_aliases, Lang};
use crate::model::{view_results, FileResult};
use crate::scan::query::{find_entity_in, found_entity_in, locate, located, summarize, summary_json};
use crate::scan::render::{results_json, results_to_json};
use crate::text::{
    before_first, before_first_exec, chars_of, concat2, contains, contains_exec, owned, split_on,
    split_on_exec, str_eq, string_from_chars, trim, trimmed,
};

verus! {

/// The protocol versions this server speaks.
pub open spec fn supported_versions() -> Seq<Seq<char>> {
    seq!["2024-11-05"@]
}

/// The version offered when the client asks for one this server does not
/// speak.
pub open spec fn default_version() -> Seq<char> {
    "2024-11-05"@
}

/// The version the server answers with: the client's, when supported.
pub open spec fn negotiated(msg: JsonView) -> Seq<char> {
    let client = match field(msg, "params"@) {
        Some(p) => match text_field(p, "protocolVersion"@) {
            Some(v) => v,
            None => Seq::empty(),
        },
        None => Seq::empty(),
    };
    if supported_versions().contains(client) {
        client
    } else {
        default_version()
    }
}

/// The protocol version to answer an `initialize` with.
pub fn negotiate_version(msg: &Json) -> (r: &'static str)
    ensures
        r@ == negotiated(msg@),
{
    let client = match msg.get("params") {
        Some(p) => match p.text_field("protocolVersion") {
            Some(v) => v,
            None => String::new(),
        },
        None => String::new(),
    };
    let supported = vec!["2024-11-05"];
    assert(supported@.map_values(|s: &str| s@) =~= supported_versions());
    let mut i: usize = 0;
    while i < supported.len()
        invariant
            i <= supported@.len(),
            supported@.map_values(|s: &str| s@) == supported_versions(),
            forall|k: int| 0 <= k < i ==> supported_versions()[k] != client@,
        decreases supported.len() - i,
    {
        assert(supported@.map_values(|s: &str| s@)[i as int] == supported@[i as int]@);
        if str_eq(supported[i], client.as_str()) {
            assert(supported_versions()[i as int] == client@);
            assert(supported_versions().contains(client@));
            return supported[i];
        }
        i += 1;
    }
    assert(!supported_versions().contains(client@));
    "2024-11-05"
}

// ── Paths ────────────────────────────────────────────────────────────────────

/// Whether a path climbs to a parent directory: one of its `/`-separated
/// components is `..`.
pub open spec fn climbs(path: Seq<char>) -> bool {
    split_on(path, "/"@).contains(".."@)
}

/// Whether a path has a `..` component.
pub fn has_traversal(path_str: &str) -> (r: bool)
    ensures
        r == climbs(path_str@),
{
    proof {
        reveal_strlit("/");
    }
    let parts = split_on_exec(&chars_of(path_str), &chars_of("/"));
    let ghost ps = split_on(path_str@, "/"@);
    let up = chars_of("..");
    let mut i: usize = 0;
    while i < parts.len()
        invariant
            i <= parts@.len(),
            ps == split_on(path_str@, "/"@),
            parts@.len() == ps.len(),
            up@ == ".."@,
            forall|k: int| 0 <= k < parts@.len() ==> (#[trigger] parts@[k])@ == ps[k],
            forall|k: int| 0 <= k < i ==> ps[k] != ".."@,
        decreases parts.len() - i,
    {
        if crate::text::seq_eq(&parts[i], &up) {
            assert(ps[i as int] == ".."@);
            assert(ps.contains(".."@));
            return true;
        }
        i += 1;
    }
    assert(!ps.contains(".."@));
    false
}

/// Refuses a path that climbs to a parent directory; resolving it on disk
/// is the caller's.
pub fn validate_mcp_path(path_str: &str) -> (r: Result<(), String>)
    ensures
        r is Ok <==> !climbs(path_str@),
        r matches Err(e) ==> e@ == "path traversal not allowed"@,
{
    if has_traversal(path_str) {
        Err(owned("path traversal not allowed"))
    } else {
        Ok(())
    }
}

// ── Replies ──────────────────────────────────────────────────────────────────

/// A JSON-RPC error reply.
pub open spec fn error_json(id: JsonView, code: i64, message: Seq<char>) -> JsonView {
    JsonView::Obj(
        seq![
            ("jsonrpc"@, JsonView::Str("2.0"@)),
            ("id"@, id),
            ("error"@, JsonView::Obj(seq![("code"@, JsonView::Int(code)), ("message"@, JsonView::Str(message))])),
        ],
    )
}

/// A JSON-RPC result reply.
pub open spec fn result_json(id: JsonView, result: JsonView) -> JsonView {
    JsonView::Obj(seq![("jsonrpc"@, JsonView::Str("2.0"@)), ("id"@, id), ("result"@, result)])
}

/// A tool's reply: its output as one text item.
pub open spec fn text_json(id: JsonView, t: Seq<char>) -> JsonView {
    result_json(
        id,
        JsonView::Obj(
            seq![
                (
                    "content"@,
                    JsonView::Arr(
                        seq![JsonView::Obj(seq![("type"@, JsonView::Str("text"@)), ("text"@, JsonView::Str(t))])],
                    ),
                ),
            ],
        ),
    )
}

/// A JSON-RPC error reply.
pub fn error_reply(id: &Json, code: i64, message: &str) -> (j: Json)
    ensures
        j@ == error_json(id@, code, message@),
{
    let mut e = ObjBuilder::new();
    e.field("code", Json::Int(code));
    e.field("message", text(message));
    assert(view_fields(e.fields@) =~= seq![("code"@, JsonView::Int(code)), ("message"@, JsonView::Str(message@))]);
    let mut b = ObjBuilder::new();
    b.field("jsonrpc", text("2.0"));
    b.field("id", id.copy());
    b.field("error", e.build());
    assert(view_fields(b.fields@) =~= match error_json(id@, code, message@) {
        JsonView::Obj(fs) => fs,
        _ => Seq::empty(),
    });
    b.build()
}

/// A JSON-RPC result reply.
pub fn result_reply(id: &Json, result: Json) -> (j: Json)
    ensures
        j@ == result_json(id@, result@),
{
    let mut b = ObjBuilder::new();
    b.field("jsonrpc", text("2.0"));
    b.field("id", id.copy());
    b.field("result", result);
    assert(view_fields(b.fields@) =~= seq![("jsonrpc"@, JsonView::Str("2.0"@)), ("id"@, id@), ("result"@, result@)]);
    b.build()
}

/// A tool's reply carrying its output text.
pub fn text_reply(id: &Json, t: &str) -> (j: Json)
    ensures
        j@ == text_json(id@, t@),
{
    let mut item = ObjBuilder::new();
    item.field("type", text("text"));
    item.field("text", text(t));
    assert(view_fields(item.fields@) =~= seq![("type"@, JsonView::Str("text"@)), ("text"@, JsonView::Str(t@))]);
    let mut content: Vec<Json> = Vec::new();
    content.push(item.build());
    assert(view_jsons(content@) =~= seq![JsonView::Obj(seq![("type"@, JsonView::Str("text"@)), ("text"@, JsonView::Str(t@))])]) by {
        crate::json::lemma_view_jsons_push(Seq::empty(), content@[0]);
        assert(content@ =~= Seq::<Json>::empty().push(content@[0]));
    }
    let mut r = ObjBuilder::new();
    r.field("content", Json::Arr(content));
    assert(view_fields(r.fields@) =~= seq![("content"@, JsonView::Arr(view_jsons(content@)))]);
    result_reply(id, r.build())
}

/// The reply to a tool whose output could not be written as text.
pub fn internal_error_reply(id: &Json, detail: &str) -> (j: Json)
    ensures
        j@ == error_json(id@, -32603i64, "internal error: "@ + detail@),
{
    error_reply(id, -32603, concat2("internal error: ", detail).as_str())
}

/// The reply to a tool whose path does not resolve on disk.
pub fn invalid_path_reply(id: &Json, detail: &str) -> (j: Json)
    ensures
        j@ == error_json(id@, -32602i64, "invalid path: "@ + detail@),
{
    error_reply(id, -32602, concat2("invalid path: ", detail).as_str())
}

// ── Tool definitions ─────────────────────────────────────────────────────────

/// The texts joined with `sep` between them.
pub open spec fn joined(parts: Seq<Seq<char>>, sep: Seq<char>) -> Seq<char>
    decreases parts.len(),
{
    if parts.len() == 0 {
        Seq::empty()
    } else if parts.len() == 1 {
        parts[0]
    } else {
        joined(parts.drop_last(), sep) + sep + parts.last()
    }
}

/// The description of the `lang` argument: every alias of every language.
pub open spec fn lang_desc() -> Seq<char> {
    "Comma-separated language filter: "@ + joined(all_aliases(), ", "@)
}

/// The description of the `lang` argument, listing every language alias in
/// registry order.
pub fn lang_filter_description() -> (r: String)
    ensures
        r@ == lang_desc(),
{
    let mut v = chars_of("Comma-separated language filter: ");
    let langs = crate::lang::languages();
    let mut first = true;
    let ghost mut done: Seq<Seq<char>> = Seq::empty();
    let mut i: usize = 0;
    while i < langs.len()
        invariant
            i <= 4,
            langs@ == crate::lang::registry(),
            first == (done.len() == 0),
            done == if i == 0 {
                Seq::<Seq<char>>::empty()
            } else if i == 1 {
                crate::lang::aliases_of(Lang::C)
            } else if i == 2 {
                crate::lang::aliases_of(Lang::C) + crate::lang::aliases_of(Lang::Cpp)
            } else if i == 3 {
                crate::lang::aliases_of(Lang::C) + crate::lang::aliases_of(Lang::Cpp) + crate::lang::aliases_of(Lang::Qml)
            } else {
                all_aliases()
            },
            v@ == "Comma-separated language filter: "@ + joined(done, ", "@),
        decreases langs.len() - i,
    {
        let aliases = langs[i].aliases();
        let mut j: usize = 0;
        let ghost before = done;
        while j < aliases.len()
            invariant
                j <= aliases@.len(),
                first == (done.len() == 0),
                done == before + aliases@.map_values(|a: &str| a@).take(j as int),
                v@ == "Comma-separated language filter: "@ + joined(done, ", "@),
            decreases aliases.len() - j,
        {
            let ghost prev = done;
            if !first {
                crate::text::append_str(&mut v, ", ");
            }
            crate::text::append_str(&mut v, aliases[j]);
            proof {
                done = done.push(aliases@[j as int]@);
                assert(done.drop_last() =~= prev);
                assert(done == before + aliases@.map_values(|a: &str| a@).take(j + 1)) by {
                    assert(aliases@.map_values(|a: &str| a@).take(j + 1) =~= aliases@.map_values(|a: &str| a@).take(j as int).push(aliases@[j as int]@));
                }
                if prev.len() == 0 {
                    assert(done =~= seq![aliases@[j as int]@]);
                }
            }
            first = false;
            j += 1;
        }
        proof {
            assert(aliases@.map_values(|a: &str| a@).take(aliases@.len() as int) =~= aliases@.map_values(|a: &str| a@));
            assert(langs@[i as int] == crate::lang::registry()[i as int]);
            if i == 0 {
                assert(done =~= crate::lang::aliases_of(Lang::C));
            } else if i == 1 {
                assert(done =~= crate::lang::aliases_of(Lang::C) + crate::lang::aliases_of(Lang::Cpp));
            } else if i == 2 {
                assert(done =~= crate::lang::aliases_of(Lang::C) + crate::lang::aliases_of(Lang::Cpp) + crate::lang::aliases_of(Lang::Qml));
            } else {
                assert(done =~= all_aliases());
            }
        }
        i += 1;
    }
    string_from_chars(&v)
}

/// One property of an input schema.
pub open spec fn prop_json(ty: Seq<char>, description: Seq<char>) -> JsonView {
    JsonView::Obj(seq![("type"@, JsonView::Str(ty)), ("description"@, JsonView::Str(description))])
}

fn prop(ty: &str, description: &str) -> (j: Json)
    ensures
        j@ == prop_json(ty@, description@),
{
    let mut b = ObjBuilder::new();
    b.field("type", text(ty));
    b.field("description", text(description));
    assert(view_fields(b.fields@) =~= seq![("type"@, JsonView::Str(ty@)), ("description"@, JsonView::Str(description@))]);
    b.build()
}

/// A boolean property of an input schema, with its default.
pub open spec fn flag_json(description: Seq<char>, default: bool) -> JsonView {
    JsonView::Obj(
        seq![
            ("type"@, JsonView::Str("boolean"@)),
            ("description"@, JsonView::Str(description)),
            ("default"@, JsonView::Bool(default)),
        ],
    )
}

fn flag(description: &str, default: bool) -> (j: Json)
    ensures
        j@ == flag_json(description@, default),
{
    let mut b = ObjBuilder::new();
    b.field("type", text("boolean"));
    b.field("description", text(description));
    b.field("default", Json::Bool(default));
    assert(view_fields(b.fields@) =~= seq![
        ("type"@, JsonView::Str("boolean"@)),
        ("description"@, JsonView::Str(description@)),
        ("default"@, JsonView::Bool(default)),
    ]);
    b.build()
}

/// A tool definition: name, description and an object schema with the
/// given properties and required arguments.
pub open spec fn tool_json(
    name: Seq<char>,
    description: Seq<char>,
    properties: Seq<(Seq<char>, JsonView)>,
    required: Seq<Seq<char>>,
) -> JsonView {
    JsonView::Obj(
        seq![
            ("name"@, JsonView::Str(name)),
            ("description"@, JsonView::Str(description)),
            (
                "inputSchema"@,
                JsonView::Obj(
                    seq![
                        ("type"@, JsonView::Str("object"@)),
                        ("properties"@, JsonView::Obj(properties)),
                        ("required"@, JsonView::Arr(required.map_values(|r: Seq<char>| JsonView::Str(r)))),
                    ],
                ),
            ),
        ],
    )
}

fn tool(name: &str, description: &str, properties: Vec<(String, Json)>, required: Vec<&str>) -> (j: Json)
    ensures
        j@ == tool_json(name@, description@, view_fields(properties@), required@.map_values(|r: &str| r@)),
{
    let mut req: Vec<Json> = Vec::new();
    let mut i: usize = 0;
    while i < required.len()
        invariant
            i <= required@.len(),
            view_jsons(req@) == required@.map_values(|r: &str| r@).take(i as int).map_values(
                |r: Seq<char>| JsonView::Str(r),
            ),
        decreases required.len() - i,
    {
        let x = text(required[i]);
        proof {
            crate::json::lemma_view_jsons_push(req@, x);
        }
        req.push(x);
        assert(view_jsons(req@) =~= required@.map_values(|r: &str| r@).take(i + 1).map_values(
            |r: Seq<char>| JsonView::Str(r),
        ));
        i += 1;
    }
    assert(required@.map_values(|r: &str| r@).take(required@.len() as int) =~= required@.map_values(|r: &str| r@));
    let mut schema = ObjBuilder::new();
    schema.field("type", text("object"));
    let ghost pv = view_fields(properties@);
    schema.field("properties", Json::Obj(properties));
    schema.field("required", Json::Arr(req));
    let ghost sv = view_fields(schema.fields@);
    let mut b = ObjBuilder::new();
    b.field("name", text(name));
    b.field("description", text(description));
    b.field("inputSchema", schema.build());
    assert(view_fields(b.fields@) =~= match tool_json(name@, description@, pv, required@.map_values(|r: &str| r@)) {
        JsonView::Obj(fs) => fs,
        _ => Seq::empty(),
    }) by {
        assert(sv =~= seq![
            ("type"@, JsonView::Str("object"@)),
            ("properties"@, JsonView::Obj(pv)),
            ("required"@, JsonView::Arr(required@.map_values(|r: &str| r@).map_values(|r: Seq<char>| JsonView::Str(r)))),
        ]);
    }
    b.build()
}

/// The `scan` tool.
pub open spec fn scan_def() -> JsonView {
    tool_json(
        "scan"@,
        "Scan a directory or file and return a structured entity index — functions, methods, classes, structs, traits, enums, namespaces — with LOC and line numbers. Use this to navigate code or detect refactor opportunities without reading raw source files."@,
        seq![
            ("path"@, prop_json("string"@, "Directory or file path to scan"@)),
            ("lang"@, prop_json("string"@, lang_desc())),
            ("match"@, prop_json("string"@, "Case-insensitive substring filter on entity name; parents with matching children are preserved"@)),
            ("max_depth"@, prop_json("integer"@, "Hard depth ceiling: 0 = file headers only, 1 = root entities, 2 = roots + direct children"@)),
            ("ignore"@, prop_json("string"@, "Comma-separated directory names to skip (e.g. \"target,node_modules\")"@)),
            ("info"@, prop_json("string"@, "Entity info filter: \"all\" (default), \"no-tests\" (exclude test modules), \"tests-only\" (show only test modules)"@)),
            ("no_gitignore"@, flag_json("Include files git is told to ignore. Default `false`: inside a git repository, ignored files and directories are hidden"@, false)),
        ],
        seq!["path"@],
    )
}

/// The definition of the `scan` tool.
pub fn scan_tool_def() -> (j: Json)
    ensures
        j@ == scan_def(),
{
    let mut props = ObjBuilder::new();
    props.field("path", prop("string", "Directory or file path to scan"));
    props.field("lang", prop("string", lang_filter_description().as_str()));
    props.field("match", prop("string", "Case-insensitive substring filter on entity name; parents with matching children are preserved"));
    props.field("max_depth", prop("integer", "Hard depth ceiling: 0 = file headers only, 1 = root entities, 2 = roots + direct children"));
    props.field("ignore", prop("string", "Comma-separated directory names to skip (e.g. \"target,node_modules\")"));
    props.field("info", prop("string", "Entity info filter: \"all\" (default), \"no-tests\" (exclude test modules), \"tests-only\" (show only test modules)"));
    props.field("no_gitignore", flag("Include files git is told to ignore. Default `false`: inside a git repository, ignored files and directories are hidden", false));
    let required = vec!["path"];
    assert(required@.map_values(|r: &str| r@) =~= seq!["path"@]);
    let ghost pv = view_fields(props.fields@);
    let j = tool(
        "scan",
        "Scan a directory or file and return a structured entity index — functions, methods, classes, structs, traits, enums, namespaces — with LOC and line numbers. Use this to navigate code or detect refactor opportunities without reading raw source files.",
        props.fields,
        required,
    );
    assert(pv =~= seq![
        ("path"@, prop_json("string"@, "Directory or file path to scan"@)),
        ("lang"@, prop_json("string"@, lang_desc())),
        ("match"@, prop_json("string"@, "Case-insensitive substring filter on entity name; parents with matching children are preserved"@)),
        ("max_depth"@, prop_json("integer"@, "Hard depth ceiling: 0 = file headers only, 1 = root entities, 2 = roots + direct children"@)),
        ("ignore"@, prop_json("string"@, "Comma-separated directory names to skip (e.g. \"target,node_modules\")"@)),
        ("info"@, prop_json("string"@, "Entity info filter: \"all\" (default), \"no-tests\" (exclude test modules), \"tests-only\" (show only test modules)"@)),
        ("no_gitignore"@, flag_json("Include files git is told to ignore. Default `false`: inside a git repository, ignored files and directories are hidden"@, false)),
    ]);
    j
}

/// The `entity` tool.
pub open spec fn entity_def() -> JsonView {
    tool_json(
        "entity"@,
        "Look up a single entity by its entity_path and return its full JSON record (name, type, LOC, line range, children). Scans only the file referenced in the entity_path."@,
        seq![
            ("entity_path"@, prop_json("string"@, "Full entity path as produced by the scan tool, e.g. \"src/main.rs > impl Foo > bar\""@)),
        ],
        seq!["entity_path"@],
    )
}

/// The definition of the `entity` tool.
pub fn entity_tool_def() -> (j: Json)
    ensures
        j@ == entity_def(),
{
    let mut props = ObjBuilder::new();
    props.field("entity_path", prop("string", "Full entity path as produced by the scan tool, e.g. \"src/main.rs > impl Foo > bar\""));
    let required = vec!["entity_path"];
    assert(required@.map_values(|r: &str| r@) =~= seq!["entity_path"@]);
    let ghost pv = view_fields(props.fields@);
    let j = tool(
        "entity",
        "Look up a single entity by its entity_path and return its full JSON record (name, type, LOC, line range, children). Scans only the file referenced in the entity_path.",
        props.fields,
        required,
    );
    assert(pv =~= seq![
        ("entity_path"@, prop_json("string"@, "Full entity path as produced by the scan tool, e.g. \"src/main.rs > impl Foo > bar\""@)),
    ]);
    j
}

/// The `locate` tool.
pub open spec fn locate_def() -> JsonView {
    tool_json(
        "locate"@,
        "Search for an entity by name across a directory and return all matches with their entity_path and exact line numbers. Use this when you know the entity name but not which file it lives in."@,
        seq![
            ("name"@, prop_json("string"@, "Entity name to search for (case-insensitive)"@)),
            ("path"@, prop_json("string"@, "Directory or file path to search in"@)),
            ("lang"@, prop_json("string"@, lang_desc())),
        ],
        seq!["name"@, "path"@],
    )
}

/// The definition of the `locate` tool.
pub fn locate_tool_def() -> (j: Json)
    ensures
        j@ == locate_def(),
{
    let mut props = ObjBuilder::new();
    props.field("name", prop("string", "Entity name to search for (case-insensitive)"));
    props.field("path", prop("string", "Directory or file path to search in"));
    props.field("lang", prop("string", lang_filter_description().as_str()));
    let required = vec!["name", "path"];
    assert(required@.map_values(|r: &str| r@) =~= seq!["name"@, "path"@]);
    let ghost pv = view_fields(props.fields@);
    let j = tool(
        "locate",
        "Search for an entity by name across a directory and return all matches with their entity_path and exact line numbers. Use this when you know the entity name but not which file it lives in.",
        props.fields,
        required,
    );
    assert(pv =~= seq![
        ("name"@, prop_json("string"@, "Entity name to search for (case-insensitive)"@)),
        ("path"@, prop_json("string"@, "Directory or file path to search in"@)),
        ("lang"@, prop_json("string"@, lang_desc())),
    ]);
    j
}

/// The `summary` tool.
pub open spec fn summary_def() -> JsonView {
    tool_json(
        "summary"@,
        "Return aggregate counts for a path: total files, LOC, and entities, broken down by language and entity type."@,
        seq![
            ("path"@, prop_json("string"@, "Directory or file path to scan"@)),
            ("lang"@, prop_json("string"@, lang_desc())),
        ],
        seq!["path"@],
    )
}

/// The definition of the `summary` tool.
pub fn summary_tool_def() -> (j: Json)
    ensures
        j@ == summary_def(),
{
    let mut props = ObjBuilder::new();
    props.field("path", prop("string", "Directory or file path to scan"));
    props.field("lang", prop("string", lang_filter_description().as_str()));
    let required = vec!["path"];
    assert(required@.map_values(|r: &str| r@) =~= seq!["path"@]);
    let ghost pv = view_fields(props.fields@);
    let j = tool(
        "summary",
        "Return aggregate counts for a path: total files, LOC, and entities, broken down by language and entity type.",
        props.fields,
        required,
    );
    assert(pv =~= seq![
        ("path"@, prop_json("string"@, "Directory or file path to scan"@)),
        ("lang"@, prop_json("string"@, lang_desc())),
    ]);
    j
}

// ── Requests ─────────────────────────────────────────────────────────────────

/// A scan a tool asks for, with the arguments it was given.
pub enum Tool {
    Scan {
        path: String,
        lang: Vec<String>,
        pattern: String,
        max_depth: Option<usize>,
        ignore: Vec<String>,
        info: String,
        no_gitignore: bool,
    },
    Entity { entity_path: String, file_path: String },
    Summary { path: String, lang: Vec<String> },
    Locate { name: String, path: String, lang: Vec<String> },
}

/// The mathematical value of a `Tool`.
pub enum ToolView {
    Scan {
        path: Seq<char>,
        lang: Seq<Seq<char>>,
        pattern: Seq<char>,
        max_depth: Option<usize>,
        ignore: Seq<Seq<char>>,
        info: Seq<char>,
        no_gitignore: bool,
    },
    Entity { entity_path: Seq<char>, file_path: Seq<char> },
    Summary { path: Seq<char>, lang: Seq<Seq<char>> },
    Locate { name: Seq<char>, path: Seq<char>, lang: Seq<Seq<char>> },
}

impl View for Tool {
    type V = ToolView;

    open spec fn view(&self) -> ToolView {
        match self {
            Tool::Scan { path, lang, pattern, max_depth, ignore, info, no_gitignore } => ToolView::Scan {
                path: path@,
                lang: crate::model::view_strings(lang@),
                pattern: pattern@,
                max_depth: *max_depth,
                ignore: crate::model::view_strings(ignore@),
                info: info@,
                no_gitignore: *no_gitignore,
            },
            Tool::Entity { entity_path, file_path } => ToolView::Entity {
                entity_path: entity_path@,
                file_path: file_path@,
            },
            Tool::Summary { path, lang } => ToolView::Summary {
                path: path@,
                lang: crate::model::view_strings(lang@),
            },
            Tool::Locate { name, path, lang } => ToolView::Locate {
                name: name@,
                path: path@,
                lang: crate::model::view_strings(lang@),
            },
        }
    }
}

/// What a message asks of the server.
pub enum Step {
    /// A notification: nothing is answered.
    Silent,
    /// The reply, decided without touching the disk.
    Reply(Json),
    /// A tool call: the path must be resolved and scanned first.
    Run { id: Json, tool: Tool },
}

/// The mathematical value of a `Step`.
pub enum StepView {
    Silent,
    Reply(JsonView),
    Run { id: JsonView, tool: ToolView },
}

impl View for Step {
    type V = StepView;

    open spec fn view(&self) -> StepView {
        match self {
            Step::Silent => StepView::Silent,
            Step::Reply(j) => StepView::Reply(j@),
            Step::Run { id, tool } => StepView::Run { id: id@, tool: tool@ },
        }
    }
}

/// A comma-separated argument, each part trimmed; none when absent.
pub open spec fn list_arg(args: JsonView, key: Seq<char>) -> Seq<Seq<char>> {
    match text_field(args, key) {
        Some(t) => split_on(t, ","@).map_values(|x: Seq<char>| trim(x)),
        None => Seq::empty(),
    }
}

/// A text argument, or `d` when absent.
pub open spec fn text_or(args: JsonView, key: Seq<char>, d: Seq<char>) -> Seq<char> {
    match text_field(args, key) {
        Some(t) => t,
        None => d,
    }
}

/// A non-negative integer argument.
pub open spec fn num_arg(args: JsonView, key: Seq<char>) -> Option<usize> {
    match field(args, key) {
        Some(JsonView::Num(n)) => Some(n),
        _ => None,
    }
}

/// A boolean argument, false when absent or not a boolean.
pub open spec fn bool_arg(args: JsonView, key: Seq<char>) -> bool {
    match field(args, key) {
        Some(JsonView::Bool(b)) => b,
        _ => false,
    }
}

fn bool_arg_of(args: &Json, key: &str) -> (r: bool)
    ensures
        r == bool_arg(args@, key@),
{
    match args.get(key) {
        Some(Json::Bool(b)) => *b,
        _ => false,
    }
}

fn list_arg_of(args: &Json, key: &str) -> (r: Vec<String>)
    ensures
        crate::model::view_strings(r@) == list_arg(args@, key@),
{
    match args.text_field(key) {
        Some(t) => {
            proof {
                reveal_strlit(",");
            }
            let parts = split_on_exec(&chars_of(t.as_str()), &chars_of(","));
            let ghost ps = split_on(t@, ","@);
            let mut out: Vec<String> = Vec::new();
            let mut i: usize = 0;
            while i < parts.len()
                invariant
                    i <= parts@.len(),
                    parts@.len() == ps.len(),
                    forall|k: int| 0 <= k < parts@.len() ==> (#[trigger] parts@[k])@ == ps[k],
                    crate::model::view_strings(out@) == ps.map_values(|x: Seq<char>| trim(x)).take(i as int),
                decreases parts.len() - i,
            {
                let x = string_from_chars(&trimmed(&parts[i]));
                assert(x@ == trim(ps[i as int]));
                let ghost before = out@;
                out.push(x);
                assert(crate::model::view_strings(out@) =~= crate::model::view_strings(before).push(x@));
                assert(ps.map_values(|x: Seq<char>| trim(x)).take(i + 1) =~= ps.map_values(|x: Seq<char>| trim(x)).take(i as int).push(trim(ps[i as int])));
                assert(crate::model::view_strings(out@) =~= ps.map_values(|x: Seq<char>| trim(x)).take(i + 1));
                i += 1;
            }
            assert(ps.map_values(|x: Seq<char>| trim(x)).take(ps.len() as int) =~= ps.map_values(
                |x: Seq<char>| trim(x),
            ));
            out
        },
        None => {
            let out: Vec<String> = Vec::new();
            assert(crate::model::view_strings(out@) =~= Seq::<Seq<char>>::empty());
            out
        },
    }
}

fn text_or_of(args: &Json, key: &str, d: &str) -> (r: String)
    ensures
        r@ == text_or(args@, key@, d@),
{
    match args.text_field(key) {
        Some(t) => t,
        None => owned(d),
    }
}

fn num_arg_of(args: &Json, key: &str) -> (r: Option<usize>)
    ensures
        r == num_arg(args@, key@),
{
    match args.get(key) {
        Some(v) => v.as_num(),
        None => None,
    }
}

/// A refusal of a tool call's arguments.
pub open spec fn bad_args(id: JsonView, message: Seq<char>) -> StepView {
    StepView::Reply(error_json(id, -32602i64, message))
}

/// What a `scan` call asks for.
pub open spec fn scan_step(id: JsonView, args: JsonView) -> StepView {
    match text_field(args, "path"@) {
        None => bad_args(id, "Missing required argument: path"@),
        Some(path) => if climbs(path) {
            bad_args(id, "path traversal not allowed"@)
        } else {
            StepView::Run {
                id,
                tool: ToolView::Scan {
                    path,
                    lang: list_arg(args, "lang"@),
                    pattern: text_or(args, "match"@, Seq::empty()),
                    max_depth: num_arg(args, "max_depth"@),
                    ignore: list_arg(args, "ignore"@),
                    info: text_or(args, "info"@, "all"@),
                    no_gitignore: bool_arg(args, "no_gitignore"@),
                },
            }
        },
    }
}

/// Checks a `scan` call's arguments.
pub fn handle_scan(id: Json, args: &Json) -> (r: Step)
    ensures
        r@ == scan_step(id@, args@),
{
    let path = match args.text_field("path") {
        Some(p) => p,
        None => return Step::Reply(error_reply(&id, -32602, "Missing required argument: path")),
    };
    match validate_mcp_path(path.as_str()) {
        Err(e) => return Step::Reply(error_reply(&id, -32602, e.as_str())),
        Ok(()) => {},
    }
    proof {
        reveal_strlit("");
    }
    let tool = Tool::Scan {
        path,
        lang: list_arg_of(args, "lang"),
        pattern: text_or_of(args, "match", ""),
        max_depth: num_arg_of(args, "max_depth"),
        ignore: list_arg_of(args, "ignore"),
        info: text_or_of(args, "info", "all"),
        no_gitignore: bool_arg_of(args, "no_gitignore"),
    };
    assert(""@ =~= Seq::<char>::empty());
    Step::Run { id, tool }
}

/// What an `entity` call asks for: only the file named before the first
/// ` > ` is scanned.
pub open spec fn entity_step(id: JsonView, args: JsonView) -> StepView {
    match text_field(args, "entity_path"@) {
        None => bad_args(id, "Missing required argument: entity_path"@),
        Some(ep) => if !contains(ep, " > "@) {
            bad_args(id, "entity_path must contain at least one ' > ' separator"@)
        } else if climbs(before_first(ep, " > "@)) {
            bad_args(id, "path traversal not allowed"@)
        } else {
            StepView::Run { id, tool: ToolView::Entity { entity_path: ep, file_path: before_first(ep, " > "@) } }
        },
    }
}

/// Checks an `entity` call's arguments.
pub fn handle_entity(id: Json, args: &Json) -> (r: Step)
    ensures
        r@ == entity_step(id@, args@),
{
    let ep = match args.text_field("entity_path") {
        Some(p) => p,
        None => return Step::Reply(error_reply(&id, -32602, "Missing required argument: entity_path")),
    };
    let cs = chars_of(ep.as_str());
    let sep = chars_of(" > ");
    if !contains_exec(&cs, &sep) {
        return Step::Reply(error_reply(&id, -32602, "entity_path must contain at least one ' > ' separator"));
    }
    let file_path = string_from_chars(&before_first_exec(&cs, &sep));
    match validate_mcp_path(file_path.as_str()) {
        Err(e) => return Step::Reply(error_reply(&id, -32602, e.as_str())),
        Ok(()) => {},
    }
    Step::Run { id, tool: Tool::Entity { entity_path: ep, file_path } }
}

/// What a `summary` call asks for.
pub open spec fn summary_step(id: JsonView, args: JsonView) -> StepView {
    match text_field(args, "path"@) {
        None => bad_args(id, "Missing required argument: path"@),
        Some(path) => if climbs(path) {
            bad_args(id, "path traversal not allowed"@)
        } else {
            StepView::Run { id, tool: ToolView::Summary { path, lang: list_arg(args, "lang"@) } }
        },
    }
}

/// Checks a `summary` call's arguments.
pub fn handle_summary(id: Json, args: &Json) -> (r: Step)
    ensures
        r@ == summary_step(id@, args@),
{
    let path = match args.text_field("path") {
        Some(p) => p,
        None => return Step::Reply(error_reply(&id, -32602, "Missing required argument: path")),
    };
    match validate_mcp_path(path.as_str()) {
        Err(e) => return Step::Reply(error_reply(&id, -32602, e.as_str())),
        Ok(()) => {},
    }
    Step::Run { id, tool: Tool::Summary { path, lang: list_arg_of(args, "lang") } }
}

/// What a `locate` call asks for.
pub open spec fn locate_step(id: JsonView, args: JsonView) -> StepView {
    match text_field(args, "name"@) {
        None => bad_args(id, "Missing required argument: name"@),
        Some(name) => match text_field(args, "path"@) {
            None => bad_args(id, "Missing required argument: path"@),
            Some(path) => if climbs(path) {
                bad_args(id, "path traversal not allowed"@)
            } else {
                StepView::Run { id, tool: ToolView::Locate { name, path, lang: list_arg(args, "lang"@) } }
            },
        },
    }
}

/// Checks a `locate` call's arguments.
pub fn handle_locate(id: Json, args: &Json) -> (r: Step)
    ensures
        r@ == locate_step(id@, args@),
{
    let name = match args.text_field("name") {
        Some(n) => n,
        None => return Step::Reply(error_reply(&id, -32602, "Missing required argument: name")),
    };
    let path = match args.text_field("path") {
        Some(p) => p,
        None => return Step::Reply(error_reply(&id, -32602, "Missing required argument: path")),
    };
    match validate_mcp_path(path.as_str()) {
        Err(e) => return Step::Reply(error_reply(&id, -32602, e.as_str())),
        Ok(()) => {},
    }
    Step::Run { id, tool: Tool::Locate { name, path, lang: list_arg_of(args, "lang") } }
}

/// The arguments of a tool call, or an empty object.
pub open spec fn call_args(msg: JsonView) -> JsonView {
    match field(msg, "params"@) {
        Some(p) => match field(p, "arguments"@) {
            Some(a) => a,
            None => JsonView::Obj(Seq::empty()),
        },
        None => JsonView::Obj(Seq::empty()),
    }
}

/// The tool a call names, or empty.
pub open spec fn call_name(msg: JsonView) -> Seq<char> {
    match field(msg, "params"@) {
        Some(p) => text_or(p, "name"@, Seq::empty()),
        None => Seq::empty(),
    }
}

/// What a `tools/call` asks for.
pub open spec fn tools_call_step(id: JsonView, msg: JsonView) -> StepView {
    let name = call_name(msg);
    let args = call_args(msg);
    if name == "scan"@ {
        scan_step(id, args)
    } else if name == "entity"@ {
        entity_step(id, args)
    } else if name == "summary"@ {
        summary_step(id, args)
    } else if name == "locate"@ {
        locate_step(id, args)
    } else {
        StepView::Reply(error_json(id, -32602i64, "Unknown tool: "@ + name))
    }
}

/// Routes a `tools/call` to its tool.
pub fn handle_tools_call(id: Json, msg: &Json) -> (r: Step)
    ensures
        r@ == tools_call_step(id@, msg@),
{
    proof {
        reveal_strlit("");
    }
    let (name, args) = match msg.get("params") {
        Some(p) => {
            let name = text_or_of(p, "name", "");
            let args = match p.get("arguments") {
                Some(a) => a.copy(),
                None => Json::Obj(Vec::new()),
            };
            (name, args)
        },
        None => (String::new(), Json::Obj(Vec::new())),
    };
    assert(""@ =~= Seq::<char>::empty());
    assert(view_fields(Seq::<(String, Json)>::empty()) =~= Seq::empty());
    assert(args@ == call_args(msg@));
    assert(name@ == call_name(msg@));
    if str_eq(name.as_str(), "scan") {
        handle_scan(id, &args)
    } else if str_eq(name.as_str(), "entity") {
        handle_entity(id, &args)
    } else if str_eq(name.as_str(), "summary") {
        handle_summary(id, &args)
    } else if str_eq(name.as_str(), "locate") {
        handle_locate(id, &args)
    } else {
        Step::Reply(error_reply(&id, -32602, concat2("Unknown tool: ", name.as_str()).as_str()))
    }
}

/// The answer to `initialize`.
pub open spec fn init_result(msg: JsonView, version: Seq<char>) -> JsonView {
    JsonView::Obj(
        seq![
            ("protocolVersion"@, JsonView::Str(negotiated(msg))),
            ("capabilities"@, JsonView::Obj(seq![("tools"@, JsonView::Obj(Seq::empty()))])),
            ("serverInfo"@, JsonView::Obj(seq![("name"@, JsonView::Str("code-seek"@)), ("version"@, JsonView::Str(version))])),
        ],
    )
}

/// What a request with an id asks for: the server's description, the tool
/// list, a tool call, or a refusal of an unknown method.
pub open spec fn dispatch_step(id: JsonView, msg: JsonView, version: Seq<char>) -> StepView {
    let method = text_or(msg, "method"@, Seq::empty());
    if method == "initialize"@ {
        StepView::Reply(result_json(id, init_result(msg, version)))
    } else if method == "tools/list"@ {
        StepView::Reply(
            result_json(id, JsonView::Obj(seq![("tools"@, JsonView::Arr(seq![scan_def(), entity_def(), summary_def(), locate_def()]))])),
        )
    } else if method == "tools/call"@ {
        tools_call_step(id, msg)
    } else {
        StepView::Reply(error_json(id, -32601i64, "Method not found"@))
    }
}

/// Decides what a request with an id gets. `version` is the server's.
pub fn dispatch(id: Json, msg: &Json, version: &str) -> (r: Step)
    ensures
        r@ == dispatch_step(id@, msg@, version@),
{
    proof {
        reveal_strlit("");
    }
    let method = text_or_of(msg, "method", "");
    assert(""@ =~= Seq::<char>::empty());
    if str_eq(method.as_str(), "initialize") {
        let mut caps = ObjBuilder::new();
        caps.field("tools", Json::Obj(Vec::new()));
        assert(view_fields(caps.fields@) =~= seq![("tools"@, JsonView::Obj(Seq::empty()))]) by {
            assert(view_fields(Seq::<(String, Json)>::empty()) =~= Seq::empty());
        }
        let mut info = ObjBuilder::new();
        info.field("name", text("code-seek"));
        info.field("version", text(version));
        assert(view_fields(info.fields@) =~= seq![("name"@, JsonView::Str("code-seek"@)), ("version"@, JsonView::Str(version@))]);
        let mut b = ObjBuilder::new();
        b.field("protocolVersion", text(negotiate_version(msg)));
        b.field("capabilities", caps.build());
        b.field("serverInfo", info.build());
        assert(view_fields(b.fields@) =~= match init_result(msg@, version@) {
            JsonView::Obj(fs) => fs,
            _ => Seq::empty(),
        });
        Step::Reply(result_reply(&id, b.build()))
    } else if str_eq(method.as_str(), "tools/list") {
        let mut tools: Vec<Json> = Vec::new();
        tools.push(scan_tool_def());
        tools.push(entity_tool_def());
        tools.push(summary_tool_def());
        tools.push(locate_tool_def());
        assert(view_jsons(tools@) =~= seq![scan_def(), entity_def(), summary_def(), locate_def()]) by {
            let t = tools@;
            assert(t =~= Seq::<Json>::empty().push(t[0]).push(t[1]).push(t[2]).push(t[3]));
            crate::json::lemma_view_jsons_push(Seq::empty(), t[0]);
            crate::json::lemma_view_jsons_push(seq![t[0]], t[1]);
            crate::json::lemma_view_jsons_push(seq![t[0], t[1]], t[2]);
            crate::json::lemma_view_jsons_push(seq![t[0], t[1], t[2]], t[3]);
            assert(seq![t[0]] =~= Seq::<Json>::empty().push(t[0]));
            assert(seq![t[0], t[1]] =~= seq![t[0]].push(t[1]));
            assert(seq![t[0], t[1], t[2]] =~= seq![t[0], t[1]].push(t[2]));
            assert(t =~= seq![t[0], t[1], t[2]].push(t[3]));
        }
        let mut b = ObjBuilder::new();
        b.field("tools", Json::Arr(tools));
        assert(view_fields(b.fields@) =~= seq![("tools"@, JsonView::Arr(seq![scan_def(), entity_def(), summary_def(), locate_def()]))]);
        Step::Reply(result_reply(&id, b.build()))
    } else if str_eq(method.as_str(), "tools/call") {
        handle_tools_call(id, msg)
    } else {
        Step::Reply(error_reply(&id, -32601, "Method not found"))
    }
}

/// What one message gets: nothing for a notification (no `id`), else
/// what `dispatch` decides.
pub open spec fn message_step(msg: JsonView, version: Seq<char>) -> StepView {
    match field(msg, "id"@) {
        None => StepView::Silent,
        Some(id) => dispatch_step(id, msg, version),
    }
}

/// A reply built by `result_json` or `error_json` is JSON-RPC 2.0 and
/// carries the id it was given.
proof fn lemma_reply_header(id: JsonView, result: JsonView, code: i64, message: Seq<char>)
    ensures
        field(result_json(id, result), "jsonrpc"@) == Some(JsonView::Str("2.0"@)),
        field(result_json(id, result), "id"@) == Some(id),
        field(error_json(id, code, message), "jsonrpc"@) == Some(JsonView::Str("2.0"@)),
        field(error_json(id, code, message), "id"@) == Some(id),
{
    reveal_strlit("jsonrpc");
    reveal_strlit("id");
    reveal_with_fuel(crate::json::field_of, 3);
    assert("jsonrpc"@ != "id"@) by {
        assert("jsonrpc"@.len() != "id"@.len());
    }
}

/// Whether a step answers the request with id `id`: a reply that is
/// JSON-RPC 2.0 under that id, or a tool run carrying it.
pub open spec fn answers(step: StepView, id: JsonView) -> bool {
    match step {
        StepView::Silent => false,
        StepView::Reply(r) => field(r, "jsonrpc"@) == Some(JsonView::Str("2.0"@)) && field(r, "id"@) == Some(id),
        StepView::Run { id: run_id, .. } => run_id == id,
    }
}

/// Every request is answered as JSON-RPC 2.0 under its own id (a tool call
/// that passed its checks carries the id to its reply), and a notification,
/// which has no id, gets no answer.
pub proof fn lemma_requests_are_answered_under_their_id(msg: JsonView, version: Seq<char>)
    ensures
        match field(msg, "id"@) {
            None => message_step(msg, version) is Silent,
            Some(id) => answers(message_step(msg, version), id),
        },
{
    match field(msg, "id"@) {
        None => {},
        Some(id) => {
            let args = call_args(msg);
            let nm = call_name(msg);
            lemma_reply_header(id, JsonView::Null, -32602i64, Seq::empty());
            lemma_reply_header(id, init_result(msg, version), -32601i64, "Method not found"@);
            lemma_reply_header(
                id,
                JsonView::Obj(seq![("tools"@, JsonView::Arr(seq![scan_def(), entity_def(), summary_def(), locate_def()]))]),
                -32602i64,
                "Unknown tool: "@ + nm,
            );
            lemma_reply_header(id, JsonView::Null, -32602i64, "path traversal not allowed"@);
            lemma_reply_header(id, JsonView::Null, -32602i64, "Missing required argument: path"@);
            lemma_reply_header(id, JsonView::Null, -32602i64, "Missing required argument: name"@);
            lemma_reply_header(id, JsonView::Null, -32602i64, "Missing required argument: entity_path"@);
            lemma_reply_header(id, JsonView::Null, -32602i64, "entity_path must contain at least one ' > ' separator"@);
        },
    }
}

/// Decides what one parsed message gets.
pub fn plan_message(msg: &Json, version: &str) -> (r: Step)
    ensures
        r@ == message_step(msg@, version@),
{
    match msg.get("id") {
        None => Step::Silent,
        Some(id) => dispatch(id.copy(), msg, version),
    }
}

// ── After the scan ───────────────────────────────────────────────────────────

/// The scan a tool asks for: language filter, name pattern, depth ceiling,
/// extra ignored directories, test-module selection, and whether git's
/// verdict hides ignored files.
pub struct ScanParams {
    pub lang: Vec<String>,
    pub pattern: String,
    pub max_depth: Option<usize>,
    pub ignore: Vec<String>,
    pub info: String,
    pub respect_gitignore: bool,
}

/// Whether a tool's scan hides what git ignores: always, but for a `scan`
/// given `no_gitignore`.
pub open spec fn respects_gitignore(t: ToolView) -> bool {
    match t {
        ToolView::Scan { no_gitignore, .. } => !no_gitignore,
        _ => true,
    }
}

/// The scan parameters of a tool: a `scan` passes its arguments; the
/// others scan with their language filter (if any) and no other filter.
pub open spec fn params_of(t: ToolView) -> (Seq<Seq<char>>, Seq<char>, Option<usize>, Seq<Seq<char>>, Seq<char>) {
    match t {
        ToolView::Scan { lang, pattern, max_depth, ignore, info, .. } => (lang, pattern, max_depth, ignore, info),
        ToolView::Entity { .. } => (Seq::empty(), Seq::empty(), None, Seq::empty(), "all"@),
        ToolView::Summary { lang, .. } => (lang, Seq::empty(), None, Seq::empty(), "all"@),
        ToolView::Locate { lang, .. } => (lang, Seq::empty(), None, Seq::empty(), "all"@),
    }
}

/// The path a tool scans.
pub open spec fn target_of(t: ToolView) -> Seq<char> {
    match t {
        ToolView::Scan { path, .. } => path,
        ToolView::Entity { file_path, .. } => file_path,
        ToolView::Summary { path, .. } => path,
        ToolView::Locate { path, .. } => path,
    }
}

impl Tool {
    /// The path to resolve and scan.
    pub fn target(&self) -> (r: &str)
        ensures
            r@ == target_of(self@),
    {
        match self {
            Tool::Scan { path, .. } => path.as_str(),
            Tool::Entity { file_path, .. } => file_path.as_str(),
            Tool::Summary { path, .. } => path.as_str(),
            Tool::Locate { path, .. } => path.as_str(),
        }
    }

    /// The scan to run.
    pub fn scan_params(&self) -> (p: ScanParams)
        ensures
            (crate::model::view_strings(p.lang@), p.pattern@, p.max_depth, crate::model::view_strings(p.ignore@), p.info@)
                == params_of(self@),
            p.respect_gitignore == respects_gitignore(self@),
    {
        proof {
            reveal_strlit("");
        }
        let none: Vec<String> = Vec::new();
        assert(crate::model::view_strings(none@) =~= Seq::<Seq<char>>::empty());
        assert(""@ =~= Seq::<char>::empty());
        match self {
            Tool::Scan { lang, pattern, max_depth, ignore, info, no_gitignore, .. } => ScanParams {
                lang: crate::model::copy_strings(lang),
                pattern: pattern.clone(),
                max_depth: *max_depth,
                ignore: crate::model::copy_strings(ignore),
                info: info.clone(),
                respect_gitignore: !*no_gitignore,
            },
            Tool::Entity { .. } => ScanParams {
                lang: none,
                pattern: String::new(),
                max_depth: None,
                ignore: Vec::new(),
                info: owned("all"),
                respect_gitignore: true,
            },
            Tool::Summary { lang, .. } => ScanParams {
                lang: crate::model::copy_strings(lang),
                pattern: String::new(),
                max_depth: None,
                ignore: Vec::new(),
                info: owned("all"),
                respect_gitignore: true,
            },
            Tool::Locate { lang, .. } => ScanParams {
                lang: crate::model::copy_strings(lang),
                pattern: String::new(),
                max_depth: None,
                ignore: Vec::new(),
                info: owned("all"),
                respect_gitignore: true,
            },
        }
    }
}

/// What a tool answers once its scan is done: the value to write out as
/// its text, or an error reply. An `entity` call looks its entity up in the
/// file that was resolved and scanned, so a relative file segment finds it.
pub open spec fn tool_outcome(
    id: JsonView,
    t: ToolView,
    rs: Seq<crate::model::FileView>,
    scan_path: Seq<char>,
    version: Seq<char>,
) -> Result<JsonView, JsonView> {
    match t {
        ToolView::Scan { .. } => Ok(results_json(rs, scan_path, version)),
        ToolView::Entity { entity_path, .. } => match found_entity_in(rs, scan_path, entity_path) {
            Some(v) => Ok(v),
            None => Err(error_json(id, -32000i64, "entity not found: "@ + entity_path)),
        },
        ToolView::Summary { .. } => Ok(summary_json(rs, scan_path)),
        ToolView::Locate { name, .. } => Ok(
            JsonView::Obj(seq![("name"@, JsonView::Str(name)), ("matches"@, JsonView::Arr(located(rs, name)))]),
        ),
    }
}

/// What a tool answers once its scan is done. `scan_path` is the resolved
/// path that was scanned.
pub fn tool_payload(id: &Json, tool: &Tool, results: &Vec<FileResult>, scan_path: &str, version: &str) -> (r: Result<Json, Json>)
    ensures
        match (r, tool_outcome(id@, tool@, view_results(results@), scan_path@, version@)) {
            (Ok(j), Ok(v)) => j@ == v,
            (Err(j), Err(v)) => j@ == v,
            _ => false,
        },
{
    match tool {
        Tool::Scan { .. } => Ok(results_to_json(results, scan_path, version)),
        Tool::Entity { entity_path, .. } => match find_entity_in(results, scan_path, entity_path.as_str()) {
            Some(v) => Ok(v),
            None => Err(error_reply(id, -32000, concat2("entity not found: ", entity_path.as_str()).as_str())),
        },
        Tool::Summary { .. } => Ok(summarize(results, scan_path)),
        Tool::Locate { name, .. } => {
            let matches = locate(results, name.as_str());
            let mut b = ObjBuilder::new();
            b.field("name", Json::Str(name.clone()));
            b.field("matches", Json::Arr(matches));
            assert(view_fields(b.fields@) =~= seq![("name"@, JsonView::Str(name@)), ("matches"@, JsonView::Arr(located(view_results(results@), name@)))]);
            Ok(b.build())
        },
    }
}

/// The reply to a tool call whose scan failed.
pub fn scan_failed_reply(id: &Json, message: &str) -> (j: Json)
    ensures
        j@ == error_json(id@, -32000i64, message@),
{
    error_reply(id, -32000, message)
}

} // verus!
