use code_seek::cache::Cache;
use code_seek::json::Json;
use code_seek::mcp::{
    has_traversal, lang_filter_description, negotiate_version, plan_message, scan_failed_reply, tool_payload,
    validate_mcp_path, Step, Tool,
};
use code_seek::model::{Entity, EntityType, FileResult};
use code_seek::scan::build_scan_results;

fn obj(fields: Vec<(&str, Json)>) -> Json {
    Json::Obj(fields.into_iter().map(|(k, v)| (k.to_string(), v)).collect())
}

fn st(s: &str) -> Json {
    Json::Str(s.to_string())
}

fn init_request() -> Json {
    obj(vec![
        ("jsonrpc", st("2.0")),
        ("id", Json::Num(1)),
        ("method", st("initialize")),
        (
            "params",
            obj(vec![
                ("protocolVersion", st("2024-11-05")),
                ("capabilities", obj(vec![])),
                ("clientInfo", obj(vec![("name", st("test")), ("version", st("0.1"))])),
            ]),
        ),
    ])
}

fn call(id: usize, name: &str, args: Json) -> Json {
    obj(vec![
        ("jsonrpc", st("2.0")),
        ("id", Json::Num(id)),
        ("method", st("tools/call")),
        ("params", obj(vec![("name", st(name)), ("arguments", args)])),
    ])
}

fn reply(step: Step) -> Json {
    match step {
        Step::Reply(j) => j,
        _ => panic!("expected a reply"),
    }
}

fn run(step: Step) -> (Json, Tool) {
    match step {
        Step::Run { id, tool } => (id, tool),
        _ => panic!("expected a tool run"),
    }
}

fn code(j: &Json) -> i64 {
    match j.get("error").unwrap().get("code").unwrap() {
        Json::Int(c) => *c,
        _ => panic!("error code is not an integer"),
    }
}

fn s(j: &Json, key: &str) -> String {
    j.get(key).unwrap().as_str().unwrap().to_string()
}

fn rust_file(path: &str, names: &[&str]) -> FileResult {
    FileResult {
        path: path.to_string(),
        language: "Rust",
        loc: names.len(),
        entities: names
            .iter()
            .enumerate()
            .map(|(i, n)| Entity::new(n.to_string(), EntityType::Function, 1, i + 1, i + 1))
            .collect(),
        imports: vec![],
        dependencies: vec![],
        errors: vec![],
    }
}

#[test]
fn mcp_initialize_responds_with_server_info() {
    let r = reply(plan_message(&init_request(), "0.2.0"));
    assert_eq!(s(&r, "jsonrpc"), "2.0");
    assert_eq!(r.get("id").unwrap().as_num(), Some(1));
    let result = r.get("result").unwrap();
    assert_eq!(s(result.get("serverInfo").unwrap(), "name"), "code-seek");
    assert_eq!(s(result.get("serverInfo").unwrap(), "version"), "0.2.0");
    assert_eq!(s(result, "protocolVersion"), "2024-11-05");
    assert!(r.get("error").is_none());
}

#[test]
fn unsupported_protocol_version_gets_the_default() {
    let msg = obj(vec![("params", obj(vec![("protocolVersion", st("1999-01-01"))]))]);
    assert_eq!(negotiate_version(&msg), "2024-11-05");
    assert_eq!(negotiate_version(&obj(vec![])), "2024-11-05");
}

#[test]
fn mcp_notification_produces_no_response() {
    let note = obj(vec![("jsonrpc", st("2.0")), ("method", st("notifications/initialized"))]);
    assert!(matches!(plan_message(&note, "0.2.0"), Step::Silent));
}

#[test]
fn mcp_tools_list_includes_all_tools() {
    let msg = obj(vec![("jsonrpc", st("2.0")), ("id", Json::Num(2)), ("method", st("tools/list")), ("params", obj(vec![]))]);
    let r = reply(plan_message(&msg, "0.2.0"));
    let tools = r.get("result").unwrap().get("tools").unwrap().as_array().unwrap();
    let names: Vec<String> = tools.iter().map(|t| s(t, "name")).collect();
    assert_eq!(names, vec!["scan", "entity", "summary", "locate"]);
}

#[test]
fn lang_description_lists_every_alias() {
    assert_eq!(lang_filter_description(), "Comma-separated language filter: c, cpp, c++, qml, rust");
}

#[test]
fn unknown_method_is_refused() {
    let msg = obj(vec![("id", Json::Num(7)), ("method", st("resources/list"))]);
    let r = reply(plan_message(&msg, "0.2.0"));
    let e = r.get("error").unwrap();
    assert_eq!(code(&r), -32601);
    assert_eq!(s(e, "message"), "Method not found");
}

#[test]
fn mcp_unknown_tool_returns_error() {
    let r = reply(plan_message(&call(3, "noop", obj(vec![])), "0.2.0"));
    let e = r.get("error").unwrap();
    assert_eq!(code(&r), -32602);
    assert_eq!(s(e, "message"), "Unknown tool: noop");
}

#[test]
fn scan_without_path_is_refused() {
    let r = reply(plan_message(&call(3, "scan", obj(vec![])), "0.2.0"));
    assert_eq!(s(r.get("error").unwrap(), "message"), "Missing required argument: path");
}

#[test]
fn scan_with_traversal_is_refused() {
    let r = reply(plan_message(&call(3, "scan", obj(vec![("path", st("src/../../etc"))])), "0.2.0"));
    assert_eq!(s(r.get("error").unwrap(), "message"), "path traversal not allowed");
}

#[test]
fn scan_call_carries_its_arguments() {
    let args = obj(vec![
        ("path", st("src")),
        ("lang", st("rust, c ")),
        ("match", st("add")),
        ("max_depth", Json::Num(2)),
        ("info", st("tests")),
    ]);
    let (id, tool) = run(plan_message(&call(3, "scan", args), "0.2.0"));
    assert_eq!(id.as_num(), Some(3));
    assert_eq!(tool.target(), "src");
    let p = tool.scan_params();
    assert_eq!(p.lang, vec!["rust".to_string(), "c".to_string()]);
    assert_eq!(p.pattern, "add");
    assert_eq!(p.max_depth, Some(2));
    assert!(p.ignore.is_empty());
    assert_eq!(p.info, "tests");
}

#[test]
fn entity_call_scans_the_named_file() {
    let (_, tool) = run(plan_message(&call(3, "entity", obj(vec![("entity_path", st("src/lib.rs > add"))])), "0.2.0"));
    assert_eq!(tool.target(), "src/lib.rs");
    let p = tool.scan_params();
    assert!(p.lang.is_empty());
    assert_eq!(p.info, "all");
}

#[test]
fn entity_path_without_separator_is_refused() {
    let r = reply(plan_message(&call(3, "entity", obj(vec![("entity_path", st("src/lib.rs"))])), "0.2.0"));
    assert_eq!(s(r.get("error").unwrap(), "message"), "entity_path must contain at least one ' > ' separator");
}

#[test]
fn locate_without_name_is_refused() {
    let r = reply(plan_message(&call(3, "locate", obj(vec![("path", st("src"))])), "0.2.0"));
    assert_eq!(s(r.get("error").unwrap(), "message"), "Missing required argument: name");
}

#[test]
fn traversal_is_found_per_component() {
    assert!(has_traversal("../x"));
    assert!(has_traversal("a/../b"));
    assert!(has_traversal(".."));
    assert!(!has_traversal("a/..b/c"));
    assert!(!has_traversal("..a"));
    assert!(validate_mcp_path("src/lib.rs").is_ok());
    assert_eq!(validate_mcp_path("a/../b"), Err("path traversal not allowed".to_string()));
}

#[test]
fn mcp_entity_tool_returns_entity() {
    let (id, tool) = run(plan_message(&call(3, "entity", obj(vec![("entity_path", st("/p/lib.rs > add"))])), "0.2.0"));
    let results = vec![rust_file("/p/lib.rs", &["add"])];
    let v = tool_payload(&id, &tool, &results, "/p/lib.rs", "0.2.0").unwrap();
    assert_eq!(s(&v, "name"), "add");
    assert_eq!(s(&v, "entity_type"), "Function");
    assert_eq!(s(&v, "entity_path"), "/p/lib.rs > add");
}

#[test]
fn mcp_entity_tool_returns_error_for_unknown() {
    let (id, tool) =
        run(plan_message(&call(3, "entity", obj(vec![("entity_path", st("src/main.rs > nonexistent"))])), "0.2.0"));
    let results = vec![rust_file("src/main.rs", &["main"])];
    let e = tool_payload(&id, &tool, &results, "src/main.rs", "0.2.0").unwrap_err();
    let err = e.get("error").unwrap();
    assert_eq!(code(&e), -32000);
    assert_eq!(s(err, "message"), "entity not found: src/main.rs > nonexistent");
}

#[test]
fn mcp_scan_tool_returns_valid_json_structure() {
    let (id, tool) = run(plan_message(&call(3, "scan", obj(vec![("path", st("/p"))])), "0.2.0"));
    let results = vec![rust_file("/p/lib.rs", &["add"])];
    let v = tool_payload(&id, &tool, &results, "/p", "0.2.0").unwrap();
    assert_eq!(v.get("total_files").unwrap().as_num(), Some(1));
    assert_eq!(v.get("total_entities").unwrap().as_num(), Some(1));
    let files = v.get("files").unwrap().as_array().unwrap();
    assert_eq!(s(&files[0], "language"), "Rust");
}

#[test]
fn mcp_summary_tool_returns_structure() {
    let (id, tool) = run(plan_message(&call(3, "summary", obj(vec![("path", st("/p"))])), "0.2.0"));
    let results = vec![rust_file("/p/lib.rs", &["add"])];
    let v = tool_payload(&id, &tool, &results, "/p", "0.2.0").unwrap();
    assert_eq!(v.get("total_files").unwrap().as_num(), Some(1));
    assert_eq!(v.get("total_entities").unwrap().as_num(), Some(1));
    assert!(!v.get("by_language").unwrap().as_array().unwrap().is_empty());
    assert!(!v.get("by_entity_type").unwrap().as_array().unwrap().is_empty());
}

#[test]
fn mcp_locate_tool_returns_matches() {
    let (id, tool) =
        run(plan_message(&call(3, "locate", obj(vec![("name", st("run")), ("path", st("/p"))])), "0.2.0"));
    let results = vec![rust_file("/p/lib.rs", &["run", "helper"])];
    let v = tool_payload(&id, &tool, &results, "/p", "0.2.0").unwrap();
    assert_eq!(s(&v, "name"), "run");
    let matches = v.get("matches").unwrap().as_array().unwrap();
    assert_eq!(matches.len(), 1);
    assert_eq!(s(&matches[0], "name"), "run");
    assert_eq!(s(&matches[0], "entity_type"), "Function");
    assert!(s(&matches[0], "entity_path").ends_with("> run"));
}

#[test]
fn failed_scan_reply_carries_the_message() {
    let r = scan_failed_reply(&Json::Num(9), "no such file");
    let e = r.get("error").unwrap();
    assert_eq!(code(&r), -32000);
    assert_eq!(s(e, "message"), "no such file");
    assert_eq!(r.get("id").unwrap().as_num(), Some(9));
}

#[test]
fn mcp_scan_tool_respects_match_filter() {
    let args = obj(vec![("path", st("/p")), ("match", st("add"))]);
    let (id, tool) = run(plan_message(&call(3, "scan", args), "0.2.0"));
    let p = tool.scan_params();
    let sources = vec![(
        "/p/lib.rs".to_string(),
        "fn add(a: i32, b: i32) -> i32 { a + b }\nfn sub(a: i32, b: i32) -> i32 { a - b }".to_string(),
    )];
    let mut cache = Cache::empty();
    let (results, _) = build_scan_results(&sources, &p.lang, &p.pattern, p.max_depth, &p.info, &mut cache).unwrap();
    let v = tool_payload(&id, &tool, &results, "/p", "0.2.0").unwrap();
    assert_eq!(v.get("total_entities").unwrap().as_num(), Some(1));
    let files = v.get("files").unwrap().as_array().unwrap();
    let entities = files[0].get("entities").unwrap().as_array().unwrap();
    assert_eq!(s(&entities[0], "name"), "add");
}

#[test]
fn mcp_entity_tool_finds_a_relative_segment_in_the_scanned_file() {
    let (id, tool) =
        run(plan_message(&call(4, "entity", obj(vec![("entity_path", st("src/scan.rs > filter_entities"))])), "0.2.0"));
    assert_eq!(tool.target(), "src/scan.rs");
    let results = vec![rust_file("/home/u/proj/src/scan.rs", &["filter_entities"])];
    let v = tool_payload(&id, &tool, &results, "/home/u/proj/src/scan.rs", "0.2.0").unwrap();
    assert_eq!(s(&v, "name"), "filter_entities");
    assert_eq!(s(&v, "entity_type"), "Function");
    assert_eq!(s(&v, "entity_path"), "src/scan.rs > filter_entities");
}

#[test]
fn scan_tool_declares_the_git_opt_out() {
    let msg = obj(vec![("jsonrpc", st("2.0")), ("id", Json::Num(2)), ("method", st("tools/list"))]);
    let r = reply(plan_message(&msg, "0.2.0"));
    let tools = r.get("result").unwrap().get("tools").unwrap().as_array().unwrap();
    let schema = tools[0].get("inputSchema").unwrap();
    let flag = schema.get("properties").unwrap().get("no_gitignore").unwrap();
    assert_eq!(s(flag, "type"), "boolean");
    assert!(matches!(flag.get("default"), Some(Json::Bool(false))));
    let (_, off) = run(plan_message(&call(3, "scan", obj(vec![("path", st("src")), ("no_gitignore", Json::Bool(true))])), "0.2.0"));
    assert!(!off.scan_params().respect_gitignore);
    let (_, on) = run(plan_message(&call(3, "scan", obj(vec![("path", st("src"))])), "0.2.0"));
    assert!(on.scan_params().respect_gitignore);
}
