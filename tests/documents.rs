use skill_hub::fetch::{
    blob_content_from_response, bearer, BranchRetry, RetryStep, choose_token, contents_from_response,
    decode_base64_payload, default_branch_from_response, file_payload_from_response,
    judge_download, plan_listing, CoreLookup, DownloadStep, DownloadVerdict, FetchError,
    FilePayload, LookupStep,
};
use skill_hub::json::{Json, Number};
use skill_hub::normalize::{
    antigravity_to_standard_config, opencode_to_standard_config, standard_to_antigravity_config,
    standard_to_opencode_config, NormalizeError,
};
use skill_hub::servers::{
    delete_mcp_server, empty_document, parse_mcp_json, plan_mcp_sync, read_mcp_servers,
    upsert_mcp_servers, McpError, McpKind, McpServer, NativeDocument,
};
use skill_hub::skill::{extract_description, parse_frontmatter, skill_from_core_file};
use skill_hub::text::line_col_from_index;
use skill_hub::toml_value::{json_to_toml, toml_to_json, ConvertError, Toml};

fn s(v: &str) -> Json {
    Json::Str(v.to_string())
}

fn obj(entries: Vec<(&str, Json)>) -> Json {
    Json::Object(entries.into_iter().map(|(k, v)| (k.to_string(), v)).collect())
}

/// The value for `key` in an object: the last entry with that key.
fn get<'a>(v: &'a Json, key: &str) -> Option<&'a Json> {
    match v {
        Json::Object(es) => es.iter().rev().find(|(k, _)| k == key).map(|(_, v)| v),
        _ => None,
    }
}

fn keys(v: &Json) -> Vec<String> {
    let mut out: Vec<String> = Vec::new();
    if let Json::Object(es) = v {
        for (k, _) in es {
            if !out.contains(k) {
                out.push(k.clone());
            }
        }
    }
    out.sort();
    out
}

fn dbg(v: Option<&Json>) -> String {
    format!("{:?}", v)
}

#[test]
fn opencode_record_to_canonical() {
    let native = obj(vec![
        ("command", Json::Array(vec![s("npx"), s("-y"), s("server")])),
        ("environment", obj(vec![("A", s("1"))])),
        ("type", s("local")),
        ("timeout", Json::Number(Number::PosInt(30))),
    ]);
    let c = opencode_to_standard_config(&native);
    assert_eq!(dbg(get(&c, "command")), dbg(Some(&s("npx"))));
    assert_eq!(dbg(get(&c, "args")), dbg(Some(&Json::Array(vec![s("-y"), s("server")]))));
    assert_eq!(dbg(get(&c, "env")), dbg(Some(&obj(vec![("A", s("1"))]))));
    assert_eq!(dbg(get(&c, "timeout")), dbg(Some(&Json::Number(Number::PosInt(30)))));
    assert_eq!(keys(&c), vec!["args", "command", "env", "timeout", "type"]);
}

#[test]
fn canonical_record_to_opencode() {
    let canonical = obj(vec![
        ("command", s("npx")),
        ("args", Json::Array(vec![s("-y"), s("server")])),
        ("env", obj(vec![("A", s("1"))])),
    ]);
    let n = standard_to_opencode_config(&canonical).unwrap();
    assert_eq!(
        dbg(get(&n, "command")),
        dbg(Some(&Json::Array(vec![s("npx"), s("-y"), s("server")])))
    );
    assert_eq!(dbg(get(&n, "type")), dbg(Some(&s("local"))));
    assert_eq!(dbg(get(&n, "environment")), dbg(Some(&obj(vec![("A", s("1"))]))));
    assert_eq!(keys(&n), vec!["command", "environment", "type"]);
    let remote = standard_to_opencode_config(&obj(vec![("url", s("https://x"))])).unwrap();
    assert_eq!(dbg(get(&remote, "type")), dbg(Some(&s("remote"))));
    assert_eq!(
        standard_to_opencode_config(&s("x")).unwrap_err(),
        NormalizeError::ConfigNotObject
    );
}

#[test]
fn opencode_round_trip_keeps_every_field() {
    let canonical = obj(vec![
        ("command", s("uvx")),
        ("args", Json::Array(vec![s("tool")])),
        ("env", obj(vec![("K", s("v"))])),
        ("type", s("local")),
        ("enabled", Json::Bool(true)),
        ("extra", Json::Array(vec![Json::Number(Number::NegInt(-3))])),
    ]);
    let back = opencode_to_standard_config(&standard_to_opencode_config(&canonical).unwrap());
    assert_eq!(keys(&back), keys(&canonical));
    for k in keys(&canonical) {
        assert_eq!(dbg(get(&back, &k)), dbg(get(&canonical, &k)));
    }
}

#[test]
fn antigravity_renames_url() {
    let canonical = obj(vec![("url", s("https://a")), ("headers", obj(vec![]))]);
    let n = standard_to_antigravity_config(&canonical).unwrap();
    assert_eq!(keys(&n), vec!["headers", "serverUrl"]);
    assert_eq!(dbg(get(&n, "serverUrl")), dbg(Some(&s("https://a"))));
    let back = antigravity_to_standard_config(&n);
    assert_eq!(keys(&back), keys(&canonical));
    assert_eq!(dbg(get(&back, "url")), dbg(Some(&s("https://a"))));
    let both = obj(vec![("url", s("https://old")), ("serverUrl", s("https://new"))]);
    let c = antigravity_to_standard_config(&both);
    assert_eq!(dbg(get(&c, "url")), dbg(Some(&s("https://new"))));
    assert_eq!(keys(&c), vec!["url"]);
}

#[test]
fn toml_conversion_keeps_kinds() {
    let v = obj(vec![
        ("i", Json::Number(Number::PosInt(5))),
        ("n", Json::Number(Number::NegInt(-5))),
        ("f", Json::Number(Number::Float(1.5f64.to_bits()))),
        ("b", Json::Bool(false)),
        ("a", Json::Array(vec![s("x")])),
    ]);
    let t = json_to_toml(&v).unwrap();
    match &t {
        Toml::Table(es) => {
            assert_eq!(format!("{:?}", es[0].1), format!("{:?}", Toml::Integer(5)));
            assert_eq!(format!("{:?}", es[2].1), format!("{:?}", Toml::Float(1.5f64.to_bits())));
        }
        _ => panic!("not a table"),
    }
    let back = toml_to_json(&t);
    assert_eq!(format!("{:?}", back), format!("{:?}", v));
}

#[test]
fn toml_rejects_null() {
    let v = obj(vec![("a", Json::Array(vec![Json::Null]))]);
    assert_eq!(json_to_toml(&v).unwrap_err(), ConvertError::NullValue);
}

#[test]
fn large_unsigned_becomes_nearest_float() {
    for u in [u64::MAX, (1u64 << 63) + 1, (1u64 << 63) + 1024, (1u64 << 63) + 3072, 12345678901234567890u64] {
        let t = json_to_toml(&Json::Number(Number::PosInt(u))).unwrap();
        assert_eq!(format!("{:?}", t), format!("{:?}", Toml::Float((u as f64).to_bits())));
    }
}

#[test]
fn toml_non_finite_float_becomes_zero() {
    let j = toml_to_json(&Toml::Float(f64::NAN.to_bits()));
    assert_eq!(format!("{:?}", j), format!("{:?}", Json::Number(Number::PosInt(0))));
    let d = toml_to_json(&Toml::Datetime("1979-05-27T07:32:00Z".to_string()));
    assert_eq!(format!("{:?}", d), format!("{:?}", s("1979-05-27T07:32:00Z")));
}

fn object_doc() -> NativeDocument {
    NativeDocument::Json(obj(vec![
        ("theme", s("dark")),
        ("mcpServers", obj(vec![("zeta", obj(vec![("command", s("z"))])), ("alpha", obj(vec![("url", s("u"))]))])),
    ]))
}

#[test]
fn read_lists_sorted_servers() {
    let servers = read_mcp_servers(McpKind::ObjectJson, &object_doc());
    let ids: Vec<&str> = servers.iter().map(|m| m.id.as_str()).collect();
    assert_eq!(ids, vec!["alpha", "zeta"]);
    let none = read_mcp_servers(McpKind::ObjectJson, &empty_document(McpKind::ObjectJson));
    assert!(none.is_empty());
}

#[test]
fn upsert_keeps_unrelated_top_level_keys() {
    let mut doc = object_doc();
    let new = vec![("beta".to_string(), obj(vec![("command", s("b"))]))];
    upsert_mcp_servers(McpKind::ObjectJson, &mut doc, &new).unwrap();
    let NativeDocument::Json(root) = &doc else { panic!("not json") };
    assert_eq!(dbg(get(root, "theme")), dbg(Some(&s("dark"))));
    let servers = read_mcp_servers(McpKind::ObjectJson, &doc);
    let ids: Vec<&str> = servers.iter().map(|m| m.id.as_str()).collect();
    assert_eq!(ids, vec!["alpha", "beta", "zeta"]);
}

#[test]
fn upsert_into_empty_toml_document() {
    let mut doc = empty_document(McpKind::CodexToml);
    let new = vec![("svc".to_string(), obj(vec![("command", s("run")), ("port", Json::Number(Number::PosInt(8)))]))];
    upsert_mcp_servers(McpKind::CodexToml, &mut doc, &new).unwrap();
    let servers = read_mcp_servers(McpKind::CodexToml, &doc);
    assert_eq!(servers.len(), 1);
    assert_eq!(servers[0].id, "svc");
    assert_eq!(dbg(get(&servers[0].config, "port")), dbg(Some(&Json::Number(Number::PosInt(8)))));
    let bad = vec![("n".to_string(), obj(vec![("x", Json::Null)]))];
    assert_eq!(upsert_mcp_servers(McpKind::CodexToml, &mut doc, &bad), Err(McpError::NullValue));
}

#[test]
fn upsert_errors() {
    let mut doc = NativeDocument::Json(Json::Array(vec![]));
    let new = vec![("a".to_string(), obj(vec![]))];
    assert_eq!(upsert_mcp_servers(McpKind::ObjectJson, &mut doc, &new), Err(McpError::InvalidFormat));
    let mut doc = NativeDocument::Json(obj(vec![("mcp", s("oops"))]));
    assert_eq!(upsert_mcp_servers(McpKind::OpenCodeJson, &mut doc, &new), Err(McpError::InvalidContainer));
    let mut doc = empty_document(McpKind::AntigravityJson);
    let not_obj = vec![("a".to_string(), s("x"))];
    assert_eq!(
        upsert_mcp_servers(McpKind::AntigravityJson, &mut doc, &not_obj),
        Err(McpError::ConfigNotObject)
    );
}

#[test]
fn delete_absent_server_fails_and_keeps_document() {
    let mut doc = object_doc();
    let before = format!("{:?}", doc);
    assert_eq!(delete_mcp_server(McpKind::ObjectJson, &mut doc, "nope"), Err(McpError::NotFound));
    assert_eq!(format!("{:?}", doc), before);
    let mut empty = empty_document(McpKind::CodexToml);
    assert_eq!(delete_mcp_server(McpKind::CodexToml, &mut empty, "x"), Err(McpError::NoServers));
}

#[test]
fn delete_present_server() {
    let mut doc = object_doc();
    delete_mcp_server(McpKind::ObjectJson, &mut doc, "zeta").unwrap();
    let servers = read_mcp_servers(McpKind::ObjectJson, &doc);
    let ids: Vec<&str> = servers.iter().map(|m| m.id.as_str()).collect();
    assert_eq!(ids, vec!["alpha"]);
    let NativeDocument::Json(root) = &doc else { panic!("not json") };
    assert_eq!(dbg(get(root, "theme")), dbg(Some(&s("dark"))));
}

#[test]
fn imported_document_needs_servers_object() {
    let v = obj(vec![("mcpServers", obj(vec![("a", obj(vec![]))]))]);
    let servers = parse_mcp_json(&v).unwrap();
    assert_eq!(servers.len(), 1);
    assert_eq!(parse_mcp_json(&obj(vec![])).unwrap_err(), McpError::MissingServers);
}

#[test]
fn mcp_sync_plan() {
    let mk = |id: &str| McpServer { id: id.to_string(), config: obj(vec![]) };
    let (add, counts) = plan_mcp_sync(&vec![mk("a"), mk("b")], &vec![mk("b")]);
    assert_eq!(counts.added, 1);
    assert_eq!(counts.skipped, 1);
    assert_eq!(add[0].0, "a");
}

#[test]
fn frontmatter_and_body() {
    let raw = "---\nname: PDF Tools\ndescription:  Work with PDFs \nbad line\n:empty\n---\n\n# Title\nBody text\n";
    let (meta, body) = parse_frontmatter(raw);
    assert_eq!(
        meta,
        vec![
            ("name".to_string(), "PDF Tools".to_string()),
            ("description".to_string(), "Work with PDFs".to_string())
        ]
    );
    assert_eq!(body, "# Title\nBody text");
    let (meta, body) = parse_frontmatter("no header\n");
    assert!(meta.is_empty());
    assert_eq!(body, "no header\n");
    let (meta, body) = parse_frontmatter("---\nname: x\n");
    assert!(meta.is_empty());
    assert_eq!(body, "---\nname: x\n");
}

#[test]
fn description_skips_headings() {
    assert_eq!(extract_description("\n# Title\n\n  First line.  \nSecond"), "First line.");
    assert_eq!(extract_description("# Only heading\n"), "");
}

#[test]
fn skill_from_markdown_core_file() {
    let raw = "---\nname: Nice\n---\nDoes things.\n";
    let item = skill_from_core_file(raw, "nice", "/s/nice", "SKILL.md", "/s/nice/SKILL.md", "roo-user", None, Some(5));
    assert_eq!(item.name, "Nice");
    assert_eq!(item.description, "Does things.");
    assert_eq!(item.id, "nice");
    let plain = skill_from_core_file("key: v", "dir", "/d", "config.yaml", "/d/config.yaml", "qoder-user", None, None);
    assert_eq!(plain.name, "dir");
    assert_eq!(plain.description, "");
    assert_eq!(plain.body, "key: v");
}

#[test]
fn line_and_column_of_offset() {
    assert_eq!(line_col_from_index("ab\ncd", 4), (2, 2));
    assert_eq!(line_col_from_index("ab\r\ncd", 5), (2, 2));
    assert_eq!(line_col_from_index("é\nx", 3), (2, 1));
    assert_eq!(line_col_from_index("abc", 100), (1, 4));
}

#[test]
fn base64_payload_is_decoded() {
    assert_eq!(decode_base64_payload("aGVs\nbG8=\n").unwrap(), b"hello".to_vec());
    assert_eq!(decode_base64_payload("!!!").unwrap_err(), FetchError::InvalidBase64);
}

#[test]
fn responses_are_read() {
    let repo = obj(vec![("default_branch", s("trunk"))]);
    assert_eq!(default_branch_from_response(&repo).unwrap(), "trunk");
    assert_eq!(default_branch_from_response(&obj(vec![])).unwrap_err(), FetchError::MissingDefaultBranch);
    let file = obj(vec![("content", s("aGk=")), ("encoding", s("base64"))]);
    match file_payload_from_response(&file).unwrap() {
        FilePayload::Inline(c) => assert_eq!(c, "aGk="),
        other => panic!("{:?}", other),
    }
    let blob_only = obj(vec![("sha", s("abc"))]);
    match file_payload_from_response(&blob_only).unwrap() {
        FilePayload::Blob(h) => assert_eq!(h, "abc"),
        other => panic!("{:?}", other),
    }
    let odd = obj(vec![("content", s("x")), ("encoding", s("utf-8"))]);
    assert_eq!(file_payload_from_response(&odd).unwrap_err(), FetchError::UnsupportedFileEncoding);
    assert_eq!(blob_content_from_response(&obj(vec![])).unwrap_err(), FetchError::MissingBlobContent);
}

#[test]
fn listing_becomes_steps() {
    let listing = Json::Array(vec![
        obj(vec![("name", s("a.md")), ("path", s("p/a.md")), ("type", s("file")), ("sha", s("h1"))]),
        obj(vec![("name", s("sub")), ("path", s("p/sub")), ("type", s("dir")), ("sha", Json::Null)]),
        obj(vec![("name", s("b.md")), ("path", s("p/b.md")), ("type", s("file"))]),
        obj(vec![("name", s("l")), ("path", s("p/l")), ("type", s("symlink"))]),
    ]);
    let entries = contents_from_response(&listing).unwrap();
    assert_eq!(entries.len(), 4);
    let steps = plan_listing("/dest", &entries);
    assert_eq!(steps.len(), 3);
    match &steps[0] {
        DownloadStep::Blob { sha, dest } => {
            assert_eq!(sha, "h1");
            assert_eq!(dest, "/dest/a.md");
        }
        other => panic!("{:?}", other),
    }
    match &steps[1] {
        DownloadStep::Directory { repo_path, dest } => {
            assert_eq!(repo_path, "p/sub");
            assert_eq!(dest, "/dest/sub");
        }
        other => panic!("{:?}", other),
    }
    match &steps[2] {
        DownloadStep::File { repo_path, .. } => assert_eq!(repo_path, "p/b.md"),
        other => panic!("{:?}", other),
    }
    assert_eq!(contents_from_response(&s("x")).unwrap_err(), FetchError::UnexpectedResponse);
    let bad = Json::Array(vec![obj(vec![("name", s("a"))])]);
    assert_eq!(contents_from_response(&bad).unwrap_err(), FetchError::InvalidEntry);
}

#[test]
fn download_verdicts() {
    match judge_download(200, Ok("text".to_string())) {
        DownloadVerdict::Done(Ok(t)) => assert_eq!(t, "text"),
        other => panic!("{:?}", other),
    }
    match judge_download(200, Ok("  \n".to_string())) {
        DownloadVerdict::Done(Err(m)) => assert_eq!(m, "SKILL.md is empty"),
        other => panic!("{:?}", other),
    }
    match judge_download(404, Ok(String::new())) {
        DownloadVerdict::Next(m) => assert_eq!(m, "Unexpected status 404"),
        other => panic!("{:?}", other),
    }
}

#[test]
fn core_lookup_tries_branches_then_files() {
    let (mut st, first) = CoreLookup::start(2, 2);
    assert!(matches!(first, LookupStep::Fetch { file: 0, branch: 0 }));
    let step = st.advance(2, 2, Err("404".to_string()));
    assert!(matches!(step, LookupStep::Fetch { file: 0, branch: 1 }));
    let step = st.advance(2, 2, Ok(vec![0xff]));
    assert!(matches!(step, LookupStep::Fetch { file: 1, branch: 0 }));
    let msg = st.last_error.clone().unwrap();
    assert!(msg.starts_with("GitHub file is not UTF-8: "));
    assert!(msg.len() > "GitHub file is not UTF-8: ".len());
    match st.advance(2, 2, Ok(b"# hi".to_vec())) {
        LookupStep::Found { file, branch, content } => {
            assert_eq!((file, branch), (1, 0));
            assert_eq!(content, "# hi");
        }
        other => panic!("{:?}", other),
    }
    let (mut st, _) = CoreLookup::start(1, 1);
    match st.advance(1, 1, Err("boom".to_string())) {
        LookupStep::Failed(m) => assert_eq!(m, "boom"),
        other => panic!("{:?}", other),
    }
}

#[test]
fn token_priority() {
    let c = vec![Some("  ".to_string()), None, Some("env-token".to_string()), Some("later".to_string())];
    assert_eq!(choose_token(&c), Some("env-token".to_string()));
    assert_eq!(choose_token(&vec![None]), None);
    assert_eq!(bearer("t"), "Bearer t");
}

#[test]
fn branch_retry_first_success_wins() {
    let (mut retry, first) = BranchRetry::start(3);
    assert!(matches!(first, RetryStep::Attempt(0)));
    assert!(matches!(retry.advance(3, Err("a".to_string())), RetryStep::Attempt(1)));
    assert!(matches!(retry.advance(3, Ok(())), RetryStep::Succeeded(1)));
    let (mut retry, _) = BranchRetry::start(1);
    match retry.advance(1, Err("last".to_string())) {
        RetryStep::GaveUp(m) => assert_eq!(m, "last"),
        other => panic!("{:?}", other),
    }
    let (_, none) = BranchRetry::start(0);
    match none {
        RetryStep::GaveUp(m) => assert_eq!(m, "Unable to download GitHub directory"),
        other => panic!("{:?}", other),
    }
}
