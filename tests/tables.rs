use skill_hub::fetch::{blob_content_from_response, file_payload_from_response, FetchError};
use skill_hub::json::Json;
use skill_hub::servers::McpKind;
use skill_hub::skill::{install_name, marker_for_url, source_url_from_marker};
use skill_hub::sources::{
    find_core_file, find_mcp_source, find_source, join_path, mcp_source_configs, mcp_source_visible,
    resolve_read_path, source_configs,
};

fn strings(items: &[&str]) -> Vec<String> {
    items.iter().map(|s| s.to_string()).collect()
}

#[test]
fn skill_sources_under_home() {
    let sources = source_configs("/h", false, false);
    assert_eq!(sources.len(), 13);
    assert_eq!(sources[0].id, "roo-user");
    assert_eq!(sources[0].install_root, "/h/.roo");
    assert_eq!(sources[0].root, "/h/.roo/skills");
    let opencode = &sources[find_source(&sources, "opencode-user").unwrap()];
    assert_eq!(opencode.root, "/h/.config/opencode/skills");
    let standard = &sources[find_source(&sources, "standard-user").unwrap()];
    assert_eq!(standard.root, "/h/.skills");
    let buddy = &sources[find_source(&sources, "codebuddy-user").unwrap()];
    assert_eq!(buddy.core_files, strings(&[".cb-rules", "SKILL.md"]));
    assert!(find_source(&sources, "nope").is_none());
}

#[test]
fn antigravity_directory_choice() {
    let newer = source_configs("/h/", false, false);
    let ag = &newer[find_source(&newer, "antigravity-user").unwrap()];
    assert_eq!(ag.install_root, "/h/.gemini/antigravity");
    let older = source_configs("/h", false, true);
    let ag = &older[find_source(&older, "antigravity-user").unwrap()];
    assert_eq!(ag.root, "/h/.antigravity/skills");
    let both = source_configs("/h", true, true);
    let ag = &both[find_source(&both, "antigravity-user").unwrap()];
    assert_eq!(ag.install_root, "/h/.gemini/antigravity");
}

#[test]
fn mcp_sources_under_home() {
    let configs = mcp_source_configs("/h", false, true);
    assert_eq!(configs.len(), 12);
    let gemini = &configs[find_mcp_source(&configs, "gemini").unwrap()];
    assert_eq!(gemini.primary_path, "/h/.gemini/settings.json");
    assert_eq!(gemini.read_paths, strings(&["/h/.gemini/settings.json", "/h/.gemini/mcp.json"]));
    let codex = &configs[find_mcp_source(&configs, "codex").unwrap()];
    assert_eq!(codex.kind, McpKind::CodexToml);
    assert_eq!(codex.format, "toml");
    let ag = &configs[find_mcp_source(&configs, "antigravity").unwrap()];
    assert_eq!(ag.primary_path, "/h/.antigravity/mcp.json");
    assert_eq!(ag.install_root, "/h/.antigravity");
    assert_eq!(
        ag.read_paths,
        strings(&["/h/.gemini/antigravity/mcp_config.json", "/h/.antigravity/mcp.json"])
    );
    let fresh = mcp_source_configs("/h", false, false);
    let ag = &fresh[find_mcp_source(&fresh, "antigravity").unwrap()];
    assert_eq!(ag.primary_path, "/h/.gemini/antigravity/mcp_config.json");
}

#[test]
fn read_path_prefers_first_existing() {
    let configs = mcp_source_configs("/h", false, false);
    let gemini = &configs[find_mcp_source(&configs, "gemini").unwrap()];
    assert_eq!(resolve_read_path(gemini, &vec![false, true]), "/h/.gemini/mcp.json");
    assert_eq!(resolve_read_path(gemini, &vec![true, true]), "/h/.gemini/settings.json");
    assert_eq!(resolve_read_path(gemini, &vec![false, false]), "/h/.gemini/settings.json");
}

#[test]
fn core_file_is_first_present() {
    let files = strings(&[".cb-rules", "SKILL.md"]);
    assert_eq!(
        find_core_file("/s/x", &files, &vec![false, true]),
        Some(("/s/x/SKILL.md".to_string(), "SKILL.md".to_string()))
    );
    assert_eq!(find_core_file("/s/x", &files, &vec![false, false]), None);
}

#[test]
fn path_joining() {
    assert_eq!(join_path("/a", "b"), "/a/b");
    assert_eq!(join_path("/a/", "b"), "/a/b");
    assert_eq!(join_path("", "b"), "b");
    assert_eq!(join_path("/a", "/etc"), "/etc");
}

#[test]
fn more_fetch_errors() {
    let s = |v: &str| Json::Str(v.to_string());
    assert_eq!(file_payload_from_response(&s("x")).unwrap_err(), FetchError::InvalidFileResponse);
    assert_eq!(
        file_payload_from_response(&Json::Object(vec![])).unwrap_err(),
        FetchError::MissingFileContent
    );
    assert_eq!(blob_content_from_response(&Json::Null).unwrap_err(), FetchError::InvalidBlobResponse);
    let odd = Json::Object(vec![
        ("content".to_string(), s("aGk=")),
        ("encoding".to_string(), s("utf-8")),
    ]);
    assert_eq!(blob_content_from_response(&odd).unwrap_err(), FetchError::UnsupportedBlobEncoding);
    assert_eq!(FetchError::InvalidBlobResponse.message(), "Invalid GitHub blob response");
}

#[test]
fn provenance_marker() {
    let m = marker_for_url("  https://example.com/s  ").unwrap();
    assert_eq!(source_url_from_marker(&m), Some("https://example.com/s".to_string()));
    assert!(marker_for_url("   ").is_none());
    assert_eq!(source_url_from_marker(&Json::Object(vec![])), None);
}

#[test]
fn install_names() {
    assert_eq!(install_name("---\nname: Fancy\n---\nx", "SKILL.md", "https://e.com/a/b"), "Fancy");
    assert_eq!(install_name("---\nname:   \n---\nx", "SKILL.md", "https://e.com/a/b"), "b");
    assert_eq!(install_name("name: Fancy", "config.yaml", "https://e.com/pdf/config.yaml"), "pdf");
}

#[test]
fn configuration_visibility() {
    assert!(mcp_source_visible(true, &vec![false], false));
    assert!(mcp_source_visible(false, &vec![false, true], false));
    assert!(mcp_source_visible(false, &vec![], true));
    assert!(!mcp_source_visible(false, &vec![false, false], false));
}
