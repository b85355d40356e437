//! The fixed table of tool installations: where each keeps its skills and
//! its MCP configuration, relative to the home directory.
use vstd::prelude::*;
use crate::servers::{delete_error, deleted, McpError, McpKind, NativeDocument};
use crate::text::{chars_of, push_all, push_str, string_of, string_views};

verus! {

/// `segment` appended to `base` as `PathBuf::push` does on Unix: an absolute
/// segment replaces the base, and a `/` goes between unless the base is
/// empty or ends with one.
pub open spec fn path_join(base: Seq<char>, segment: Seq<char>) -> Seq<char> {
    if segment.len() > 0 && segment[0] == '/' {
        segment
    } else if base.len() == 0 || base.last() == '/' {
        base + segment
    } else {
        base + "/"@ + segment
    }
}

/// `segment` appended to `base` as a path; see `path_join`.
pub fn join_path(base: &str, segment: &str) -> (r: String)
    ensures
        r@ == path_join(base@, segment@),
{
    let s = chars_of(segment);
    if s.len() > 0 && s[0] == '/' {
        return string_of(&s);
    }
    let mut b = chars_of(base);
    if b.len() == 0 || b[b.len() - 1] == '/' {
        push_all(&mut b, &s);
    } else {
        push_str(&mut b, "/");
        push_all(&mut b, &s);
    }
    string_of(&b)
}

/// A tool installation that holds skills.
#[derive(Debug)]
pub struct SourceConfig {
    pub id: String,
    pub label: String,
    pub install_root: String,
    pub root: String,
    pub core_files: Vec<String>,
}

pub struct SourceV {
    pub id: Seq<char>,
    pub label: Seq<char>,
    pub install_root: Seq<char>,
    pub root: Seq<char>,
    pub core_files: Seq<Seq<char>>,
}

impl SourceConfig {
    pub open spec fn view(&self) -> SourceV {
        SourceV {
            id: self.id@,
            label: self.label@,
            install_root: self.install_root@,
            root: self.root@,
            core_files: string_views(self.core_files@),
        }
    }
}

pub open spec fn sources_view(s: Seq<SourceConfig>) -> Seq<SourceV> {
    s.map_values(|c: SourceConfig| c@)
}

/// Where the Antigravity tool lives: its directory under `.gemini` when that
/// exists or the older `.antigravity` does not, else the older one.
pub open spec fn antigravity_dir(home: Seq<char>, gemini_exists: bool, legacy_exists: bool) -> Seq<char> {
    if gemini_exists || !legacy_exists {
        path_join(path_join(home, ".gemini"@), "antigravity"@)
    } else {
        path_join(home, ".antigravity"@)
    }
}

/// The skill-holding installations, in display order.
pub open spec fn source_table(home: Seq<char>, ag: Seq<char>) -> Seq<SourceV> {
    seq![
        SourceV {
            id: "roo-user"@,
            label: "Roo Code (Cline)"@,
            install_root: path_join(home, ".roo"@),
            root: path_join(path_join(home, ".roo"@), "skills"@),
            core_files: seq!["SKILL.md"@],
        },
        SourceV {
            id: "copilot-user"@,
            label: "GitHub Copilot"@,
            install_root: path_join(home, ".copilot"@),
            root: path_join(path_join(home, ".copilot"@), "skills"@),
            core_files: seq!["SKILL.md"@],
        },
        SourceV {
            id: "cursor-user"@,
            label: "Cursor"@,
            install_root: path_join(home, ".cursor"@),
            root: path_join(path_join(home, ".cursor"@), "skills"@),
            core_files: seq!["SKILL.md"@],
        },
        SourceV {
            id: "opencode-user"@,
            label: "OpenCode"@,
            install_root: path_join(path_join(home, ".config"@), "opencode"@),
            root: path_join(path_join(path_join(home, ".config"@), "opencode"@), "skills"@),
            core_files: seq!["SKILL.md"@],
        },
        SourceV {
            id: "gemini-user"@,
            label: "Gemini CLI"@,
            install_root: path_join(home, ".gemini"@),
            root: path_join(path_join(home, ".gemini"@), "skills"@),
            core_files: seq!["SKILL.md"@],
        },
        SourceV {
            id: "codex-user"@,
            label: "Codex"@,
            install_root: path_join(home, ".codex"@),
            root: path_join(path_join(home, ".codex"@), "skills"@),
            core_files: seq!["SKILL.md"@],
        },
        SourceV {
            id: "trae-user"@,
            label: "Trae"@,
            install_root: path_join(home, ".trae"@),
            root: path_join(path_join(home, ".trae"@), "skills"@),
            core_files: seq!["SKILL.md"@],
        },
        SourceV {
            id: "goose-user"@,
            label: "Goose"@,
            install_root: path_join(path_join(home, ".config"@), "goose"@),
            root: path_join(path_join(path_join(home, ".config"@), "goose"@), "skills"@),
            core_files: seq!["SKILL.md"@],
        },
        SourceV {
            id: "standard-user"@,
            label: "Common Standard"@,
            install_root: path_join(home, ".skills"@),
            root: path_join(home, ".skills"@),
            core_files: seq!["SKILL.md"@],
        },
        SourceV {
            id: "antigravity-user"@,
            label: "Antigravity"@,
            install_root: ag,
            root: path_join(ag, "skills"@),
            core_files: seq!["SKILL.md"@],
        },
        SourceV {
            id: "kiro-user"@,
            label: "Kiro"@,
            install_root: path_join(home, ".kiro"@),
            root: path_join(path_join(home, ".kiro"@), "skills"@),
            core_files: seq!["instructions.md"@],
        },
        SourceV {
            id: "qoder-user"@,
            label: "Qoder"@,
            install_root: path_join(home, ".qoder"@),
            root: path_join(path_join(home, ".qoder"@), "skills"@),
            core_files: seq!["config.yaml"@],
        },
        SourceV {
            id: "codebuddy-user"@,
            label: "CodeBuddy"@,
            install_root: path_join(home, ".codebuddy"@),
            root: path_join(path_join(home, ".codebuddy"@), "skills"@),
            core_files: seq![".cb-rules"@, "SKILL.md"@],
        },
    ]
}

fn names1(a: &str) -> (r: Vec<String>)
    ensures
        string_views(r@) == seq![a@],
{
    paths1(a.to_owned())
}

fn names2(a: &str, b: &str) -> (r: Vec<String>)
    ensures
        string_views(r@) == seq![a@, b@],
{
    paths2(a.to_owned(), b.to_owned())
}

fn source(id: &str, label: &str, install_root: String, root: String, core_files: Vec<String>) -> (r: SourceConfig)
    ensures
        r@ == (SourceV { id: id@, label: label@, install_root: install_root@, root: root@, core_files: string_views(core_files@) }),
{
    SourceConfig { id: id.to_owned(), label: label.to_owned(), install_root, root, core_files }
}

fn under1(home: &str, a: &str) -> (r: String)
    ensures
        r@ == path_join(home@, a@),
{
    join_path(home, a)
}

fn under2(home: &str, a: &str, b: &str) -> (r: String)
    ensures
        r@ == path_join(path_join(home@, a@), b@),
{
    let x = join_path(home, a);
    join_path(x.as_str(), b)
}

fn under3(home: &str, a: &str, b: &str, c: &str) -> (r: String)
    ensures
        r@ == path_join(path_join(path_join(home@, a@), b@), c@),
{
    let x = join_path(home, a);
    let y = join_path(x.as_str(), b);
    join_path(y.as_str(), c)
}

/// The skill-holding installations under `home`, given whether the newer and
/// the older Antigravity directories exist.
pub fn source_configs(home: &str, gemini_antigravity_exists: bool, legacy_antigravity_exists: bool) -> (r: Vec<SourceConfig>)
    ensures
        sources_view(r@) == source_table(home@, antigravity_dir(home@, gemini_antigravity_exists, legacy_antigravity_exists)),
{
    let ag = if gemini_antigravity_exists || !legacy_antigravity_exists {
        let g = join_path(home, ".gemini");
        join_path(g.as_str(), "antigravity")
    } else {
        join_path(home, ".antigravity")
    };
    let ghost agv = ag@;
    let mut r: Vec<SourceConfig> = Vec::new();
    r.push(
        source(
            "roo-user",
            "Roo Code (Cline)",
            under1(home, ".roo"),
            under2(home, ".roo", "skills"),
            names1("SKILL.md"),
        ),
    );
    r.push(
        source(
            "copilot-user",
            "GitHub Copilot",
            under1(home, ".copilot"),
            under2(home, ".copilot", "skills"),
            names1("SKILL.md"),
        ),
    );
    r.push(
        source(
            "cursor-user",
            "Cursor",
            under1(home, ".cursor"),
            under2(home, ".cursor", "skills"),
            names1("SKILL.md"),
        ),
    );
    r.push(
        source(
            "opencode-user",
            "OpenCode",
            under2(home, ".config", "opencode"),
            under3(home, ".config", "opencode", "skills"),
            names1("SKILL.md"),
        ),
    );
    r.push(
        source(
            "gemini-user",
            "Gemini CLI",
            under1(home, ".gemini"),
            under2(home, ".gemini", "skills"),
            names1("SKILL.md"),
        ),
    );
    r.push(
        source(
            "codex-user",
            "Codex",
            under1(home, ".codex"),
            under2(home, ".codex", "skills"),
            names1("SKILL.md"),
        ),
    );
    r.push(
        source(
            "trae-user",
            "Trae",
            under1(home, ".trae"),
            under2(home, ".trae", "skills"),
            names1("SKILL.md"),
        ),
    );
    r.push(
        source(
            "goose-user",
            "Goose",
            under2(home, ".config", "goose"),
            under3(home, ".config", "goose", "skills"),
            names1("SKILL.md"),
        ),
    );
    r.push(
        source(
            "standard-user",
            "Common Standard",
            under1(home, ".skills"),
            under1(home, ".skills"),
            names1("SKILL.md"),
        ),
    );
    let ag_install = ag.clone();
    let ag_root = join_path(ag.as_str(), "skills");
    r.push(source("antigravity-user", "Antigravity", ag_install, ag_root, names1("SKILL.md")));
    r.push(
        source(
            "kiro-user",
            "Kiro",
            under1(home, ".kiro"),
            under2(home, ".kiro", "skills"),
            names1("instructions.md"),
        ),
    );
    r.push(
        source(
            "qoder-user",
            "Qoder",
            under1(home, ".qoder"),
            under2(home, ".qoder", "skills"),
            names1("config.yaml"),
        ),
    );
    r.push(
        source(
            "codebuddy-user",
            "CodeBuddy",
            under1(home, ".codebuddy"),
            under2(home, ".codebuddy", "skills"),
            names2(".cb-rules", "SKILL.md"),
        ),
    );
    assert(sources_view(r@) =~= source_table(home@, agv));
    r
}

/// A tool installation with an MCP configuration file.
#[derive(Debug)]
pub struct McpSourceConfig {
    pub id: String,
    pub label: String,
    pub format: String,
    pub kind: McpKind,
    pub install_root: String,
    pub primary_path: String,
    pub read_paths: Vec<String>,
}

pub struct McpSourceV {
    pub id: Seq<char>,
    pub label: Seq<char>,
    pub format: Seq<char>,
    pub kind: McpKind,
    pub install_root: Seq<char>,
    pub primary_path: Seq<char>,
    pub read_paths: Seq<Seq<char>>,
}

impl McpSourceConfig {
    pub open spec fn view(&self) -> McpSourceV {
        McpSourceV {
            id: self.id@,
            label: self.label@,
            format: self.format@,
            kind: self.kind,
            install_root: self.install_root@,
            primary_path: self.primary_path@,
            read_paths: string_views(self.read_paths@),
        }
    }
}

pub open spec fn mcp_sources_view(s: Seq<McpSourceConfig>) -> Seq<McpSourceV> {
    s.map_values(|c: McpSourceConfig| c@)
}

/// The installations with an MCP configuration, in display order;
/// `ag_path` is the Antigravity file in use and `ag_dir` its directory.
pub open spec fn mcp_source_table(home: Seq<char>, ag_dir: Seq<char>, ag_path: Seq<char>) -> Seq<McpSourceV> {
    seq![
        McpSourceV {
            id: "roo"@,
            label: "Roo Code (Cline)"@,
            format: "json"@,
            kind: McpKind::ObjectJson,
            install_root: path_join(home, ".roo"@),
            primary_path: path_join(path_join(home, ".roo"@), "mcp.json"@),
            read_paths: seq![path_join(path_join(home, ".roo"@), "mcp.json"@)],
        },
        McpSourceV {
            id: "copilot"@,
            label: "GitHub Copilot"@,
            format: "json"@,
            kind: McpKind::ObjectJson,
            install_root: path_join(home, ".copilot"@),
            primary_path: path_join(path_join(home, ".copilot"@), "mcp.json"@),
            read_paths: seq![path_join(path_join(home, ".copilot"@), "mcp.json"@)],
        },
        McpSourceV {
            id: "cursor"@,
            label: "Cursor"@,
            format: "json"@,
            kind: McpKind::ObjectJson,
            install_root: path_join(home, ".cursor"@),
            primary_path: path_join(path_join(home, ".cursor"@), "mcp.json"@),
            read_paths: seq![path_join(path_join(home, ".cursor"@), "mcp.json"@)],
        },
        McpSourceV {
            id: "gemini"@,
            label: "Gemini CLI"@,
            format: "json"@,
            kind: McpKind::ObjectJson,
            install_root: path_join(home, ".gemini"@),
            primary_path: path_join(path_join(home, ".gemini"@), "settings.json"@),
            read_paths: seq![path_join(path_join(home, ".gemini"@), "settings.json"@), path_join(path_join(home, ".gemini"@), "mcp.json"@)],
        },
        McpSourceV {
            id: "codex"@,
            label: "Codex"@,
            format: "toml"@,
            kind: McpKind::CodexToml,
            install_root: path_join(home, ".codex"@),
            primary_path: path_join(path_join(home, ".codex"@), "config.toml"@),
            read_paths: seq![path_join(path_join(home, ".codex"@), "config.toml"@)],
        },
        McpSourceV {
            id: "opencode"@,
            label: "OpenCode"@,
            format: "json"@,
            kind: McpKind::OpenCodeJson,
            install_root: path_join(path_join(home, ".config"@), "opencode"@),
            primary_path: path_join(path_join(path_join(home, ".config"@), "opencode"@), "opencode.json"@),
            read_paths: seq![path_join(path_join(path_join(home, ".config"@), "opencode"@), "opencode.json"@)],
        },
        McpSourceV {
            id: "trae"@,
            label: "Trae"@,
            format: "json"@,
            kind: McpKind::ObjectJson,
            install_root: path_join(home, ".trae"@),
            primary_path: path_join(path_join(home, ".trae"@), "mcp.json"@),
            read_paths: seq![path_join(path_join(home, ".trae"@), "mcp.json"@)],
        },
        McpSourceV {
            id: "goose"@,
            label: "Goose"@,
            format: "json"@,
            kind: McpKind::ObjectJson,
            install_root: path_join(path_join(home, ".config"@), "goose"@),
            primary_path: path_join(path_join(path_join(home, ".config"@), "goose"@), "mcp.json"@),
            read_paths: seq![path_join(path_join(path_join(home, ".config"@), "goose"@), "mcp.json"@)],
        },
        McpSourceV {
            id: "antigravity"@,
            label: "Antigravity"@,
            format: "json"@,
            kind: McpKind::AntigravityJson,
            install_root: ag_dir,
            primary_path: ag_path,
            read_paths: seq![path_join(path_join(path_join(home, ".gemini"@), "antigravity"@), "mcp_config.json"@), path_join(path_join(home, ".antigravity"@), "mcp.json"@)],
        },
        McpSourceV {
            id: "kiro"@,
            label: "Kiro"@,
            format: "json"@,
            kind: McpKind::ObjectJson,
            install_root: path_join(home, ".kiro"@),
            primary_path: path_join(path_join(home, ".kiro"@), "mcp.json"@),
            read_paths: seq![path_join(path_join(home, ".kiro"@), "mcp.json"@)],
        },
        McpSourceV {
            id: "qoder"@,
            label: "Qoder"@,
            format: "json"@,
            kind: McpKind::ObjectJson,
            install_root: path_join(home, ".qoder"@),
            primary_path: path_join(path_join(home, ".qoder"@), "mcp.json"@),
            read_paths: seq![path_join(path_join(home, ".qoder"@), "mcp.json"@)],
        },
        McpSourceV {
            id: "codebuddy"@,
            label: "CodeBuddy"@,
            format: "json"@,
            kind: McpKind::ObjectJson,
            install_root: path_join(home, ".codebuddy"@),
            primary_path: path_join(path_join(home, ".codebuddy"@), "mcp.json"@),
            read_paths: seq![path_join(path_join(home, ".codebuddy"@), "mcp.json"@)],
        },
    ]
}

/// The Antigravity MCP file in use: the newer one when it exists or the
/// older one does not, else the older one.
pub open spec fn antigravity_mcp_path(home: Seq<char>, primary_exists: bool, legacy_exists: bool) -> Seq<char> {
    if primary_exists || !legacy_exists {
        path_join(antigravity_dir(home, true, false), "mcp_config.json"@)
    } else {
        path_join(antigravity_dir(home, false, true), "mcp.json"@)
    }
}

fn mcp_source(id: &str, label: &str, format: &str, kind: McpKind, install_root: String, primary_path: String, read_paths: Vec<String>) -> (r: McpSourceConfig)
    ensures
        r@ == (McpSourceV { id: id@, label: label@, format: format@, kind, install_root: install_root@, primary_path: primary_path@, read_paths: string_views(read_paths@) }),
{
    McpSourceConfig { id: id.to_owned(), label: label.to_owned(), format: format.to_owned(), kind, install_root, primary_path, read_paths }
}

fn paths2(a: String, b: String) -> (r: Vec<String>)
    ensures
        string_views(r@) == seq![a@, b@],
{
    let mut r: Vec<String> = Vec::new();
    r.push(a);
    r.push(b);
    assert(string_views(r@) =~= seq![a@, b@]);
    r
}

fn paths1(a: String) -> (r: Vec<String>)
    ensures
        string_views(r@) == seq![a@],
{
    let mut r: Vec<String> = Vec::new();
    r.push(a);
    assert(string_views(r@) =~= seq![a@]);
    r
}

/// The installations with an MCP configuration under `home`, given whether
/// the newer and the older Antigravity MCP files exist.
pub fn mcp_source_configs(home: &str, antigravity_primary_exists: bool, antigravity_legacy_exists: bool) -> (r: Vec<McpSourceConfig>)
    ensures
        mcp_sources_view(r@) == mcp_source_table(
            home@,
            antigravity_dir(home@, antigravity_primary_exists, antigravity_legacy_exists),
            antigravity_mcp_path(home@, antigravity_primary_exists, antigravity_legacy_exists),
        ),
{
    let g = join_path(home, ".gemini");
    let new_dir = join_path(g.as_str(), "antigravity");
    let old_dir = join_path(home, ".antigravity");
    let primary = join_path(new_dir.as_str(), "mcp_config.json");
    let legacy = join_path(old_dir.as_str(), "mcp.json");
    let use_new = antigravity_primary_exists || !antigravity_legacy_exists;
    let ag_dir = if use_new { new_dir.clone() } else { old_dir.clone() };
    let ag_path = if use_new { primary.clone() } else { legacy.clone() };
    let mut r: Vec<McpSourceConfig> = Vec::new();
    r.push(
        mcp_source(
            "roo",
            "Roo Code (Cline)",
            "json",
            McpKind::ObjectJson,
            under1(home, ".roo"),
            under2(home, ".roo", "mcp.json"),
            paths1(under2(home, ".roo", "mcp.json")),
        ),
    );
    r.push(
        mcp_source(
            "copilot",
            "GitHub Copilot",
            "json",
            McpKind::ObjectJson,
            under1(home, ".copilot"),
            under2(home, ".copilot", "mcp.json"),
            paths1(under2(home, ".copilot", "mcp.json")),
        ),
    );
    r.push(
        mcp_source(
            "cursor",
            "Cursor",
            "json",
            McpKind::ObjectJson,
            under1(home, ".cursor"),
            under2(home, ".cursor", "mcp.json"),
            paths1(under2(home, ".cursor", "mcp.json")),
        ),
    );
    r.push(
        mcp_source(
            "gemini",
            "Gemini CLI",
            "json",
            McpKind::ObjectJson,
            under1(home, ".gemini"),
            under2(home, ".gemini", "settings.json"),
            paths2(under2(home, ".gemini", "settings.json"), under2(home, ".gemini", "mcp.json")),
        ),
    );
    r.push(
        mcp_source(
            "codex",
            "Codex",
            "toml",
            McpKind::CodexToml,
            under1(home, ".codex"),
            under2(home, ".codex", "config.toml"),
            paths1(under2(home, ".codex", "config.toml")),
        ),
    );
    r.push(
        mcp_source(
            "opencode",
            "OpenCode",
            "json",
            McpKind::OpenCodeJson,
            under2(home, ".config", "opencode"),
            under3(home, ".config", "opencode", "opencode.json"),
            paths1(under3(home, ".config", "opencode", "opencode.json")),
        ),
    );
    r.push(
        mcp_source(
            "trae",
            "Trae",
            "json",
            McpKind::ObjectJson,
            under1(home, ".trae"),
            under2(home, ".trae", "mcp.json"),
            paths1(under2(home, ".trae", "mcp.json")),
        ),
    );
    r.push(
        mcp_source(
            "goose",
            "Goose",
            "json",
            McpKind::ObjectJson,
            under2(home, ".config", "goose"),
            under3(home, ".config", "goose", "mcp.json"),
            paths1(under3(home, ".config", "goose", "mcp.json")),
        ),
    );
    r.push(
        mcp_source(
            "antigravity",
            "Antigravity",
            "json",
            McpKind::AntigravityJson,
            ag_dir,
            ag_path,
            paths2(primary, legacy),
        ),
    );
    r.push(
        mcp_source(
            "kiro",
            "Kiro",
            "json",
            McpKind::ObjectJson,
            under1(home, ".kiro"),
            under2(home, ".kiro", "mcp.json"),
            paths1(under2(home, ".kiro", "mcp.json")),
        ),
    );
    r.push(
        mcp_source(
            "qoder",
            "Qoder",
            "json",
            McpKind::ObjectJson,
            under1(home, ".qoder"),
            under2(home, ".qoder", "mcp.json"),
            paths1(under2(home, ".qoder", "mcp.json")),
        ),
    );
    r.push(
        mcp_source(
            "codebuddy",
            "CodeBuddy",
            "json",
            McpKind::ObjectJson,
            under1(home, ".codebuddy"),
            under2(home, ".codebuddy", "mcp.json"),
            paths1(under2(home, ".codebuddy", "mcp.json")),
        ),
    );
    assert(mcp_sources_view(r@) =~= mcp_source_table(
        home@,
        antigravity_dir(home@, antigravity_primary_exists, antigravity_legacy_exists),
        antigravity_mcp_path(home@, antigravity_primary_exists, antigravity_legacy_exists),
    ));
    r
}

/// The file to read for a configuration: the first read path that exists
/// (`exists[i]` tells of `config.read_paths[i]`), else the primary path.
pub fn resolve_read_path(config: &McpSourceConfig, exists: &Vec<bool>) -> (r: String)
    requires
        exists@.len() == config.read_paths@.len(),
    ensures
        (exists|i: int| 0 <= i < exists@.len() && exists@[i]) ==> exists|i: int|
            0 <= i < exists@.len() && exists@[i] && (forall|j: int| 0 <= j < i ==> !exists@[j])
                && r@ == config.read_paths@[i]@,
        (forall|i: int| 0 <= i < exists@.len() ==> !exists@[i]) ==> r@ == config.primary_path@,
{
    let mut i: usize = 0;
    while i < config.read_paths.len()
        invariant
            i <= config.read_paths@.len() == exists@.len(),
            forall|j: int| 0 <= j < i ==> !exists@[j],
        decreases config.read_paths@.len() - i,
    {
        if exists[i] {
            return config.read_paths[i].clone();
        }
        i = i + 1;
    }
    config.primary_path.clone()
}

/// The core file of a skill directory: the first of `core_files` that is a
/// file there (`present[i]` tells of the i-th), with its path.
pub fn find_core_file(skill_dir: &str, core_files: &Vec<String>, present: &Vec<bool>) -> (r: Option<(String, String)>)
    requires
        present@.len() == core_files@.len(),
    ensures
        r is None <==> forall|i: int| 0 <= i < present@.len() ==> !present@[i],
        r matches Some((path, name)) ==> exists|i: int|
            0 <= i < present@.len() && present@[i] && (forall|j: int| 0 <= j < i ==> !present@[j])
                && name@ == core_files@[i]@ && path@ == path_join(skill_dir@, core_files@[i]@),
{
    let mut i: usize = 0;
    while i < core_files.len()
        invariant
            i <= core_files@.len() == present@.len(),
            forall|j: int| 0 <= j < i ==> !present@[j],
        decreases core_files@.len() - i,
    {
        if present[i] {
            let path = join_path(skill_dir, core_files[i].as_str());
            return Some((path, core_files[i].clone()));
        }
        i = i + 1;
    }
    None
}

/// Removes server `server_id` from a configuration's document. It fails, and
/// leaves the document as it was, when the root is not an object (table),
/// when there is no servers object (table), or when no server has that
/// identifier; otherwise only that entry goes.
pub fn delete_mcp_server_for_source(config: &McpSourceConfig, doc: &mut NativeDocument, server_id: &str) -> (r: Result<(), McpError>)
    ensures
        r is Err <==> delete_error(config.kind, *old(doc), server_id@) is Some,
        r matches Err(e) ==> delete_error(config.kind, *old(doc), server_id@) == Some(e) && *final(doc)
            == *old(doc),
        r is Ok ==> deleted(config.kind, *old(doc), *final(doc), server_id@),
{
    crate::servers::delete_mcp_server(config.kind, doc, server_id)
}

/// The installation with identifier `id`, if any.
pub fn find_source(sources: &Vec<SourceConfig>, id: &str) -> (r: Option<usize>)
    ensures
        r matches Some(i) ==> i < sources@.len() && sources@[i as int].id@ == id@ && forall|j: int|
            0 <= j < i ==> sources@[j].id@ != id@,
        r is None ==> forall|j: int| 0 <= j < sources@.len() ==> sources@[j].id@ != id@,
{
    let mut i: usize = 0;
    while i < sources.len()
        invariant
            i <= sources@.len(),
            forall|j: int| 0 <= j < i ==> sources@[j].id@ != id@,
        decreases sources@.len() - i,
    {
        if crate::text::str_eq(sources[i].id.as_str(), id) {
            return Some(i);
        }
        i = i + 1;
    }
    None
}

/// The configuration with identifier `id`, if any.
pub fn find_mcp_source(configs: &Vec<McpSourceConfig>, id: &str) -> (r: Option<usize>)
    ensures
        r matches Some(i) ==> i < configs@.len() && configs@[i as int].id@ == id@ && forall|j: int|
            0 <= j < i ==> configs@[j].id@ != id@,
        r is None ==> forall|j: int| 0 <= j < configs@.len() ==> configs@[j].id@ != id@,
{
    let mut i: usize = 0;
    while i < configs.len()
        invariant
            i <= configs@.len(),
            forall|j: int| 0 <= j < i ==> configs@[j].id@ != id@,
        decreases configs@.len() - i,
    {
        if crate::text::str_eq(configs[i].id.as_str(), id) {
            return Some(i);
        }
        i = i + 1;
    }
    None
}

/// Whether a configuration is listed: its tool is installed, or one of its
/// files (`read_exists[i]` tells of the i-th read path) exists.
pub fn mcp_source_visible(install_root_is_dir: bool, read_exists: &Vec<bool>, primary_exists: bool) -> (r: bool)
    ensures
        r == (install_root_is_dir || primary_exists || exists|i: int| 0 <= i < read_exists@.len() && read_exists@[i]),
{
    if install_root_is_dir || primary_exists {
        return true;
    }
    let mut i: usize = 0;
    while i < read_exists.len()
        invariant
            i <= read_exists@.len(),
            forall|j: int| 0 <= j < i ==> !read_exists@[j],
        decreases read_exists@.len() - i,
    {
        if read_exists[i] {
            return true;
        }
        i = i + 1;
    }
    false
}

} // verus!
