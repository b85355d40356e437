//! Reading, adding and removing MCP server entries inside a tool's native
//! document, through the canonical record. Every write keeps the other
//! top-level keys and the other entries as they were.
use vstd::prelude::*;
use crate::json::{
    Json, JsonV, json_valid, entries_valid, copy_entries, entries_map, entries_view, find_key, lemma_object_view, obj_get,
    obj_map, put_key, remove_key,
};
use crate::normalize::{
    lemma_antigravity_round_trip, lemma_opencode_round_trip, opencode_faithful, k_server_url,
    antigravity_to_std, antigravity_to_standard_config, opencode_to_std,
    opencode_to_standard_config, standard_to_antigravity_config, standard_to_opencode_config,
    std_to_antigravity, std_to_opencode,
};
use crate::text::{seq_lt, str_lt, lemma_seq_lt_total, string_views};
use crate::sync::{lemma_staged_contains, staged, sync_plan, SyncResult};
use crate::toml_value::{
    Toml, TomlV, lemma_json_toml_round_trip, toml_representable, copy_table, find_table_key, has_null, json_of_toml, json_to_toml,
    lemma_table_view, put_table_key, remove_table_key, table_map, table_view, toml_of_json,
    toml_to_json,
};

verus! {

/// The shape of a tool's MCP configuration file.
#[derive(Debug, Clone, Copy, PartialEq, Eq, Structural)]
pub enum McpKind {
    /// A TOML document with a `mcp_servers` table.
    CodexToml,
    /// A JSON document with a `mcpServers` object of canonical records.
    ObjectJson,
    /// A JSON document with a `mcpServers` object whose records say `serverUrl`.
    AntigravityJson,
    /// A JSON document with a `mcp` object whose records hold the command as an array.
    OpenCodeJson,
}

/// A parsed native configuration document.
#[derive(Debug)]
pub enum NativeDocument {
    Json(Json),
    Toml(Toml),
}

/// A server entry in canonical form.
#[derive(Debug)]
pub struct McpServer {
    pub id: String,
    pub config: Json,
}

#[derive(Debug, Clone, Copy, PartialEq, Eq, Structural)]
pub enum McpError {
    /// The document's root is not an object (a table).
    InvalidFormat,
    /// The servers key holds something other than an object (a table).
    InvalidContainer,
    /// A record holds a null, which TOML cannot.
    NullValue,
    /// A record is not an object.
    ConfigNotObject,
    /// The document has no servers key.
    NoServers,
    /// No server has the identifier.
    NotFound,
    /// An imported document lacks the `mcpServers` object.
    MissingServers,
}

impl McpError {
    pub fn message(&self, kind: McpKind) -> (r: &'static str)
        ensures
            r@ == (match *self {
                McpError::InvalidFormat => match kind {
                    McpKind::CodexToml => "Invalid config format"@,
                    _ => "Invalid JSON format"@,
                },
                McpError::InvalidContainer => match kind {
                    McpKind::CodexToml => "Invalid mcp_servers format"@,
                    McpKind::OpenCodeJson => "Invalid mcp format"@,
                    _ => "Invalid mcpServers format"@,
                },
                McpError::NullValue => "Null values are not supported"@,
                McpError::ConfigNotObject => "MCP server config must be an object"@,
                McpError::NoServers => match kind {
                    McpKind::CodexToml => "No MCP servers configured"@,
                    McpKind::OpenCodeJson => "No mcp configured"@,
                    _ => "No mcpServers configured"@,
                },
                McpError::NotFound => "MCP server not found"@,
                McpError::MissingServers => "mcpServers object missing"@,
            }),
    {
        match self {
            McpError::InvalidFormat => match kind {
                McpKind::CodexToml => "Invalid config format",
                _ => "Invalid JSON format",
            },
            McpError::InvalidContainer => match kind {
                McpKind::CodexToml => "Invalid mcp_servers format",
                McpKind::OpenCodeJson => "Invalid mcp format",
                _ => "Invalid mcpServers format",
            },
            McpError::NullValue => "Null values are not supported",
            McpError::ConfigNotObject => "MCP server config must be an object",
            McpError::NoServers => match kind {
                McpKind::CodexToml => "No MCP servers configured",
                McpKind::OpenCodeJson => "No mcp configured",
                _ => "No mcpServers configured",
            },
            McpError::NotFound => "MCP server not found",
            McpError::MissingServers => "mcpServers object missing",
        }
    }
}

/// The top-level key under which a kind of document keeps its servers.
pub open spec fn kind_key(kind: McpKind) -> Seq<char> {
    match kind {
        McpKind::CodexToml => "mcp_servers"@,
        McpKind::OpenCodeJson => "mcp"@,
        _ => "mcpServers"@,
    }
}

/// The servers key of a kind of document.
pub fn container_name(kind: McpKind) -> (r: &'static str)
    ensures
        r@ == kind_key(kind),
{
    match kind {
        McpKind::CodexToml => "mcp_servers",
        McpKind::OpenCodeJson => "mcp",
        _ => "mcpServers",
    }
}

/// The document that an absent or blank file stands for.
pub fn empty_document(kind: McpKind) -> (r: NativeDocument)
    ensures
        kind is CodexToml ==> (r matches NativeDocument::Toml(Toml::Table(es)) && es@.len() == 0),
        !(kind is CodexToml) ==> (r matches NativeDocument::Json(Json::Object(es)) && es@.len() == 0),
{
    match kind {
        McpKind::CodexToml => NativeDocument::Toml(Toml::Table(Vec::new())),
        _ => NativeDocument::Json(Json::Object(Vec::new())),
    }
}

/// The servers object of a JSON document, when its root is an object that has one.
pub open spec fn json_container(kind: McpKind, doc: NativeDocument) -> Option<Seq<(Seq<char>, JsonV)>> {
    match doc {
        NativeDocument::Json(Json::Object(es)) => match obj_get(es@, kind_key(kind)) {
            Some(JsonV::Object(s)) => Some(s),
            _ => None,
        },
        _ => None,
    }
}

/// The servers table of a TOML document, when its root is a table that has one.
pub open spec fn toml_container(doc: NativeDocument) -> Option<Seq<(Seq<char>, TomlV)>> {
    match doc {
        NativeDocument::Toml(Toml::Table(es)) => if table_map(es@).contains_key("mcp_servers"@) {
            match table_map(es@)["mcp_servers"@] {
                TomlV::Table(s) => Some(s),
                _ => None,
            }
        } else {
            None
        },
        _ => None,
    }
}

/// Whether a document's numbers are as its format holds them; a TOML
/// document always is, a JSON one when its value is valid.
pub open spec fn document_valid(doc: NativeDocument) -> bool {
    match doc {
        NativeDocument::Json(j) => json_valid(j),
        NativeDocument::Toml(_) => true,
    }
}

/// The servers of a TOML document by identifier; none without a servers table.
pub open spec fn toml_servers(doc: NativeDocument) -> Map<Seq<char>, TomlV> {
    match toml_container(doc) {
        Some(s) => entries_map(s),
        None => Map::empty(),
    }
}

/// The servers of a JSON document by identifier; none without a servers object.
pub open spec fn json_servers(kind: McpKind, doc: NativeDocument) -> Map<Seq<char>, JsonV> {
    match json_container(kind, doc) {
        Some(s) => entries_map(s),
        None => Map::empty(),
    }
}

/// Whether `config` is the canonical record of the native JSON record `native`.
pub open spec fn canonical_json(kind: McpKind, native: JsonV, config: Json) -> bool {
    match kind {
        McpKind::AntigravityJson => match native {
            JsonV::Object(s) => match config {
                Json::Object(out) => obj_map(out@) == antigravity_to_std(entries_map(s)),
                _ => false,
            },
            _ => config@ == native,
        },
        McpKind::OpenCodeJson => match native {
            JsonV::Object(s) => match config {
                Json::Object(out) => obj_map(out@) == opencode_to_std(entries_map(s)),
                _ => false,
            },
            _ => config@ == native,
        },
        _ => config@ == native,
    }
}

pub open spec fn sorted_ids(s: Seq<McpServer>) -> bool {
    forall|i: int| 0 <= i < s.len() - 1 ==> seq_lt(s[i].id@, #[trigger] s[i + 1].id@)
}

pub open spec fn distinct_ids(s: Seq<McpServer>) -> bool {
    forall|i: int, j: int| 0 <= i < j < s.len() ==> s[i].id@ != s[j].id@
}

/// The servers a document holds, in canonical form, once each, sorted by identifier.
pub open spec fn lists_servers(kind: McpKind, doc: NativeDocument, r: Seq<McpServer>) -> bool {
    &&& sorted_ids(r)
    &&& distinct_ids(r)
    &&& if kind is CodexToml {
        let m = toml_servers(doc);
        &&& forall|i: int|
            0 <= i < r.len() ==> m.contains_key(#[trigger] r[i].id@) && r[i].config@ == json_of_toml(
                m[r[i].id@],
            )
        &&& forall|k: Seq<char>| m.contains_key(k) ==> exists|i: int| 0 <= i < r.len() && #[trigger] r[i].id@ == k
    } else {
        let m = json_servers(kind, doc);
        &&& forall|i: int|
            0 <= i < r.len() ==> m.contains_key(#[trigger] r[i].id@) && canonical_json(
                kind,
                m[r[i].id@],
                r[i].config,
            )
        &&& forall|k: Seq<char>| m.contains_key(k) ==> exists|i: int| 0 <= i < r.len() && #[trigger] r[i].id@ == k
    }
}

fn find_id(list: &Vec<McpServer>, id: &String) -> (r: Option<usize>)
    ensures
        r matches Some(k) ==> k < list@.len() && list@[k as int].id@ == id@,
        r is None ==> forall|j: int| 0 <= j < list@.len() ==> list@[j].id@ != id@,
{
    let mut k: usize = 0;
    while k < list.len()
        invariant
            k <= list@.len(),
            forall|j: int| 0 <= j < k ==> list@[j].id@ != id@,
        decreases list@.len() - k,
    {
        if list[k].id == *id {
            return Some(k);
        }
        k = k + 1;
    }
    None
}

/// Puts the entry for `id` into a list sorted by identifier, replacing one
/// with the same identifier.
fn insert_sorted(list: &mut Vec<McpServer>, id: String, config: Json)
    requires
        sorted_ids(old(list)@),
        distinct_ids(old(list)@),
    ensures
        sorted_ids(final(list)@),
        distinct_ids(final(list)@),
        exists|i: int| 0 <= i < final(list)@.len() && final(list)@[i].id@ == id@ && final(list)@[i].config == config,
        forall|i: int|
            0 <= i < final(list)@.len() ==> (final(list)@[i].id@ == id@ && final(list)@[i].config == config) || exists|
                j: int,
            | 0 <= j < old(list)@.len() && old(list)@[j] == final(list)@[i] && old(list)@[j].id@ != id@,
        forall|j: int|
            0 <= j < old(list)@.len() && old(list)@[j].id@ != id@ ==> exists|i: int|
                0 <= i < final(list)@.len() && final(list)@[i] == old(list)@[j],
{
    let ghost before = list@;
    match find_id(list, &id) {
        Some(k) => {
            let _old = list.remove(k);
            let ghost idv = id@;
            list.insert(k, McpServer { id, config });
            assert(list@ == before.update(k as int, list@[k as int]));
            assert forall|i: int| 0 <= i < list@.len() implies #[trigger] list@[i].id@ == before[i].id@ by {
                if i == k {
                    assert(before[i].id@ == idv);
                }
            }
            assert forall|i: int| 0 <= i < list@.len() - 1 implies seq_lt(list@[i].id@, #[trigger] list@[i + 1].id@) by {
                assert(list@[i].id@ == before[i].id@);
                assert(list@[i + 1].id@ == before[i + 1].id@);
                assert(seq_lt(before[i].id@, before[i + 1].id@));
            }
            assert forall|i: int, j: int| 0 <= i < j < list@.len() implies list@[i].id@ != list@[j].id@ by {
                assert(before[i].id@ == list@[i].id@);
                assert(before[j].id@ == list@[j].id@);
            }
            assert(list@[k as int].id@ == idv);
            assert forall|j: int| 0 <= j < before.len() && before[j].id@ != idv implies exists|i: int|
                0 <= i < list@.len() && list@[i] == before[j] by {
                assert(list@[j] == before[j]);
            }
            assert forall|i: int| 0 <= i < list@.len() && !(list@[i].id@ == idv && list@[i].config == config) implies exists|
                j: int,
            | 0 <= j < before.len() && before[j] == list@[i] && before[j].id@ != idv by {
                assert(i != k);
                assert(before[i] == list@[i]);
            }
            return;
        },
        None => {},
    }
    let mut p: usize = 0;
    while p < list.len() && str_lt(list[p].id.as_str(), id.as_str())
        invariant
            p <= list@.len(),
            list@ == before,
            sorted_ids(before),
            distinct_ids(before),
            forall|j: int| 0 <= j < before.len() ==> before[j].id@ != id@,
            forall|j: int| 0 <= j < p ==> seq_lt(#[trigger] before[j].id@, id@),
        decreases list@.len() - p,
    {
        p = p + 1;
    }
    proof {
        if p < before.len() {
            lemma_seq_lt_total(before[p as int].id@, id@);
        }
    }
    let ghost idv = id@;
    list.insert(p, McpServer { id, config });
    assert(list@ == before.insert(p as int, list@[p as int]));
    assert forall|i: int| 0 <= i < list@.len() - 1 implies seq_lt(list@[i].id@, #[trigger] list@[i + 1].id@) by {
        if i + 1 < p {
            assert(list@[i] == before[i] && list@[i + 1] == before[i + 1]);
            assert(seq_lt(before[i].id@, before[i + 1].id@));
        } else if i + 1 == p {
            assert(list@[i] == before[i]);
            assert(seq_lt(before[i].id@, idv));
        } else if i == p {
            assert(list@[i + 1] == before[i]);
        } else {
            assert(list@[i] == before[i - 1] && list@[i + 1] == before[i]);
            let im = i - 1;
            assert(seq_lt(before[im].id@, before[im + 1].id@));
        }
    }
    assert forall|i: int, j: int| 0 <= i < j < list@.len() implies list@[i].id@ != list@[j].id@ by {
        if i < p && j < p {
            assert(list@[i] == before[i] && list@[j] == before[j]);
        } else if i < p && j == p {
            assert(list@[i] == before[i]);
        } else if i < p {
            assert(list@[i] == before[i] && list@[j] == before[j - 1]);
        } else if i == p {
            assert(list@[j] == before[j - 1]);
        } else {
            assert(list@[i] == before[i - 1] && list@[j] == before[j - 1]);
        }
    }
    assert forall|j: int| 0 <= j < before.len() && before[j].id@ != idv implies exists|i: int|
        0 <= i < list@.len() && list@[i] == before[j] by {
        if j < p {
            assert(list@[j] == before[j]);
        } else {
            assert(list@[j + 1] == before[j]);
        }
    }
    assert forall|i: int| 0 <= i < list@.len() && !(list@[i].id@ == idv && list@[i].config == config) implies exists|
        j: int,
    | 0 <= j < before.len() && before[j] == list@[i] && before[j].id@ != idv by {
        if i < p {
            assert(before[i] == list@[i]);
        } else {
            assert(i != p);
            assert(before[i - 1] == list@[i]);
        }
    }
}

/// The canonical record of one native JSON record.
fn canonical_of(kind: McpKind, native: &Json) -> (r: Json)
    ensures
        canonical_json(kind, native@, r),
        json_valid(*native) ==> json_valid(r),
{
    proof {
        match native {
            Json::Object(es) => lemma_object_view(*es),
            _ => {},
        }
    }
    match kind {
        McpKind::AntigravityJson => antigravity_to_standard_config(native),
        McpKind::OpenCodeJson => opencode_to_standard_config(native),
        _ => native.deep_copy(),
    }
}

proof fn lemma_obj_map_prefix(es: Seq<(String, Json)>, i: int)
    requires
        0 <= i < es.len(),
    ensures
        obj_map(es.subrange(0, i + 1)) == obj_map(es.subrange(0, i)).insert(es[i].0@, es[i].1@),
{
    assert(es.subrange(0, i + 1) =~= es.subrange(0, i).push(es[i]));
    crate::json::lemma_entries_view_push(es.subrange(0, i), es[i].0, es[i].1);
}

proof fn lemma_table_map_prefix(es: Seq<(String, Toml)>, i: int)
    requires
        0 <= i < es.len(),
    ensures
        table_map(es.subrange(0, i + 1)) == table_map(es.subrange(0, i)).insert(es[i].0@, es[i].1@),
{
    assert(es.subrange(0, i + 1) =~= es.subrange(0, i).push(es[i]));
    assert(table_view(es.subrange(0, i).push(es[i])) =~= table_view(es.subrange(0, i)).push(
        (es[i].0@, es[i].1@),
    ));
    assert(table_view(es.subrange(0, i)).push((es[i].0@, es[i].1@)).drop_last() =~= table_view(
        es.subrange(0, i),
    ));
}

fn read_json_servers(kind: McpKind, ss: &Vec<(String, Json)>) -> (r: Vec<McpServer>)
    requires
        !(kind is CodexToml),
    ensures
        sorted_ids(r@),
        distinct_ids(r@),
        forall|i: int|
            0 <= i < r@.len() ==> obj_map(ss@).contains_key(#[trigger] r@[i].id@) && canonical_json(
                kind,
                obj_map(ss@)[r@[i].id@],
                r@[i].config,
            ),
        forall|k: Seq<char>|
            obj_map(ss@).contains_key(k) ==> exists|i: int| 0 <= i < r@.len() && #[trigger] r@[i].id@ == k,
        entries_valid(ss@) ==> forall|i: int| 0 <= i < r@.len() ==> json_valid(#[trigger] r@[i].config),
{
    let ghost valid = entries_valid(ss@);
    let mut list: Vec<McpServer> = Vec::new();
    let mut i: usize = 0;
    assert(obj_map(ss@.subrange(0, 0)) =~= Map::<Seq<char>, JsonV>::empty()) by {
        assert(entries_view(ss@.subrange(0, 0)) =~= Seq::<(Seq<char>, JsonV)>::empty());
    }
    while i < ss.len()
        invariant
            i <= ss@.len(),
            sorted_ids(list@),
            distinct_ids(list@),
            forall|j: int|
                0 <= j < list@.len() ==> obj_map(ss@.subrange(0, i as int)).contains_key(
                    #[trigger] list@[j].id@,
                ) && canonical_json(kind, obj_map(ss@.subrange(0, i as int))[list@[j].id@], list@[j].config),
            forall|k: Seq<char>|
                obj_map(ss@.subrange(0, i as int)).contains_key(k) ==> exists|j: int|
                    0 <= j < list@.len() && #[trigger] list@[j].id@ == k,
            valid == entries_valid(ss@),
            valid ==> forall|j: int| 0 <= j < list@.len() ==> json_valid(#[trigger] list@[j].config),
        decreases ss@.len() - i,
    {
        let ghost mi = obj_map(ss@.subrange(0, i as int));
        let ghost before = list@;
        proof {
            lemma_obj_map_prefix(ss@, i as int);
        }
        let ghost key = ss@[i as int].0@;
        let ghost val = ss@[i as int].1@;
        let conv = canonical_of(kind, &ss[i].1);
        let ghost cv = conv;
        assert(valid ==> json_valid(ss@[i as int].1));
        insert_sorted(&mut list, ss[i].0.clone(), conv);
        assert(valid ==> forall|j: int| 0 <= j < list@.len() ==> json_valid(#[trigger] list@[j].config)) by {
            if valid {
                assert forall|j: int| 0 <= j < list@.len() implies json_valid(#[trigger] list@[j].config) by {
                    if !(list@[j].id@ == key && list@[j].config == cv) {
                        let jj = choose|jj: int| 0 <= jj < before.len() && before[jj] == list@[j] && before[jj].id@ != key;
                        assert(json_valid(before[jj].config));
                    }
                }
            }
        }
        let ghost mn = obj_map(ss@.subrange(0, i + 1));
        assert(mn == mi.insert(key, val));
        assert forall|j: int| 0 <= j < list@.len() implies mn.contains_key(#[trigger] list@[j].id@)
            && canonical_json(kind, mn[list@[j].id@], list@[j].config) by {
            if list@[j].id@ == key && list@[j].config == cv {
            } else {
                let jj = choose|jj: int| 0 <= jj < before.len() && before[jj] == list@[j] && before[jj].id@ != key;
                assert(mi.contains_key(before[jj].id@));
            }
        }
        assert forall|k: Seq<char>| mn.contains_key(k) implies exists|j: int|
            0 <= j < list@.len() && #[trigger] list@[j].id@ == k by {
            if k != key {
                assert(mi.contains_key(k));
                let jj = choose|jj: int| 0 <= jj < before.len() && #[trigger] before[jj].id@ == k;
                let j2 = choose|j2: int| 0 <= j2 < list@.len() && list@[j2] == before[jj];
                assert(list@[j2].id@ == k);
            } else {
                let j2 = choose|j2: int| 0 <= j2 < list@.len() && list@[j2].id@ == key && list@[j2].config == cv;
                assert(list@[j2].id@ == k);
            }
        }
        i = i + 1;
    }
    assert(ss@.subrange(0, ss@.len() as int) =~= ss@);
    list
}

fn read_toml_servers(ts: &Vec<(String, Toml)>) -> (r: Vec<McpServer>)
    ensures
        sorted_ids(r@),
        distinct_ids(r@),
        forall|i: int|
            0 <= i < r@.len() ==> table_map(ts@).contains_key(#[trigger] r@[i].id@) && r@[i].config@
                == json_of_toml(table_map(ts@)[r@[i].id@]),
        forall|k: Seq<char>|
            table_map(ts@).contains_key(k) ==> exists|i: int| 0 <= i < r@.len() && #[trigger] r@[i].id@ == k,
        forall|i: int| 0 <= i < r@.len() ==> json_valid(#[trigger] r@[i].config),
{
    let mut list: Vec<McpServer> = Vec::new();
    let mut i: usize = 0;
    assert(table_map(ts@.subrange(0, 0)) =~= Map::<Seq<char>, TomlV>::empty()) by {
        assert(table_view(ts@.subrange(0, 0)) =~= Seq::<(Seq<char>, TomlV)>::empty());
    }
    while i < ts.len()
        invariant
            i <= ts@.len(),
            sorted_ids(list@),
            distinct_ids(list@),
            forall|j: int|
                0 <= j < list@.len() ==> table_map(ts@.subrange(0, i as int)).contains_key(
                    #[trigger] list@[j].id@,
                ) && list@[j].config@ == json_of_toml(table_map(ts@.subrange(0, i as int))[list@[j].id@]),
            forall|k: Seq<char>|
                table_map(ts@.subrange(0, i as int)).contains_key(k) ==> exists|j: int|
                    0 <= j < list@.len() && #[trigger] list@[j].id@ == k,
            forall|j: int| 0 <= j < list@.len() ==> json_valid(#[trigger] list@[j].config),
        decreases ts@.len() - i,
    {
        let ghost mi = table_map(ts@.subrange(0, i as int));
        let ghost before = list@;
        proof {
            lemma_table_map_prefix(ts@, i as int);
        }
        let ghost key = ts@[i as int].0@;
        let ghost val = ts@[i as int].1@;
        let conv = toml_to_json(&ts[i].1);
        let ghost cv = conv;
        insert_sorted(&mut list, ts[i].0.clone(), conv);
        assert forall|j: int| 0 <= j < list@.len() implies json_valid(#[trigger] list@[j].config) by {
            if !(list@[j].id@ == key && list@[j].config == cv) {
                let jj = choose|jj: int| 0 <= jj < before.len() && before[jj] == list@[j] && before[jj].id@ != key;
                assert(json_valid(before[jj].config));
            }
        }
        let ghost mn = table_map(ts@.subrange(0, i + 1));
        assert(mn == mi.insert(key, val));
        assert forall|j: int| 0 <= j < list@.len() implies mn.contains_key(#[trigger] list@[j].id@)
            && list@[j].config@ == json_of_toml(mn[list@[j].id@]) by {
            if list@[j].id@ == key && list@[j].config == cv {
            } else {
                let jj = choose|jj: int| 0 <= jj < before.len() && before[jj] == list@[j] && before[jj].id@ != key;
                assert(mi.contains_key(before[jj].id@));
            }
        }
        assert forall|k: Seq<char>| mn.contains_key(k) implies exists|j: int|
            0 <= j < list@.len() && #[trigger] list@[j].id@ == k by {
            if k != key {
                assert(mi.contains_key(k));
                let jj = choose|jj: int| 0 <= jj < before.len() && #[trigger] before[jj].id@ == k;
                let j2 = choose|j2: int| 0 <= j2 < list@.len() && list@[j2] == before[jj];
                assert(list@[j2].id@ == k);
            } else {
                let j2 = choose|j2: int| 0 <= j2 < list@.len() && list@[j2].id@ == key && list@[j2].config == cv;
                assert(list@[j2].id@ == k);
            }
        }
        i = i + 1;
    }
    assert(ts@.subrange(0, ts@.len() as int) =~= ts@);
    list
}

/// The servers of a native document in canonical form, sorted by identifier;
/// keys other than the servers key are not read.
pub fn read_mcp_servers(kind: McpKind, doc: &NativeDocument) -> (r: Vec<McpServer>)
    ensures
        lists_servers(kind, *doc, r@),
        document_valid(*doc) ==> forall|i: int| 0 <= i < r@.len() ==> json_valid(#[trigger] r@[i].config),
{
    let key = container_name(kind);
    match kind {
        McpKind::CodexToml => match doc {
            NativeDocument::Toml(Toml::Table(es)) => match find_table_key(es, key) {
                Some(i) => match &es[i].1 {
                    Toml::Table(ts) => {
                        proof {
                            lemma_table_view(*ts);
                        }
                        return read_toml_servers(ts);
                    },
                    _ => {},
                },
                None => {},
            },
            _ => {},
        },
        _ => match doc {
            NativeDocument::Json(Json::Object(es)) => match find_key(es, key) {
                Some(i) => match &es[i].1 {
                    Json::Object(ss) => {
                        proof {
                            lemma_object_view(*ss);
                        }
                        assert(obj_get(es@, kind_key(kind)) == Some(JsonV::Object(entries_view(ss@))));
                        assert(json_container(kind, *doc) == Some(entries_view(ss@)));
                        assert(document_valid(*doc) ==> json_valid(es@[i as int].1));
                        assert(json_valid(es@[i as int].1) ==> entries_valid(ss@));
                        let r = read_json_servers(kind, ss);
                        assert(entries_map(entries_view(ss@)) == obj_map(ss@));
                        return r;
                    },
                    _ => {},
                },
                None => {},
            },
            _ => {},
        },
    }
    Vec::new()
}

/// Whether a canonical record can be written in the kind's native form.
pub open spec fn convertible(kind: McpKind, config: Json) -> bool {
    match kind {
        McpKind::CodexToml => !has_null(config),
        McpKind::ObjectJson => true,
        _ => config is Object,
    }
}

pub open spec fn conversion_error(kind: McpKind) -> McpError {
    if kind is CodexToml {
        McpError::NullValue
    } else {
        McpError::ConfigNotObject
    }
}

/// Whether a record among the first `n` has the identifier `k`.
pub open spec fn has_id(servers: Seq<(String, Json)>, n: int, k: Seq<char>) -> bool {
    exists|j: int| 0 <= j < n && #[trigger] servers[j].0@ == k
}

/// Whether no later record has the identifier of record `i`: that one is written last.
pub open spec fn last_with_id(servers: Seq<(String, Json)>, i: int) -> bool {
    forall|j: int| i < j < servers.len() ==> #[trigger] servers[j].0@ != servers[i].0@
}

/// Why an upsert of `servers` into `doc` fails, if it does: a root that is
/// not an object (table), then a servers key that holds something else,
/// then a record that the format cannot hold.
pub open spec fn upsert_error(kind: McpKind, doc: NativeDocument, servers: Seq<(String, Json)>) -> Option<
    McpError,
> {
    let bad = exists|i: int| 0 <= i < servers.len() && !convertible(kind, #[trigger] servers[i].1);
    if kind is CodexToml {
        match doc {
            NativeDocument::Toml(Toml::Table(es)) => if table_map(es@).contains_key(kind_key(kind))
                && !(table_map(es@)[kind_key(kind)] is Table) {
                Some(McpError::InvalidContainer)
            } else if bad {
                Some(conversion_error(kind))
            } else {
                None
            },
            _ => Some(McpError::InvalidFormat),
        }
    } else {
        match doc {
            NativeDocument::Json(Json::Object(es)) => if obj_map(es@).contains_key(kind_key(kind))
                && !(obj_map(es@)[kind_key(kind)] is Object) {
                Some(McpError::InvalidContainer)
            } else if bad {
                Some(conversion_error(kind))
            } else {
                None
            },
            _ => Some(McpError::InvalidFormat),
        }
    }
}

/// Whether `native` is the kind's native JSON form of the canonical record `config`.
pub open spec fn native_json(kind: McpKind, config: Json, native: JsonV) -> bool {
    match kind {
        McpKind::AntigravityJson => match config {
            Json::Object(es) => match native {
                JsonV::Object(s) => entries_map(s) == std_to_antigravity(obj_map(es@)),
                _ => false,
            },
            _ => false,
        },
        McpKind::OpenCodeJson => match config {
            Json::Object(es) => match native {
                JsonV::Object(s) => entries_map(s) == std_to_opencode(obj_map(es@)),
                _ => false,
            },
            _ => false,
        },
        _ => native == config@,
    }
}

/// The servers map after writing `servers` over `before`: the identifiers of
/// both, the old entries that are not written kept as they were.
pub open spec fn merged_keys<V>(before: Map<Seq<char>, V>, after: Map<Seq<char>, V>, servers: Seq<(String, Json)>, n: int) -> bool {
    &&& forall|k: Seq<char>| #[trigger] after.contains_key(k) <==> (before.contains_key(k) || has_id(servers, n, k))
    &&& forall|k: Seq<char>| before.contains_key(k) && !has_id(servers, n, k) ==> #[trigger] after[k] == before[k]
}

pub open spec fn json_written(kind: McpKind, after: Map<Seq<char>, JsonV>, servers: Seq<(String, Json)>, n: int) -> bool {
    forall|i: int|
        0 <= i < n && last_with_id(servers.subrange(0, n), i) ==> native_json(
            kind,
            servers[i].1,
            #[trigger] after[servers[i].0@],
        )
}

pub open spec fn toml_written(after: Map<Seq<char>, TomlV>, servers: Seq<(String, Json)>, n: int) -> bool {
    forall|i: int|
        0 <= i < n && last_with_id(servers.subrange(0, n), i) ==> #[trigger] after[servers[i].0@]
            == toml_of_json(servers[i].1@)
}

/// What an upsert leaves in a document: every top-level key but the servers
/// key as it was, and the servers merged.
pub open spec fn upserted(kind: McpKind, before: NativeDocument, after: NativeDocument, servers: Seq<(String, Json)>) -> bool {
    let key = kind_key(kind);
    match (before, after) {
        (NativeDocument::Json(Json::Object(es1)), NativeDocument::Json(Json::Object(es2))) => {
            let m1 = obj_map(es1@);
            let m2 = obj_map(es2@);
            let c1 = if m1.contains_key(key) {
                entries_map(m1[key]->Object_0)
            } else {
                Map::empty()
            };
            &&& !(kind is CodexToml)
            &&& (m1.contains_key(key) ==> m1[key] is Object)
            &&& m2.remove(key) == m1.remove(key)
            &&& m2.contains_key(key)
            &&& m2[key] is Object
            &&& merged_keys(c1, entries_map(m2[key]->Object_0), servers, servers.len() as int)
            &&& json_written(kind, entries_map(m2[key]->Object_0), servers, servers.len() as int)
        },
        (NativeDocument::Toml(Toml::Table(es1)), NativeDocument::Toml(Toml::Table(es2))) => {
            let m1 = table_map(es1@);
            let m2 = table_map(es2@);
            let c1 = if m1.contains_key(key) {
                entries_map(m1[key]->Table_0)
            } else {
                Map::empty()
            };
            &&& kind is CodexToml
            &&& (m1.contains_key(key) ==> m1[key] is Table)
            &&& m2.remove(key) == m1.remove(key)
            &&& m2.contains_key(key)
            &&& m2[key] is Table
            &&& merged_keys(c1, entries_map(m2[key]->Table_0), servers, servers.len() as int)
            &&& toml_written(entries_map(m2[key]->Table_0), servers, servers.len() as int)
        },
        _ => false,
    }
}

/// The native JSON form of one canonical record.
fn native_of(kind: McpKind, config: &Json) -> (r: Result<Json, McpError>)
    requires
        !(kind is CodexToml),
    ensures
        r is Ok <==> convertible(kind, *config),
        r matches Ok(n) ==> native_json(kind, *config, n@),
        r matches Err(e) ==> e == McpError::ConfigNotObject,
{
    let r = match kind {
        McpKind::AntigravityJson => standard_to_antigravity_config(config),
        McpKind::OpenCodeJson => standard_to_opencode_config(config),
        _ => {
            return Ok(config.deep_copy());
        },
    };
    match r {
        Ok(n) => {
            proof {
                if n is Object {
                    lemma_object_view(n->Object_0);
                }
            }
            Ok(n)
        },
        Err(_) => Err(McpError::ConfigNotObject),
    }
}

proof fn lemma_has_id_step(servers: Seq<(String, Json)>, i: int, k: Seq<char>)
    requires
        0 <= i < servers.len(),
    ensures
        has_id(servers, i + 1, k) <==> (has_id(servers, i, k) || servers[i].0@ == k),
{
    if has_id(servers, i + 1, k) && servers[i].0@ != k {
        let j = choose|j: int| 0 <= j < i + 1 && #[trigger] servers[j].0@ == k;
        assert(j < i);
    }
}

fn upsert_json(kind: McpKind, es: &Vec<(String, Json)>, servers: &Vec<(String, Json)>) -> (r: Result<
    Vec<(String, Json)>,
    McpError,
>)
    requires
        !(kind is CodexToml),
    ensures
        r is Err <==> upsert_error(kind, NativeDocument::Json(Json::Object(*es)), servers@) is Some,
        r matches Err(e) ==> upsert_error(kind, NativeDocument::Json(Json::Object(*es)), servers@) == Some(e),
        r matches Ok(es2) ==> upserted(
            kind,
            NativeDocument::Json(Json::Object(*es)),
            NativeDocument::Json(Json::Object(es2)),
            servers@,
        ),
{
    let key = container_name(kind);
    let ghost m1 = obj_map(es@);
    let mut container: Vec<(String, Json)> = match find_key(es, key) {
        Some(i) => match &es[i].1 {
            Json::Object(ss) => {
                proof {
                    lemma_object_view(*ss);
                }
                copy_entries(ss)
            },
            _ => {
                return Err(McpError::InvalidContainer);
            },
        },
        None => {
            let v: Vec<(String, Json)> = Vec::new();
            assert(entries_view(v@) =~= Seq::<(Seq<char>, JsonV)>::empty());
            v
        },
    };
    let ghost c1 = obj_map(container@);
    assert(c1 == if m1.contains_key(kind_key(kind)) {
        entries_map(m1[kind_key(kind)]->Object_0)
    } else {
        Map::<Seq<char>, JsonV>::empty()
    });
    let mut i: usize = 0;
    while i < servers.len()
        invariant
            i <= servers@.len(),
            !(kind is CodexToml),
            m1 == obj_map(es@),
            !(m1.contains_key(kind_key(kind)) && !(m1[kind_key(kind)] is Object)),
            merged_keys(c1, obj_map(container@), servers@, i as int),
            json_written(kind, obj_map(container@), servers@, i as int),
            forall|j: int| 0 <= j < i ==> convertible(kind, #[trigger] servers@[j].1),
        decreases servers@.len() - i,
    {
        let ghost before = obj_map(container@);
        let native = match native_of(kind, &servers[i].1) {
            Ok(n) => n,
            Err(e) => {
                assert(!convertible(kind, servers@[i as int].1));
                return Err(e);
            },
        };
        let ghost nv = native@;
        let ghost k = servers@[i as int].0@;
        put_key(&mut container, servers[i].0.clone(), native);
        let ghost after = obj_map(container@);
        assert(after == before.insert(k, nv));
        assert forall|x: Seq<char>| #[trigger] after.contains_key(x) <==> (c1.contains_key(x) || has_id(servers@, i + 1, x)) by {
            lemma_has_id_step(servers@, i as int, x);
        }
        assert forall|x: Seq<char>| c1.contains_key(x) && !has_id(servers@, i + 1, x) implies #[trigger] after[x] == c1[x] by {
            lemma_has_id_step(servers@, i as int, x);
        }
        assert forall|j: int| 0 <= j < i + 1 && last_with_id(servers@.subrange(0, i + 1), j) implies native_json(
            kind,
            servers@[j].1,
            #[trigger] after[servers@[j].0@],
        ) by {
            if j < i {
                assert(servers@.subrange(0, i + 1)[i as int] == servers@[i as int]);
                assert(servers@[j].0@ != k);
                assert(last_with_id(servers@.subrange(0, i as int), j)) by {
                    assert forall|jj: int| j < jj < i implies #[trigger] servers@.subrange(0, i as int)[jj].0@ != servers@.subrange(0, i as int)[j].0@ by {
                        assert(servers@.subrange(0, i + 1)[jj] == servers@[jj]);
                    }
                }
            }
        }
        i = i + 1;
    }
    assert(servers@.subrange(0, servers@.len() as int) =~= servers@);
    assert(!(exists|j: int| 0 <= j < servers@.len() && !convertible(kind, #[trigger] servers@[j].1)));
    let ghost cm = obj_map(container@);
    let mut root = copy_entries(es);
    let cv = Json::Object(container);
    proof {
        lemma_object_view(container);
    }
    put_key(&mut root, key.to_owned(), cv);
    assert(obj_map(root@).remove(kind_key(kind)) =~= m1.remove(kind_key(kind)));
    Ok(root)
}

proof fn lemma_table_empty(v: Vec<(String, Toml)>)
    requires
        v@.len() == 0,
    ensures
        table_map(v@) == Map::<Seq<char>, TomlV>::empty(),
{
    assert(table_view(v@) =~= Seq::<(Seq<char>, TomlV)>::empty());
}

fn upsert_toml(es: &Vec<(String, Toml)>, servers: &Vec<(String, Json)>) -> (r: Result<
    Vec<(String, Toml)>,
    McpError,
>)
    ensures
        r is Err <==> upsert_error(McpKind::CodexToml, NativeDocument::Toml(Toml::Table(*es)), servers@) is Some,
        r matches Err(e) ==> upsert_error(McpKind::CodexToml, NativeDocument::Toml(Toml::Table(*es)), servers@) == Some(e),
        r matches Ok(es2) ==> upserted(
            McpKind::CodexToml,
            NativeDocument::Toml(Toml::Table(*es)),
            NativeDocument::Toml(Toml::Table(es2)),
            servers@,
        ),
{
    let kind = McpKind::CodexToml;
    let key = container_name(kind);
    let ghost m1 = table_map(es@);
    let mut container: Vec<(String, Toml)> = match find_table_key(es, key) {
        Some(i) => match &es[i].1 {
            Toml::Table(ts) => {
                proof {
                    lemma_table_view(*ts);
                }
                copy_table(ts)
            },
            _ => {
                return Err(McpError::InvalidContainer);
            },
        },
        None => {
            let v: Vec<(String, Toml)> = Vec::new();
            proof {
                lemma_table_empty(v);
            }
            v
        },
    };
    let ghost c1 = table_map(container@);
    assert(c1 == if m1.contains_key(kind_key(kind)) {
        entries_map(m1[kind_key(kind)]->Table_0)
    } else {
        Map::<Seq<char>, TomlV>::empty()
    });
    let mut i: usize = 0;
    while i < servers.len()
        invariant
            i <= servers@.len(),
            kind == McpKind::CodexToml,
            m1 == table_map(es@),
            !(m1.contains_key(kind_key(kind)) && !(m1[kind_key(kind)] is Table)),
            merged_keys(c1, table_map(container@), servers@, i as int),
            toml_written(table_map(container@), servers@, i as int),
            forall|j: int| 0 <= j < i ==> convertible(kind, #[trigger] servers@[j].1),
        decreases servers@.len() - i,
    {
        let ghost before = table_map(container@);
        let native = match json_to_toml(&servers[i].1) {
            Ok(n) => n,
            Err(_) => {
                assert(!convertible(kind, servers@[i as int].1));
                return Err(McpError::NullValue);
            },
        };
        let ghost nv = native@;
        let ghost k = servers@[i as int].0@;
        put_table_key(&mut container, servers[i].0.clone(), native);
        let ghost after = table_map(container@);
        assert(after == before.insert(k, nv));
        assert forall|x: Seq<char>| #[trigger] after.contains_key(x) <==> (c1.contains_key(x) || has_id(servers@, i + 1, x)) by {
            lemma_has_id_step(servers@, i as int, x);
        }
        assert forall|x: Seq<char>| c1.contains_key(x) && !has_id(servers@, i + 1, x) implies #[trigger] after[x] == c1[x] by {
            lemma_has_id_step(servers@, i as int, x);
        }
        assert forall|j: int| 0 <= j < i + 1 && last_with_id(servers@.subrange(0, i + 1), j) implies #[trigger] after[servers@[j].0@]
            == toml_of_json(servers@[j].1@) by {
            if j < i {
                assert(servers@.subrange(0, i + 1)[i as int] == servers@[i as int]);
                assert(servers@[j].0@ != k);
                assert(last_with_id(servers@.subrange(0, i as int), j)) by {
                    assert forall|jj: int| j < jj < i implies #[trigger] servers@.subrange(0, i as int)[jj].0@ != servers@.subrange(0, i as int)[j].0@ by {
                        assert(servers@.subrange(0, i + 1)[jj] == servers@[jj]);
                    }
                }
            }
        }
        i = i + 1;
    }
    assert(servers@.subrange(0, servers@.len() as int) =~= servers@);
    assert(!(exists|j: int| 0 <= j < servers@.len() && !convertible(kind, #[trigger] servers@[j].1)));
    let mut root = copy_table(es);
    let cv = Toml::Table(container);
    proof {
        lemma_table_view(container);
    }
    put_table_key(&mut root, key.to_owned(), cv);
    assert(table_map(root@).remove(kind_key(kind)) =~= m1.remove(kind_key(kind)));
    Ok(root)
}

/// Writes canonical `servers` into a native document: the servers key is
/// found or created, each record is stored in native form under its
/// identifier (a later record for an identifier wins), and every other
/// top-level key stays as it was. On failure the document is not changed.
pub fn upsert_mcp_servers(kind: McpKind, doc: &mut NativeDocument, servers: &Vec<(String, Json)>) -> (r: Result<(), McpError>)
    ensures
        r is Err <==> upsert_error(kind, *old(doc), servers@) is Some,
        r matches Err(e) ==> upsert_error(kind, *old(doc), servers@) == Some(e) && *final(doc) == *old(doc),
        r is Ok ==> upserted(kind, *old(doc), *final(doc), servers@),
{
    match kind {
        McpKind::CodexToml => {
            let out = match &*doc {
                NativeDocument::Toml(Toml::Table(es)) => upsert_toml(es, servers),
                _ => {
                    return Err(McpError::InvalidFormat);
                },
            };
            match out {
                Ok(es2) => {
                    *doc = NativeDocument::Toml(Toml::Table(es2));
                    Ok(())
                },
                Err(e) => Err(e),
            }
        },
        _ => {
            let out = match &*doc {
                NativeDocument::Json(Json::Object(es)) => upsert_json(kind, es, servers),
                _ => {
                    return Err(McpError::InvalidFormat);
                },
            };
            match out {
                Ok(es2) => {
                    *doc = NativeDocument::Json(Json::Object(es2));
                    Ok(())
                },
                Err(e) => Err(e),
            }
        },
    }
}

/// Why deleting `id` from `doc` fails, if it does: a root that is not an
/// object (table), then no servers object (table), then no server `id`.
pub open spec fn delete_error(kind: McpKind, doc: NativeDocument, id: Seq<char>) -> Option<McpError> {
    if kind is CodexToml {
        match doc {
            NativeDocument::Toml(Toml::Table(es)) => match toml_container(doc) {
                Some(s) => if entries_map(s).contains_key(id) {
                    None
                } else {
                    Some(McpError::NotFound)
                },
                None => Some(McpError::NoServers),
            },
            _ => Some(McpError::InvalidFormat),
        }
    } else {
        match doc {
            NativeDocument::Json(Json::Object(es)) => match json_container(kind, doc) {
                Some(s) => if entries_map(s).contains_key(id) {
                    None
                } else {
                    Some(McpError::NotFound)
                },
                None => Some(McpError::NoServers),
            },
            _ => Some(McpError::InvalidFormat),
        }
    }
}

/// What a delete leaves in a document: every top-level key but the servers
/// key as it was, and the servers without `id`.
pub open spec fn deleted(kind: McpKind, before: NativeDocument, after: NativeDocument, id: Seq<char>) -> bool {
    let key = kind_key(kind);
    match (before, after) {
        (NativeDocument::Json(Json::Object(es1)), NativeDocument::Json(Json::Object(es2))) => {
            &&& !(kind is CodexToml)
            &&& obj_map(es2@).remove(key) == obj_map(es1@).remove(key)
            &&& json_container(kind, after) matches Some(s2)
            &&& json_container(kind, before) matches Some(s1)
            &&& entries_map(s2) == entries_map(s1).remove(id)
        },
        (NativeDocument::Toml(Toml::Table(es1)), NativeDocument::Toml(Toml::Table(es2))) => {
            &&& kind is CodexToml
            &&& table_map(es2@).remove(key) == table_map(es1@).remove(key)
            &&& toml_container(after) matches Some(s2)
            &&& toml_container(before) matches Some(s1)
            &&& entries_map(s2) == entries_map(s1).remove(id)
        },
        _ => false,
    }
}

fn delete_json(kind: McpKind, es: &Vec<(String, Json)>, id: &str) -> (r: Result<Vec<(String, Json)>, McpError>)
    requires
        !(kind is CodexToml),
    ensures
        r is Err <==> delete_error(kind, NativeDocument::Json(Json::Object(*es)), id@) is Some,
        r matches Err(e) ==> delete_error(kind, NativeDocument::Json(Json::Object(*es)), id@) == Some(e),
        r matches Ok(es2) ==> deleted(kind, NativeDocument::Json(Json::Object(*es)), NativeDocument::Json(Json::Object(es2)), id@),
{
    let key = container_name(kind);
    let mut container = match find_key(es, key) {
        Some(i) => match &es[i].1 {
            Json::Object(ss) => {
                proof {
                    lemma_object_view(*ss);
                }
                copy_entries(ss)
            },
            _ => {
                return Err(McpError::NoServers);
            },
        },
        None => {
            return Err(McpError::NoServers);
        },
    };
    if find_key(&container, id).is_none() {
        return Err(McpError::NotFound);
    }
    remove_key(&mut container, id);
    let mut root = copy_entries(es);
    let ghost cm = obj_map(container@);
    proof {
        lemma_object_view(container);
    }
    put_key(&mut root, key.to_owned(), Json::Object(container));
    assert(obj_map(root@).remove(kind_key(kind)) =~= obj_map(es@).remove(kind_key(kind)));
    Ok(root)
}

fn delete_toml(es: &Vec<(String, Toml)>, id: &str) -> (r: Result<Vec<(String, Toml)>, McpError>)
    ensures
        r is Err <==> delete_error(McpKind::CodexToml, NativeDocument::Toml(Toml::Table(*es)), id@) is Some,
        r matches Err(e) ==> delete_error(McpKind::CodexToml, NativeDocument::Toml(Toml::Table(*es)), id@) == Some(e),
        r matches Ok(es2) ==> deleted(McpKind::CodexToml, NativeDocument::Toml(Toml::Table(*es)), NativeDocument::Toml(Toml::Table(es2)), id@),
{
    let key = container_name(McpKind::CodexToml);
    let mut container = match find_table_key(es, key) {
        Some(i) => match &es[i].1 {
            Toml::Table(ts) => {
                proof {
                    lemma_table_view(*ts);
                }
                copy_table(ts)
            },
            _ => {
                return Err(McpError::NoServers);
            },
        },
        None => {
            return Err(McpError::NoServers);
        },
    };
    if find_table_key(&container, id).is_none() {
        return Err(McpError::NotFound);
    }
    remove_table_key(&mut container, id);
    let mut root = copy_table(es);
    proof {
        lemma_table_view(container);
    }
    put_table_key(&mut root, key.to_owned(), Toml::Table(container));
    assert(table_map(root@).remove(kind_key(McpKind::CodexToml)) =~= table_map(es@).remove(kind_key(McpKind::CodexToml)));
    Ok(root)
}

/// Removes server `id` from a native document; on failure the document is
/// not changed.
pub fn delete_mcp_server(kind: McpKind, doc: &mut NativeDocument, id: &str) -> (r: Result<(), McpError>)
    ensures
        r is Err <==> delete_error(kind, *old(doc), id@) is Some,
        r matches Err(e) ==> delete_error(kind, *old(doc), id@) == Some(e) && *final(doc) == *old(doc),
        r is Ok ==> deleted(kind, *old(doc), *final(doc), id@),
{
    match kind {
        McpKind::CodexToml => {
            let out = match &*doc {
                NativeDocument::Toml(Toml::Table(es)) => delete_toml(es, id),
                _ => {
                    return Err(McpError::InvalidFormat);
                },
            };
            match out {
                Ok(es2) => {
                    *doc = NativeDocument::Toml(Toml::Table(es2));
                    Ok(())
                },
                Err(e) => Err(e),
            }
        },
        _ => {
            let out = match &*doc {
                NativeDocument::Json(Json::Object(es)) => delete_json(kind, es, id),
                _ => {
                    return Err(McpError::InvalidFormat);
                },
            };
            match out {
                Ok(es2) => {
                    *doc = NativeDocument::Json(Json::Object(es2));
                    Ok(())
                },
                Err(e) => Err(e),
            }
        },
    }
}

/// The servers of an imported document: the entries of its `mcpServers` object.
pub fn parse_mcp_json(value: &Json) -> (r: Result<Vec<(String, Json)>, McpError>)
    ensures
        r is Ok <==> (value matches Json::Object(es) && obj_get(es@, "mcpServers"@) matches Some(
            JsonV::Object(_),
        )),
        r matches Err(e) ==> e == McpError::MissingServers,
        r matches Ok(v) ==> (value matches Json::Object(es) && obj_get(es@, "mcpServers"@) matches Some(
            JsonV::Object(s),
        ) && entries_view(v@) == s),
{
    match value {
        Json::Object(es) => match find_key(es, "mcpServers") {
            Some(i) => match &es[i].1 {
                Json::Object(ss) => {
                    proof {
                        lemma_object_view(*ss);
                    }
                    Ok(copy_entries(ss))
                },
                _ => Err(McpError::MissingServers),
            },
            None => Err(McpError::MissingServers),
        },
        _ => Err(McpError::MissingServers),
    }
}

pub open spec fn ids_of(s: Seq<McpServer>) -> Seq<Seq<char>> {
    s.map_values(|m: McpServer| m.id@)
}

fn id_list(s: &Vec<McpServer>) -> (r: Vec<String>)
    ensures
        string_views(r@) == ids_of(s@),
{
    let mut r: Vec<String> = Vec::new();
    let mut i: usize = 0;
    while i < s.len()
        invariant
            i <= s@.len(),
            string_views(r@) == ids_of(s@.subrange(0, i as int)),
        decreases s@.len() - i,
    {
        let ghost before = r@;
        let id = s[i].id.clone();
        assert(id@ == s@[i as int].id@);
        r.push(id);
        assert(string_views(r@) =~= string_views(before).push(s@[i as int].id@));
        assert(ids_of(s@.subrange(0, i + 1)) =~= ids_of(s@.subrange(0, i as int)).push(s@[i as int].id@));
        i = i + 1;
    }
    assert(s@.subrange(0, s@.len() as int) =~= s@);
    r
}

/// The servers that merging `source` into `target` adds (those whose
/// identifier the target lacks, each once, in source order), and the counts.
pub fn plan_mcp_sync(source: &Vec<McpServer>, target: &Vec<McpServer>) -> (r: (Vec<(String, Json)>, SyncResult))
    ensures
        r.0@.len() == staged(ids_of(source@), ids_of(target@)).len(),
        r.1.added == r.0@.len(),
        r.1.added + r.1.skipped == source@.len(),
        forall|k: int|
            0 <= k < r.0@.len() ==> #[trigger] r.0@[k].0@ == staged(ids_of(source@), ids_of(target@))[k]
                && exists|i: int| 0 <= i < source@.len() && source@[i].id@ == r.0@[k].0@ && source@[i].config@ == r.0@[k].1@,
{
    let sids = id_list(source);
    let tids = id_list(target);
    let plan = sync_plan(&sids, &tids);
    let ghost st = staged(ids_of(source@), ids_of(target@));
    let mut out: Vec<(String, Json)> = Vec::new();
    let mut k: usize = 0;
    while k < plan.to_add.len()
        invariant
            k <= plan.to_add@.len(),
            plan.to_add@.len() == st.len(),
            string_views(sids@) == ids_of(source@),
            st == staged(ids_of(source@), ids_of(target@)),
            sids@.len() == source@.len(),
            forall|j: int|
                0 <= j < plan.to_add@.len() ==> #[trigger] plan.to_add@[j] < sids@.len()
                    && sids@[plan.to_add@[j] as int]@ == st[j],
            out@.len() == k,
            forall|j: int|
                0 <= j < k ==> #[trigger] out@[j].0@ == st[j] && exists|i: int|
                    0 <= i < source@.len() && source@[i].id@ == out@[j].0@ && source@[i].config@ == out@[j].1@,
        decreases plan.to_add@.len() - k,
    {
        let idx = plan.to_add[k];
        assert(plan.to_add@[k as int] < sids@.len());
        assert(string_views(sids@)[idx as int] == source@[idx as int].id@);
        let id = source[idx].id.clone();
        let config = source[idx].config.deep_copy();
        out.push((id, config));
        assert(out@[k as int].0@ == st[k as int]);
        k = k + 1;
    }
    (out, plan.result)
}

/// Whether a canonical record survives the kind's native form unchanged:
/// always for the plain object format; without a `serverUrl` of its own for
/// the URL-renaming format; see `opencode_faithful` for the command-array
/// format; when TOML can hold it for the TOML format.
pub open spec fn survives(kind: McpKind, c: Json) -> bool {
    match c {
        Json::Object(es) => match kind {
            McpKind::ObjectJson => true,
            McpKind::AntigravityJson => !obj_map(es@).contains_key(k_server_url()),
            McpKind::OpenCodeJson => opencode_faithful(obj_map(es@)),
            McpKind::CodexToml => toml_representable(c),
        },
        _ => false,
    }
}

/// For every format, a canonical record written in native form (as an
/// upsert stores it) and read back (as listing the servers gives it) is
/// the same record, field by field, whenever the format can hold it.
pub proof fn lemma_server_round_trip(kind: McpKind, c: Json, native_json_value: JsonV, native_toml_value: TomlV, back: Json)
    requires
        json_valid(c),
        survives(kind, c),
        kind is CodexToml ==> native_toml_value == toml_of_json(c@) && back@ == json_of_toml(native_toml_value),
        !(kind is CodexToml) ==> native_json(kind, c, native_json_value) && canonical_json(kind, native_json_value, back),
    ensures
        back matches Json::Object(out) && (c matches Json::Object(es) && obj_map(out@) == obj_map(es@)),
{
    let es = c->Object_0;
    lemma_object_view(es);
    match kind {
        McpKind::CodexToml => {
            lemma_json_toml_round_trip(c);
            assert(back@ == c@);
            if back is Object {
                lemma_object_view(back->Object_0);
                assert(entries_view(back->Object_0@) == entries_view(es@));
            } else {
                assert(false);
            }
        },
        McpKind::ObjectJson => {
            assert(back@ == c@);
            if back is Object {
                lemma_object_view(back->Object_0);
                assert(entries_view(back->Object_0@) == entries_view(es@));
            } else {
                assert(false);
            }
        },
        McpKind::AntigravityJson => {
            lemma_antigravity_round_trip(obj_map(es@));
        },
        McpKind::OpenCodeJson => {
            lemma_opencode_round_trip(obj_map(es@));
        },
    }
}

proof fn lemma_upserted_entry(
    kind: McpKind,
    before: NativeDocument,
    after: NativeDocument,
    servers: Seq<(String, Json)>,
    i: int,
)
    requires
        upserted(kind, before, after, servers),
        0 <= i < servers.len(),
        last_with_id(servers, i),
    ensures
        !(kind is CodexToml) ==> json_servers(kind, after).contains_key(servers[i].0@) && native_json(
            kind,
            servers[i].1,
            json_servers(kind, after)[servers[i].0@],
        ),
        kind is CodexToml ==> toml_servers(after).contains_key(servers[i].0@) && toml_servers(after)[servers[i].0@]
            == toml_of_json(servers[i].1@),
{
    let key = kind_key(kind);
    let id = servers[i].0@;
    let n = servers.len() as int;
    assert(servers.subrange(0, n) =~= servers);
    assert(has_id(servers, n, id));
    if kind is CodexToml {
        let m2 = table_map(after->Toml_0->Table_0@);
        assert(toml_container(after) == Some(m2[key]->Table_0));
    } else {
        let m2 = obj_map(after->Json_0->Object_0@);
        assert(json_container(kind, after) == Some(m2[key]->Object_0));
    }
}

proof fn lemma_listed_toml(doc: NativeDocument, listed: Seq<McpServer>, k: Seq<char>)
    requires
        lists_servers(McpKind::CodexToml, doc, listed),
        toml_servers(doc).contains_key(k),
    ensures
        exists|j: int|
            0 <= j < listed.len() && #[trigger] listed[j].id@ == k && listed[j].config@ == json_of_toml(
                toml_servers(doc)[k],
            ),
{
    let j = choose|j: int| 0 <= j < listed.len() && #[trigger] listed[j].id@ == k;
    assert(listed[j].config@ == json_of_toml(toml_servers(doc)[listed[j].id@]));
}

proof fn lemma_listed_json(kind: McpKind, doc: NativeDocument, listed: Seq<McpServer>, k: Seq<char>)
    requires
        !(kind is CodexToml),
        lists_servers(kind, doc, listed),
        json_servers(kind, doc).contains_key(k),
    ensures
        exists|j: int|
            0 <= j < listed.len() && #[trigger] listed[j].id@ == k && canonical_json(
                kind,
                json_servers(kind, doc)[k],
                listed[j].config,
            ),
{
    let j = choose|j: int| 0 <= j < listed.len() && #[trigger] listed[j].id@ == k;
    assert(canonical_json(kind, json_servers(kind, doc)[listed[j].id@], listed[j].config));
}

/// After an upsert of `servers` into a document, listing the document's
/// servers gives back, under each identifier written, the record written
/// last under it, field by field, whenever the format can hold it.
pub proof fn lemma_upsert_then_read(
    kind: McpKind,
    before: NativeDocument,
    after: NativeDocument,
    servers: Seq<(String, Json)>,
    listed: Seq<McpServer>,
    i: int,
)
    requires
        upserted(kind, before, after, servers),
        lists_servers(kind, after, listed),
        0 <= i < servers.len(),
        last_with_id(servers, i),
        json_valid(servers[i].1),
        survives(kind, servers[i].1),
    ensures
        exists|j: int|
            0 <= j < listed.len() && #[trigger] listed[j].id@ == servers[i].0@ && (listed[j].config matches Json::Object(
                out,
            ) && (servers[i].1 matches Json::Object(es) && obj_map(out@) == obj_map(es@))),
{
    let id = servers[i].0@;
    let c = servers[i].1;
    lemma_upserted_entry(kind, before, after, servers, i);
    if kind is CodexToml {
        lemma_listed_toml(after, listed, id);
        let m = toml_servers(after);
        let j = choose|j: int|
            0 <= j < listed.len() && #[trigger] listed[j].id@ == id && listed[j].config@ == json_of_toml(m[id]);
        lemma_server_round_trip(kind, c, JsonV::Null, m[id], listed[j].config);
    } else {
        lemma_listed_json(kind, after, listed, id);
        let m = json_servers(kind, after);
        let j = choose|j: int|
            0 <= j < listed.len() && #[trigger] listed[j].id@ == id && canonical_json(kind, m[id], listed[j].config);
        lemma_server_round_trip(kind, c, m[id], TomlV::Boolean(false), listed[j].config);
    }
}

proof fn lemma_has_id_staged(to_insert: Seq<(String, Json)>, st: Seq<Seq<char>>, k: Seq<char>)
    requires
        to_insert.len() == st.len(),
        forall|j: int| 0 <= j < st.len() ==> #[trigger] to_insert[j].0@ == st[j],
    ensures
        has_id(to_insert, to_insert.len() as int, k) <==> st.contains(k),
{
    if st.contains(k) {
        let j = choose|j: int| 0 <= j < st.len() && st[j] == k;
        assert(to_insert[j].0@ == k);
    }
    if has_id(to_insert, to_insert.len() as int, k) {
        let j = choose|j: int| 0 <= j < to_insert.len() && #[trigger] to_insert[j].0@ == k;
        assert(st[j] == k);
    }
}

/// Writing the servers that a merge stages (those of `source_ids` that
/// `target_ids` lacks) into a target document that lists `target_ids`
/// leaves it listing the identifiers of both, each target entry unchanged.
pub proof fn lemma_mcp_sync_document(
    kind: McpKind,
    before: NativeDocument,
    after: NativeDocument,
    to_insert: Seq<(String, Json)>,
    source_ids: Seq<Seq<char>>,
    target_ids: Seq<Seq<char>>,
)
    requires
        upserted(kind, before, after, to_insert),
        to_insert.len() == staged(source_ids, target_ids).len(),
        forall|j: int| 0 <= j < to_insert.len() ==> #[trigger] to_insert[j].0@ == staged(source_ids, target_ids)[j],
        kind is CodexToml ==> toml_servers(before).dom() == target_ids.to_set(),
        !(kind is CodexToml) ==> json_servers(kind, before).dom() == target_ids.to_set(),
    ensures
        kind is CodexToml ==> toml_servers(after).dom() == target_ids.to_set() + source_ids.to_set()
            && forall|k: Seq<char>| #[trigger] target_ids.contains(k) ==> toml_servers(after)[k] == toml_servers(before)[k],
        !(kind is CodexToml) ==> json_servers(kind, after).dom() == target_ids.to_set() + source_ids.to_set()
            && forall|k: Seq<char>| #[trigger] target_ids.contains(k) ==> json_servers(kind, after)[k] == json_servers(kind, before)[k],
{
    let st = staged(source_ids, target_ids);
    let n = to_insert.len() as int;
    let key = kind_key(kind);
    assert forall|k: Seq<char>| has_id(to_insert, n, k) <==> (source_ids.contains(k) && !target_ids.contains(k)) by {
        lemma_has_id_staged(to_insert, st, k);
        lemma_staged_contains(source_ids, target_ids, k);
    }
    if kind is CodexToml {
        let m1 = table_map(before->Toml_0->Table_0@);
        let m2 = table_map(after->Toml_0->Table_0@);
        assert(toml_container(after) == Some(m2[key]->Table_0));
        if m1.contains_key(key) {
            assert(toml_container(before) == Some(m1[key]->Table_0));
        }
        assert(toml_servers(after).dom() =~= target_ids.to_set() + source_ids.to_set());
    } else {
        let m1 = obj_map(before->Json_0->Object_0@);
        let m2 = obj_map(after->Json_0->Object_0@);
        assert(json_container(kind, after) == Some(m2[key]->Object_0));
        if m1.contains_key(key) {
            assert(json_container(kind, before) == Some(m1[key]->Object_0));
        }
        assert(json_servers(kind, after).dom() =~= target_ids.to_set() + source_ids.to_set());
    }
}

} // verus!
