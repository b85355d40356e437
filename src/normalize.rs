//! Conversions between the canonical server record and the native records
//! of the formats that rename its fields. A record is an object; its
//! meaning is the map its entries make.
use vstd::prelude::*;
use crate::json::{
    Json, JsonV, json_valid, entries_valid, entries_view, find_key, items_view, lemma_array_view,
    lemma_entries_view_push, obj_map, put_key, remove_key,
};
use crate::text::str_eq;

verus! {

pub open spec fn k_command() -> Seq<char> {
    "command"@
}

pub open spec fn k_args() -> Seq<char> {
    "args"@
}

pub open spec fn k_url() -> Seq<char> {
    "url"@
}

pub open spec fn k_env() -> Seq<char> {
    "env"@
}

pub open spec fn k_environment() -> Seq<char> {
    "environment"@
}

pub open spec fn k_type() -> Seq<char> {
    "type"@
}

pub open spec fn k_enabled() -> Seq<char> {
    "enabled"@
}

pub open spec fn k_server_url() -> Seq<char> {
    "serverUrl"@
}

pub proof fn lemma_keys_distinct()
    ensures
        k_command() != k_args(),
        k_command() != k_url(),
        k_command() != k_env(),
        k_command() != k_environment(),
        k_command() != k_type(),
        k_command() != k_enabled(),
        k_args() != k_url(),
        k_args() != k_env(),
        k_args() != k_environment(),
        k_args() != k_type(),
        k_args() != k_enabled(),
        k_url() != k_env(),
        k_url() != k_environment(),
        k_url() != k_type(),
        k_url() != k_enabled(),
        k_env() != k_environment(),
        k_env() != k_type(),
        k_env() != k_enabled(),
        k_environment() != k_type(),
        k_environment() != k_enabled(),
        k_type() != k_enabled(),
        k_server_url() != k_url(),
        k_server_url() != k_command(),
        k_server_url() != k_args(),
        k_server_url() != k_env(),
        k_server_url() != k_environment(),
        k_server_url() != k_type(),
        k_server_url() != k_enabled(),
{
    reveal_strlit("command");
    reveal_strlit("args");
    reveal_strlit("url");
    reveal_strlit("env");
    reveal_strlit("environment");
    reveal_strlit("type");
    reveal_strlit("enabled");
    reveal_strlit("serverUrl");
    assert(k_url()[0] != k_env()[0]);
    assert(k_args()[0] != k_type()[0]);
    assert(k_command()[0] != k_enabled()[0]);
    assert(k_env().len() != k_environment().len());
    assert(k_env().len() != k_enabled().len());
}

/// The string items of a sequence, in order.
pub open spec fn str_items(xs: Seq<JsonV>) -> Seq<JsonV>
    decreases xs.len(),
{
    if xs.len() == 0 {
        xs
    } else {
        let p = str_items(xs.drop_last());
        if xs.last() is Str {
            p.push(xs.last())
        } else {
            p
        }
    }
}

/// The keys that the command-array format maps rather than passes through.
pub open spec fn opencode_mapped() -> Set<Seq<char>> {
    set![k_command(), k_url(), k_enabled(), k_type(), k_env(), k_environment()]
}

pub open spec fn copy_key(out: Map<Seq<char>, JsonV>, m: Map<Seq<char>, JsonV>, k: Seq<char>) -> Map<
    Seq<char>,
    JsonV,
> {
    if m.contains_key(k) {
        out.insert(k, m[k])
    } else {
        out
    }
}

/// The canonical `command` and `args` of a native command value: a string
/// stays the command; an array whose first item is a string gives that
/// command and its other string items as `args`, when there are any.
pub open spec fn command_fields(out: Map<Seq<char>, JsonV>, m: Map<Seq<char>, JsonV>) -> Map<
    Seq<char>,
    JsonV,
> {
    if !m.contains_key(k_command()) {
        out
    } else {
        match m[k_command()] {
            JsonV::Str(s) => out.insert(k_command(), JsonV::Str(s)),
            JsonV::Array(items) => if items.len() > 0 && items[0] is Str {
                let with_cmd = out.insert(k_command(), items[0]);
                let args = str_items(items.drop_first());
                if args.len() > 0 {
                    with_cmd.insert(k_args(), JsonV::Array(args))
                } else {
                    with_cmd
                }
            } else {
                out
            },
            _ => out,
        }
    }
}

/// The canonical record of a record in the command-array format.
pub open spec fn opencode_to_std(m: Map<Seq<char>, JsonV>) -> Map<Seq<char>, JsonV> {
    let b1 = copy_key(Map::empty(), m, k_url());
    let b2 = command_fields(b1, m);
    let b3 = copy_key(copy_key(b2, m, k_enabled()), m, k_type());
    let b4 = if m.contains_key(k_environment()) {
        b3.insert(k_env(), m[k_environment()])
    } else {
        copy_key(b3, m, k_env())
    };
    b4.union_prefer_right(m.remove_keys(opencode_mapped()))
}

proof fn lemma_obj_map_empty(out: Vec<(String, Json)>)
    requires
        out@.len() == 0,
    ensures
        obj_map(out@) == Map::<Seq<char>, JsonV>::empty(),
{
    assert(entries_view(out@) =~= Seq::<(Seq<char>, JsonV)>::empty());
}

fn is_opencode_mapped(k: &str) -> (r: bool)
    ensures
        r == opencode_mapped().contains(k@),
{
    str_eq(k, "command") || str_eq(k, "url") || str_eq(k, "enabled") || str_eq(k, "type") || str_eq(
        k,
        "environment",
    ) || str_eq(k, "env")
}

/// Copies the value of `key` in `es`, if any, into `out`.
fn copy_field(out: &mut Vec<(String, Json)>, es: &Vec<(String, Json)>, key: &str)
    ensures
        obj_map(final(out)@) == copy_key(obj_map(old(out)@), obj_map(es@), key@),
        entries_valid(es@) && entries_valid(old(out)@) ==> entries_valid(final(out)@),
{
    match find_key(es, key) {
        Some(i) => {
            let v = es[i].1.deep_copy();
            assert(entries_valid(es@) ==> json_valid(es@[i as int].1));
            put_key(out, key.to_owned(), v);
        },
        None => {},
    }
}

/// The string items of `items` after the first.
fn string_args(items: &Vec<Json>) -> (r: Vec<Json>)
    requires
        items@.len() > 0,
    ensures
        items_view(r@) == str_items(items_view(items@).drop_first()),
        forall|j: int| 0 <= j < r@.len() ==> #[trigger] r@[j] is Str,
{
    let ghost sv = items_view(items@);
    let mut args: Vec<Json> = Vec::new();
    let mut j: usize = 1;
    assert(sv.subrange(1, 1) =~= Seq::<JsonV>::empty());
    assert(items_view(args@) =~= Seq::<JsonV>::empty());
    while j < items.len()
        invariant
            1 <= j <= items@.len(),
            sv == items_view(items@),
            items_view(args@) == str_items(sv.subrange(1, j as int)),
            forall|k: int| 0 <= k < args@.len() ==> #[trigger] args@[k] is Str,
        decreases items@.len() - j,
    {
        assert(sv.subrange(1, j + 1).drop_last() =~= sv.subrange(1, j as int));
        assert(sv.subrange(1, j + 1).last() == items@[j as int]@);
        match &items[j] {
            Json::Str(s) => {
                let ghost before = args@;
                args.push(Json::Str(s.clone()));
                assert(items_view(args@) =~= items_view(before).push(items@[j as int]@));
            },
            _ => {},
        }
        j = j + 1;
    }
    assert(sv.subrange(1, items@.len() as int) =~= sv.drop_first());
    args
}

/// The canonical record of a record in the command-array format; a value
/// that is not an object is returned as it is.
pub fn opencode_to_standard_config(config: &Json) -> (r: Json)
    ensures
        match config {
            Json::Object(es) => r matches Json::Object(out) && obj_map(out@) == opencode_to_std(
                obj_map(es@),
            ),
            _ => r@ == config@,
        },
        json_valid(*config) ==> json_valid(r),
{
    let es = match config {
        Json::Object(es) => es,
        _ => {
            return config.deep_copy();
        },
    };
    let ghost m = obj_map(es@);
    let ghost valid = json_valid(*config);
    assert(valid == entries_valid(es@));
    let mut out: Vec<(String, Json)> = Vec::new();
    proof {
        lemma_obj_map_empty(out);
    }
    assert(entries_valid(out@));
    copy_field(&mut out, es, "url");
    match find_key(es, "command") {
        Some(i) => match &es[i].1 {
            Json::Str(c) => {
                put_key(&mut out, "command".to_owned(), Json::Str(c.clone()));
                assert(valid ==> entries_valid(out@));
            },
            Json::Array(items) => {
                proof {
                    lemma_array_view(*items);
                }
                if items.len() > 0 {
                    match &items[0] {
                        Json::Str(c) => {
                            assert(items_view(items@)[0] == items@[0]@);
                            put_key(&mut out, "command".to_owned(), Json::Str(c.clone()));
                            assert(valid ==> entries_valid(out@));
                            let args = string_args(items);
                            if args.len() > 0 {
                                proof {
                                    lemma_array_view(args);
                                }
                                assert forall|k: int| 0 <= k < args@.len() implies json_valid(#[trigger] args@[k]) by {
                                    assert(args@[k] is Str);
                                }
                                assert(json_valid(Json::Array(args)));
                                put_key(&mut out, "args".to_owned(), Json::Array(args));
                                assert(valid ==> entries_valid(out@));
                            }
                        },
                        _ => {
                            assert(items_view(items@)[0] == items@[0]@);
                        },
                    }
                }
            },
            _ => {},
        },
        None => {},
    }
    copy_field(&mut out, es, "enabled");
    copy_field(&mut out, es, "type");
    match find_key(es, "environment") {
        Some(i) => {
            let v = es[i].1.deep_copy();
            assert(valid ==> json_valid(es@[i as int].1));
            put_key(&mut out, "env".to_owned(), v);
            assert(valid ==> entries_valid(out@));
        },
        None => {
            copy_field(&mut out, es, "env");
        },
    }
    let ghost base = obj_map(out@);
    let mut i: usize = 0;
    assert(obj_map(es@.subrange(0, 0)).remove_keys(opencode_mapped()) =~= Map::empty()) by {
        lemma_obj_map_empty_seq(es@.subrange(0, 0));
    }
    assert(base =~= base.union_prefer_right(Map::empty()));
    while i < es.len()
        invariant
            i <= es@.len(),
            valid == entries_valid(es@),
            valid ==> entries_valid(out@),
            obj_map(out@) == base.union_prefer_right(
                obj_map(es@.subrange(0, i as int)).remove_keys(opencode_mapped()),
            ),
        decreases es@.len() - i,
    {
        assert(es@.subrange(0, i + 1) =~= es@.subrange(0, i as int).push(es@[i as int]));
        proof {
            lemma_entries_view_push(es@.subrange(0, i as int), es@[i as int].0, es@[i as int].1);
        }
        if !is_opencode_mapped(es[i].0.as_str()) {
            let v = es[i].1.deep_copy();
            assert(valid ==> json_valid(es@[i as int].1));
            put_key(&mut out, es[i].0.clone(), v);
            assert(valid ==> entries_valid(out@));
        }
        assert(obj_map(out@) =~= base.union_prefer_right(
            obj_map(es@.subrange(0, i + 1)).remove_keys(opencode_mapped()),
        ));
        i = i + 1;
    }
    assert(es@.subrange(0, es@.len() as int) =~= es@);
    assert(obj_map(out@) =~= opencode_to_std(m));
    assert(valid ==> json_valid(Json::Object(out)));
    Json::Object(out)
}

proof fn lemma_obj_map_empty_seq(es: Seq<(String, Json)>)
    requires
        es.len() == 0,
    ensures
        obj_map(es) == Map::<Seq<char>, JsonV>::empty(),
{
    assert(entries_view(es) =~= Seq::<(Seq<char>, JsonV)>::empty());
}

#[derive(Debug, Clone, Copy, PartialEq, Eq, Structural)]
pub enum NormalizeError {
    ConfigNotObject,
}

impl NormalizeError {
    pub fn message(&self) -> (r: &'static str)
        ensures
            r@ == (match *self {
                NormalizeError::ConfigNotObject => "MCP server config must be an object"@,
            }),
    {
        match self {
            NormalizeError::ConfigNotObject => "MCP server config must be an object",
        }
    }
}

/// The string items of the canonical `args`, when it is an array.
pub open spec fn arg_strings(m: Map<Seq<char>, JsonV>) -> Seq<JsonV> {
    if m.contains_key(k_args()) && m[k_args()] is Array {
        str_items(m[k_args()]->Array_0)
    } else {
        Seq::empty()
    }
}

/// The record in the command-array format of a canonical record: a string
/// command and the string args become one array, `env` becomes
/// `environment` unless that is set, and a missing `type` is inferred.
pub open spec fn std_to_opencode(m: Map<Seq<char>, JsonV>) -> Map<Seq<char>, JsonV> {
    let c1 = if m.contains_key(k_command()) {
        let with_list = match m[k_command()] {
            JsonV::Str(c) => m.insert(
                k_command(),
                JsonV::Array(seq![JsonV::Str(c)] + arg_strings(m)),
            ),
            _ => m,
        };
        with_list.remove(k_args())
    } else {
        m
    };
    let c2 = if c1.contains_key(k_env()) {
        let rest = c1.remove(k_env());
        if rest.contains_key(k_environment()) {
            rest
        } else {
            rest.insert(k_environment(), c1[k_env()])
        }
    } else {
        c1
    };
    if c2.contains_key(k_type()) {
        c2
    } else if c2.contains_key(k_url()) {
        c2.insert(k_type(), JsonV::Str("remote"@))
    } else if c2.contains_key(k_command()) {
        c2.insert(k_type(), JsonV::Str("local"@))
    } else {
        c2
    }
}

fn has_key(es: &Vec<(String, Json)>, key: &str) -> (r: bool)
    ensures
        r == obj_map(es@).contains_key(key@),
{
    find_key(es, key).is_some()
}

/// The record in the command-array format of a canonical record; fails when
/// the record is not an object.
pub fn standard_to_opencode_config(config: &Json) -> (r: Result<Json, NormalizeError>)
    ensures
        match config {
            Json::Object(es) => r matches Ok(Json::Object(out)) && obj_map(out@) == std_to_opencode(
                obj_map(es@),
            ),
            _ => r == Err::<Json, NormalizeError>(NormalizeError::ConfigNotObject),
        },
{
    let es = match config {
        Json::Object(es) => es,
        _ => {
            return Err(NormalizeError::ConfigNotObject);
        },
    };
    let ghost m = obj_map(es@);
    let mut out = crate::json::copy_entries(es);
    assert(obj_map(out@) == m);
    match find_key(es, "command") {
        Some(i) => {
            match &es[i].1 {
                Json::Str(c) => {
                    let mut list: Vec<Json> = Vec::new();
                    list.push(Json::Str(c.clone()));
                    match find_key(es, "args") {
                        Some(a) => match &es[a].1 {
                            Json::Array(items) => {
                                proof {
                                    lemma_array_view(*items);
                                }
                                let ghost sv = items_view(items@);
                                let mut j: usize = 0;
                                assert(sv.subrange(0, 0) =~= Seq::<JsonV>::empty());
                                assert(items_view(list@) =~= seq![JsonV::Str(c@)]);
                                while j < items.len()
                                    invariant
                                        j <= items@.len(),
                                        sv == items_view(items@),
                                        items_view(list@) == seq![JsonV::Str(c@)] + str_items(
                                            sv.subrange(0, j as int),
                                        ),
                                    decreases items@.len() - j,
                                {
                                    assert(sv.subrange(0, j + 1).drop_last() =~= sv.subrange(0, j as int));
                                    assert(sv.subrange(0, j + 1).last() == items@[j as int]@);
                                    match &items[j] {
                                        Json::Str(x) => {
                                            let ghost before = list@;
                                            list.push(Json::Str(x.clone()));
                                            assert(items_view(list@) =~= items_view(before).push(
                                                items@[j as int]@,
                                            ));
                                        },
                                        _ => {},
                                    }
                                    j = j + 1;
                                }
                                assert(sv.subrange(0, items@.len() as int) =~= sv);
                            },
                            _ => {
                                assert(items_view(list@) =~= seq![JsonV::Str(c@)] + Seq::<JsonV>::empty());
                            },
                        },
                        None => {
                            assert(items_view(list@) =~= seq![JsonV::Str(c@)] + Seq::<JsonV>::empty());
                        },
                    }
                    proof {
                        lemma_array_view(list);
                    }
                    put_key(&mut out, "command".to_owned(), Json::Array(list));
                },
                _ => {},
            }
            remove_key(&mut out, "args");
        },
        None => {},
    }
    let ghost c1 = obj_map(out@);
    match find_key(&out, "env") {
        Some(i) => {
            let v = out[i].1.deep_copy();
            remove_key(&mut out, "env");
            if !has_key(&out, "environment") {
                put_key(&mut out, "environment".to_owned(), v);
            }
        },
        None => {},
    }
    if !has_key(&out, "type") {
        if has_key(&out, "url") {
            put_key(&mut out, "type".to_owned(), Json::Str("remote".to_owned()));
        } else if has_key(&out, "command") {
            put_key(&mut out, "type".to_owned(), Json::Str("local".to_owned()));
        }
    }
    assert(obj_map(out@) =~= std_to_opencode(m));
    Ok(Json::Object(out))
}

/// The canonical record of a record in the URL-renaming format: `serverUrl`
/// becomes `url`, and wins over a bare `url`.
pub open spec fn antigravity_to_std(m: Map<Seq<char>, JsonV>) -> Map<Seq<char>, JsonV> {
    let base = m.remove(k_server_url());
    if m.contains_key(k_server_url()) {
        base.insert(k_url(), m[k_server_url()])
    } else {
        base
    }
}

/// The record in the URL-renaming format of a canonical record: `url`
/// becomes `serverUrl`, unless that is already set.
pub open spec fn std_to_antigravity(m: Map<Seq<char>, JsonV>) -> Map<Seq<char>, JsonV> {
    let base = m.remove(k_url());
    if !m.contains_key(k_server_url()) && m.contains_key(k_url()) {
        base.insert(k_server_url(), m[k_url()])
    } else {
        base
    }
}

/// The canonical record of a record in the URL-renaming format; a value
/// that is not an object is returned as it is.
pub fn antigravity_to_standard_config(config: &Json) -> (r: Json)
    ensures
        match config {
            Json::Object(es) => r matches Json::Object(out) && obj_map(out@) == antigravity_to_std(
                obj_map(es@),
            ),
            _ => r@ == config@,
        },
        json_valid(*config) ==> json_valid(r),
{
    let es = match config {
        Json::Object(es) => es,
        _ => {
            return config.deep_copy();
        },
    };
    let ghost valid = json_valid(*config);
    assert(valid == entries_valid(es@));
    let mut out = crate::json::copy_entries(es);
    assert(valid ==> entries_valid(out@));
    let found = find_key(es, "serverUrl");
    let ghost before = out@;
    remove_key(&mut out, "serverUrl");
    assert(valid ==> entries_valid(out@)) by {
        if valid {
            assert forall|j: int| 0 <= j < out@.len() implies json_valid(#[trigger] out@[j].1) by {
                let k = choose|k: int| 0 <= k < before.len() && before[k] == out@[j];
                assert(json_valid(before[k].1));
            }
        }
    }
    match found {
        Some(i) => {
            let v = es[i].1.deep_copy();
            assert(valid ==> json_valid(es@[i as int].1));
            put_key(&mut out, "url".to_owned(), v);
            assert(valid ==> entries_valid(out@));
        },
        None => {},
    }
    assert(valid ==> json_valid(Json::Object(out)));
    Json::Object(out)
}

/// The record in the URL-renaming format of a canonical record; fails when
/// the record is not an object.
pub fn standard_to_antigravity_config(config: &Json) -> (r: Result<Json, NormalizeError>)
    ensures
        match config {
            Json::Object(es) => r matches Ok(Json::Object(out)) && obj_map(out@) == std_to_antigravity(
                obj_map(es@),
            ),
            _ => r == Err::<Json, NormalizeError>(NormalizeError::ConfigNotObject),
        },
{
    let es = match config {
        Json::Object(es) => es,
        _ => {
            return Err(NormalizeError::ConfigNotObject);
        },
    };
    let mut out = crate::json::copy_entries(es);
    let url = find_key(es, "url");
    remove_key(&mut out, "url");
    if !has_key(es, "serverUrl") {
        match url {
            Some(i) => {
                let v = es[i].1.deep_copy();
                put_key(&mut out, "serverUrl".to_owned(), v);
            },
            None => {},
        }
    }
    Ok(Json::Object(out))
}

/// The canonical records that the command-array format holds without loss:
/// no `environment` key of their own, a string `command` whose `args`, when
/// present, is a non-empty array of strings, and a `type` wherever one would
/// otherwise be inferred.
pub open spec fn opencode_faithful(m: Map<Seq<char>, JsonV>) -> bool {
    &&& !m.contains_key(k_environment())
    &&& m.contains_key(k_command()) ==> {
        &&& m[k_command()] is Str
        &&& m.contains_key(k_args()) ==> {
            &&& m[k_args()] is Array
            &&& m[k_args()]->Array_0.len() > 0
            &&& str_items(m[k_args()]->Array_0) == m[k_args()]->Array_0
        }
    }
    &&& (m.contains_key(k_url()) || m.contains_key(k_command())) ==> m.contains_key(k_type())
}

proof fn lemma_str_items_all_str(xs: Seq<JsonV>)
    ensures
        str_items(xs).len() <= xs.len(),
        forall|i: int| 0 <= i < str_items(xs).len() ==> #[trigger] str_items(xs)[i] is Str,
    decreases xs.len(),
{
    if xs.len() > 0 {
        lemma_str_items_all_str(xs.drop_last());
        let p = str_items(xs.drop_last());
        assert forall|i: int| 0 <= i < str_items(xs).len() implies #[trigger] str_items(xs)[i] is Str by {
            if i < p.len() {
                assert(str_items(xs)[i] == p[i]);
            }
        }
    }
}

proof fn lemma_str_items_of_strs(xs: Seq<JsonV>)
    requires
        forall|i: int| 0 <= i < xs.len() ==> #[trigger] xs[i] is Str,
    ensures
        str_items(xs) == xs,
    decreases xs.len(),
{
    if xs.len() > 0 {
        lemma_str_items_of_strs(xs.drop_last());
        assert(xs.drop_last().push(xs.last()) =~= xs);
    }
}

/// A canonical record that the command-array format holds without loss
/// comes back equal, field by field, from that format.
pub proof fn lemma_opencode_round_trip(m: Map<Seq<char>, JsonV>)
    requires
        opencode_faithful(m),
    ensures
        opencode_to_std(std_to_opencode(m)) == m,
{
    lemma_keys_distinct();
    let n = std_to_opencode(m);
    let back = opencode_to_std(n);
    if m.contains_key(k_command()) {
        let c = m[k_command()]->Str_0;
        let a = arg_strings(m);
        let list = seq![JsonV::Str(c)] + a;
        assert(list.drop_first() =~= a);
        assert(n[k_command()] == JsonV::Array(list));
        assert(list[0] is Str);
        lemma_str_items_all_str(if m.contains_key(k_args()) && m[k_args()] is Array {
            m[k_args()]->Array_0
        } else {
            Seq::empty()
        });
        assert forall|i: int| 0 <= i < a.len() implies #[trigger] a[i] is Str by {
            if m.contains_key(k_args()) {
                lemma_str_items_all_str(m[k_args()]->Array_0);
            }
        }
        lemma_str_items_of_strs(a);
        if !m.contains_key(k_args()) {
            assert(a =~= Seq::<JsonV>::empty());
        }
    }
    assert(back =~= m);
}

/// A canonical record without a `serverUrl` of its own comes back equal,
/// field by field, from the URL-renaming format.
pub proof fn lemma_antigravity_round_trip(m: Map<Seq<char>, JsonV>)
    requires
        !m.contains_key(k_server_url()),
    ensures
        antigravity_to_std(std_to_antigravity(m)) == m,
{
    lemma_keys_distinct();
    assert(antigravity_to_std(std_to_antigravity(m)) =~= m);
}

} // verus!
