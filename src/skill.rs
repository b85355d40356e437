//! What a skill's core file says of it: the `---` header of key/value
//! lines, the body after it, and a one-line description.
use vstd::prelude::*;
use crate::json::entries_map;
use crate::text::{
    chars_of, copy_chars, is_literal, is_whitespace, join, join_range, lemma_views_subrange,
    slice, split_chars, split_on, string_of, trim, trim_chars, trim_start, views,
};

verus! {

/// A line without the `\r` that ended it before its `\n`.
pub open spec fn strip_cr(l: Seq<char>) -> Seq<char> {
    if l.len() > 0 && l.last() == '\r' {
        l.drop_last()
    } else {
        l
    }
}

/// The lines of a text as `str::lines` gives them: split at `\n`, a `\r`
/// before the `\n` dropped, and no empty line after a final `\n`.
pub open spec fn lines(s: Seq<char>) -> Seq<Seq<char>> {
    let parts = split_on(s, '\n');
    let n = parts.len() as int;
    let head = parts.subrange(0, n - 1).map_values(|l: Seq<char>| strip_cr(l));
    if parts[n - 1].len() > 0 {
        head.push(parts[n - 1])
    } else {
        head
    }
}

proof fn lemma_split_nonempty(s: Seq<char>, sep: char)
    ensures
        split_on(s, sep).len() >= 1,
    decreases s.len(),
{
    if s.len() > 0 {
        lemma_split_nonempty(s.drop_first(), sep);
    }
}

fn strip_cr_of(l: &Vec<char>) -> (r: Vec<char>)
    ensures
        r@ == strip_cr(l@),
{
    if l.len() > 0 && l[l.len() - 1] == '\r' {
        slice(l, 0, l.len() - 1)
    } else {
        copy_chars(l)
    }
}

/// The lines of a text; see `lines`.
pub fn lines_of(v: &Vec<char>) -> (r: Vec<Vec<char>>)
    ensures
        views(r@) == lines(v@),
{
    let parts = split_chars(v, '\n');
    proof {
        lemma_split_nonempty(v@, '\n');
        lemma_views_subrange(parts@, 0, parts@.len() as int);
    }
    let n = parts.len();
    let ghost pv = views(parts@);
    let mut r: Vec<Vec<char>> = Vec::new();
    let mut i: usize = 0;
    while i + 1 < n
        invariant
            i < n == parts@.len(),
            pv == views(parts@),
            pv == split_on(v@, '\n'),
            views(r@) == pv.subrange(0, i as int).map_values(|l: Seq<char>| strip_cr(l)),
        decreases n - i,
    {
        let ghost before = r@;
        let l = strip_cr_of(&parts[i]);
        r.push(l);
        assert(pv[i as int] == parts@[i as int]@);
        assert(views(r@) =~= views(before).push(l@));
        assert(pv.subrange(0, i + 1).map_values(|l: Seq<char>| strip_cr(l)) =~= pv.subrange(0, i as int).map_values(|l: Seq<char>| strip_cr(l)).push(strip_cr(pv[i as int])));
        i = i + 1;
    }
    assert(pv[n - 1] == parts@[n - 1]@);
    if parts[n - 1].len() > 0 {
        let ghost before = r@;
        let last = copy_chars(&parts[n - 1]);
        r.push(last);
        assert(views(r@) =~= views(before).push(last@));
    }
    r
}

/// The position of the first `c` in `s`, if any.
pub open spec fn first_index(s: Seq<char>, c: char) -> Option<int> {
    if exists|i: int| 0 <= i < s.len() && s[i] == c {
        Some(choose|i: int| 0 <= i < s.len() && s[i] == c && forall|j: int| 0 <= j < i ==> s[j] != c)
    } else {
        None
    }
}

/// The key/value pair of a header line: the trimmed text before its first
/// `:` and after it, when there is a `:` and the key is not empty.
pub open spec fn header_pair(l: Seq<char>) -> Option<(Seq<char>, Seq<char>)> {
    match first_index(l, ':') {
        Some(k) => {
            let key = trim(l.subrange(0, k));
            if key.len() == 0 {
                None
            } else {
                Some((key, trim(l.subrange(k + 1, l.len() as int))))
            }
        },
        None => None,
    }
}

/// The pairs of the header lines, in order.
pub open spec fn header_pairs(ls: Seq<Seq<char>>) -> Seq<(Seq<char>, Seq<char>)>
    decreases ls.len(),
{
    if ls.len() == 0 {
        Seq::empty()
    } else {
        let p = header_pairs(ls.drop_last());
        match header_pair(ls.last()) {
            Some(kv) => p.push(kv),
            None => p,
        }
    }
}

pub open spec fn is_fence(l: Seq<char>) -> bool {
    trim(l) == "---"@
}

/// The header of a core file and its body. The header is the lines between
/// a first line `---` and the next `---` line; without both there is none
/// and the body is the whole text. After a header, the body is the rest
/// joined with `\n`, leading whitespace removed.
pub open spec fn frontmatter(raw: Seq<char>) -> (Seq<(Seq<char>, Seq<char>)>, Seq<char>) {
    let ls = lines(raw);
    if ls.len() == 0 || !is_fence(ls[0]) || !(exists|j: int| 1 <= j < ls.len() && is_fence(ls[j])) {
        (Seq::empty(), raw)
    } else {
        let j = choose|j: int|
            1 <= j < ls.len() && is_fence(ls[j]) && forall|k: int| 1 <= k < j ==> !is_fence(ls[k]);
        (header_pairs(ls.subrange(1, j)), trim_start(join(ls.subrange(j + 1, ls.len() as int), "\n"@)))
    }
}

pub open spec fn pair_views(v: Seq<(String, String)>) -> Seq<(Seq<char>, Seq<char>)> {
    v.map_values(|p: (String, String)| (p.0@, p.1@))
}

/// The value for `key` in header pairs: the last pair with that key wins.
pub open spec fn header_value(pairs: Seq<(Seq<char>, Seq<char>)>, key: Seq<char>) -> Option<Seq<char>> {
    if entries_map(pairs).contains_key(key) {
        Some(entries_map(pairs)[key])
    } else {
        None
    }
}

fn first_colon(l: &Vec<char>) -> (r: Option<usize>)
    ensures
        match r {
            Some(k) => first_index(l@, ':') == Some(k as int) && k < l@.len(),
            None => first_index(l@, ':') is None,
        },
{
    let mut i: usize = 0;
    while i < l.len()
        invariant
            i <= l@.len(),
            forall|j: int| 0 <= j < i ==> l@[j] != ':',
        decreases l@.len() - i,
    {
        if l[i] == ':' {
            proof {
                let k = choose|k: int| 0 <= k < l@.len() && l@[k] == ':' && forall|j: int| 0 <= j < k ==> l@[j] != ':';
                assert(k == i as int) by {
                    if k < i {
                    } else if k > i {
                        assert(l@[i as int] == ':');
                    }
                }
            }
            return Some(i);
        }
        i = i + 1;
    }
    None
}

fn header_pair_of(l: &Vec<char>) -> (r: Option<(String, String)>)
    ensures
        match r {
            Some(p) => header_pair(l@) == Some((p.0@, p.1@)),
            None => header_pair(l@) is None,
        },
{
    match first_colon(l) {
        Some(k) => {
            let head = slice(l, 0, k);
            let key = trim_chars(&head);
            if key.len() == 0 {
                return None;
            }
            let n = l.len();
            assert(k < n);
            let tail = slice(l, k + 1, n);
            let value = trim_chars(&tail);
            Some((string_of(&key), string_of(&value)))
        },
        None => None,
    }
}

fn is_fence_of(l: &Vec<char>) -> (r: bool)
    ensures
        r == is_fence(l@),
{
    let t = trim_chars(l);
    is_literal(&t, "---")
}

fn trim_start_of(v: &Vec<char>) -> (r: Vec<char>)
    ensures
        r@ == trim_start(v@),
{
    let mut i: usize = 0;
    assert(v@.subrange(0, v@.len() as int) =~= v@);
    while i < v.len() && is_whitespace(v[i])
        invariant
            i <= v@.len(),
            trim_start(v@) == trim_start(v@.subrange(i as int, v@.len() as int)),
        decreases v@.len() - i,
    {
        assert(v@.subrange(i as int, v@.len() as int).drop_first() =~= v@.subrange(i + 1, v@.len() as int));
        i = i + 1;
    }
    slice(v, i, v.len())
}

fn header_pairs_of(ls: &Vec<Vec<char>>, j: usize) -> (pairs: Vec<(String, String)>)
    requires
        1 <= j <= ls@.len(),
    ensures
        pair_views(pairs@) == header_pairs(views(ls@).subrange(1, j as int)),
{
    proof {
        lemma_views_subrange(ls@, 0, ls@.len() as int);
    }
    let ghost lv = views(ls@);
    let mut pairs: Vec<(String, String)> = Vec::new();
    let mut i: usize = 1;
    assert(lv.subrange(1, 1) =~= Seq::<Seq<char>>::empty());
    assert(pair_views(pairs@) =~= Seq::empty());
    while i < j
        invariant
            1 <= i <= j <= ls@.len(),
            lv == views(ls@),
            forall|k: int| 0 <= k < ls@.len() ==> #[trigger] lv[k] == ls@[k]@,
            pair_views(pairs@) == header_pairs(lv.subrange(1, i as int)),
        decreases j - i,
    {
        let ghost before = pairs@;
        assert(lv.subrange(1, i + 1).drop_last() =~= lv.subrange(1, i as int));
        assert(lv.subrange(1, i + 1).last() == ls@[i as int]@);
        match header_pair_of(&ls[i]) {
            Some(p) => {
                pairs.push(p);
                assert(pair_views(pairs@) =~= pair_views(before).push((p.0@, p.1@)));
            },
            None => {},
        }
        i = i + 1;
    }
    pairs
}

/// The header pairs of a core file, in order (a later pair for a key wins),
/// and its body.
pub fn parse_frontmatter(raw: &str) -> (r: (Vec<(String, String)>, String))
    ensures
        pair_views(r.0@) == frontmatter(raw@).0,
        r.1@ == frontmatter(raw@).1,
{
    let v = chars_of(raw);
    let ls = lines_of(&v);
    proof {
        lemma_views_subrange(ls@, 0, ls@.len() as int);
    }
    let ghost lv = views(ls@);
    if ls.len() == 0 || !is_fence_of(&ls[0]) {
        let none: Vec<(String, String)> = Vec::new();
        assert(pair_views(none@) =~= Seq::empty());
        return (none, raw.to_owned());
    }
    let mut j: usize = 1;
    while j < ls.len() && !is_fence_of(&ls[j])
        invariant
            1 <= j <= ls@.len(),
            lv == views(ls@),
            forall|k: int| 1 <= k < j ==> !is_fence(lv[k]),
        decreases ls@.len() - j,
    {
        j = j + 1;
    }
    if j == ls.len() {
        assert(!(exists|k: int| 1 <= k < lv.len() && is_fence(lv[k])));
        let none: Vec<(String, String)> = Vec::new();
        assert(pair_views(none@) =~= Seq::empty());
        return (none, raw.to_owned());
    }
    assert(lv[j as int] == ls@[j as int]@);
    assert(is_fence(lv[j as int]));
    proof {
        let c = choose|c: int| 1 <= c < lv.len() && is_fence(lv[c]) && forall|k: int| 1 <= k < c ==> !is_fence(lv[k]);
        assert(c == j as int) by {
            if c < j {
            } else if c > j {
                assert(is_fence(lv[j as int]));
            }
        }
    }
    let pairs = header_pairs_of(&ls, j);
    let nl = chars_of("\n");
    proof {
        lemma_views_subrange(ls@, j + 1, ls@.len() as int);
    }
    let rest = join_range(&ls, j + 1, ls.len(), &nl);
    let body = trim_start_of(&rest);
    (pairs, string_of(&body))
}

/// The description a body gives: its first line that, trimmed, is neither
/// empty nor a `#` heading, trimmed; empty when there is none.
pub open spec fn description(ls: Seq<Seq<char>>) -> Seq<char>
    decreases ls.len(),
{
    if ls.len() == 0 {
        Seq::empty()
    } else {
        let t = trim(ls[0]);
        if t.len() > 0 && t[0] != '#' {
            t
        } else {
            description(ls.drop_first())
        }
    }
}

/// The description a body gives; see `description`.
pub fn extract_description(body: &str) -> (r: String)
    ensures
        r@ == description(lines(body@)),
{
    let v = chars_of(body);
    let ls = lines_of(&v);
    proof {
        lemma_views_subrange(ls@, 0, ls@.len() as int);
    }
    let ghost lv = views(ls@);
    let mut i: usize = 0;
    assert(lv.subrange(0, lv.len() as int) =~= lv);
    while i < ls.len()
        invariant
            i <= ls@.len(),
            lv == views(ls@),
            lv == lines(body@),
            description(lv) == description(lv.subrange(i as int, lv.len() as int)),
        decreases ls@.len() - i,
    {
        let t = trim_chars(&ls[i]);
        let ghost rest = lv.subrange(i as int, lv.len() as int);
        assert(rest[0] == ls@[i as int]@);
        if t.len() > 0 && t[0] != '#' {
            assert(description(rest) == t@);
            return string_of(&t);
        }
        assert(rest.drop_first() =~= lv.subrange(i + 1, lv.len() as int));
        i = i + 1;
    }
    assert(lv.subrange(i as int, lv.len() as int) =~= Seq::<Seq<char>>::empty());
    String::new()
}

/// A skill as a tool installation holds it.
#[derive(Debug)]
pub struct SkillItem {
    pub id: String,
    pub name: String,
    pub description: String,
    pub path: String,
    pub core_file: String,
    pub core_file_path: String,
    pub source_url: Option<String>,
    pub source_id: String,
    pub metadata: Vec<(String, String)>,
    pub body: String,
    pub last_modified: Option<u64>,
}

pub open spec fn is_markdown(core_file: Seq<char>) -> bool {
    crate::text::ends_with(core_file, ".md"@)
}

/// The header and body of a core file: a markdown file's header is parsed,
/// any other file is all body.
pub open spec fn core_parts(raw: Seq<char>, core_file: Seq<char>) -> (Seq<(Seq<char>, Seq<char>)>, Seq<char>) {
    if is_markdown(core_file) {
        frontmatter(raw)
    } else {
        (Seq::empty(), raw)
    }
}

/// A header value that is not blank.
pub open spec fn given(pairs: Seq<(Seq<char>, Seq<char>)>, key: Seq<char>) -> Option<Seq<char>> {
    match header_value(pairs, key) {
        Some(v) => if trim(v).len() > 0 {
            Some(v)
        } else {
            None
        },
        None => None,
    }
}

pub open spec fn skill_name(pairs: Seq<(Seq<char>, Seq<char>)>, fallback: Seq<char>) -> Seq<char> {
    match given(pairs, "name"@) {
        Some(v) => v,
        None => fallback,
    }
}

pub open spec fn skill_description(pairs: Seq<(Seq<char>, Seq<char>)>, body: Seq<char>, markdown: bool) -> Seq<char> {
    match given(pairs, "description"@) {
        Some(v) => v,
        None => if markdown {
            description(lines(body))
        } else {
            Seq::empty()
        },
    }
}

proof fn lemma_entries_map_last(pairs: Seq<(Seq<char>, Seq<char>)>, key: Seq<char>, i: int)
    requires
        0 <= i < pairs.len(),
        pairs[i].0 == key,
        forall|j: int| i < j < pairs.len() ==> pairs[j].0 != key,
    ensures
        entries_map(pairs).contains_key(key),
        entries_map(pairs)[key] == pairs[i].1,
    decreases pairs.len(),
{
    if i < pairs.len() - 1 {
        lemma_entries_map_last(pairs.drop_last(), key, i);
    }
}

proof fn lemma_entries_map_absent(pairs: Seq<(Seq<char>, Seq<char>)>, key: Seq<char>)
    requires
        forall|j: int| 0 <= j < pairs.len() ==> pairs[j].0 != key,
    ensures
        !entries_map(pairs).contains_key(key),
    decreases pairs.len(),
{
    if pairs.len() > 0 {
        lemma_entries_map_absent(pairs.drop_last(), key);
    }
}

/// The value for `key` among header pairs, if any and not blank.
pub fn given_value(pairs: &Vec<(String, String)>, key: &str) -> (r: Option<String>)
    ensures
        opt_string(r) == given(pair_views(pairs@), key@),
{
    let ghost pv = pair_views(pairs@);
    let mut i = pairs.len();
    while i > 0
        invariant
            i <= pairs@.len(),
            pv == pair_views(pairs@),
            forall|j: int| i <= j < pairs@.len() ==> pairs@[j].0@ != key@,
        decreases i,
    {
        if crate::text::str_eq(pairs[i - 1].0.as_str(), key) {
            proof {
                assert forall|j: int| i - 1 < j < pv.len() implies pv[j].0 != key@ by {
                    assert(pv[j].0 == pairs@[j].0@);
                }
                lemma_entries_map_last(pv, key@, i - 1);
            }
            let v = &pairs[i - 1].1;
            if crate::text::is_blank(v.as_str()) {
                return None;
            }
            return Some(v.clone());
        }
        i = i - 1;
    }
    proof {
        assert forall|j: int| 0 <= j < pv.len() implies pv[j].0 != key@ by {
            assert(pv[j].0 == pairs@[j].0@);
        }
        lemma_entries_map_absent(pv, key@);
    }
    None
}

pub open spec fn opt_string(o: Option<String>) -> Option<Seq<char>> {
    match o {
        Some(s) => Some(s@),
        None => None,
    }
}

/// The skill that a core file describes, given where it was found and what
/// else is known of it.
pub fn skill_from_core_file(
    raw: &str,
    dir_name: &str,
    dir_path: &str,
    core_file: &str,
    core_file_path: &str,
    source_id: &str,
    source_url: Option<String>,
    last_modified: Option<u64>,
) -> (r: SkillItem)
    ensures
        ({
            let parts = core_parts(raw@, core_file@);
            &&& pair_views(r.metadata@) == parts.0
            &&& r.body@ == parts.1
            &&& r.name@ == skill_name(parts.0, dir_name@)
            &&& r.description@ == skill_description(parts.0, parts.1, is_markdown(core_file@))
        }),
        r.id@ == dir_name@,
        r.path@ == dir_path@,
        r.core_file@ == core_file@,
        r.core_file_path@ == core_file_path@,
        r.source_id@ == source_id@,
        r.source_url == source_url,
        r.last_modified == last_modified,
{
    let cf = chars_of(core_file);
    let md = chars_of(".md");
    let markdown = crate::text::has_suffix(&cf, &md);
    let (metadata, body) = if markdown {
        parse_frontmatter(raw)
    } else {
        let none: Vec<(String, String)> = Vec::new();
        assert(pair_views(none@) =~= Seq::empty());
        (none, raw.to_owned())
    };
    let name = match given_value(&metadata, "name") {
        Some(v) => v,
        None => dir_name.to_owned(),
    };
    let description = match given_value(&metadata, "description") {
        Some(v) => v,
        None => if markdown {
            extract_description(body.as_str())
        } else {
            String::new()
        },
    };
    SkillItem {
        id: dir_name.to_owned(),
        name,
        description,
        path: dir_path.to_owned(),
        core_file: core_file.to_owned(),
        core_file_path: core_file_path.to_owned(),
        source_url,
        source_id: source_id.to_owned(),
        metadata,
        body,
        last_modified,
    }
}

/// The display name of a skill being installed from `url`: the header's
/// `name` when given, else a name taken from the address.
pub fn install_name(content: &str, core_file: &str, url: &str) -> (r: String)
    ensures
        r@ == match given(core_parts(content@, core_file@).0, "name"@) {
            Some(v) => v,
            None => crate::location::fallback_name(url@, core_file@),
        },
{
    let cf = chars_of(core_file);
    let md = chars_of(".md");
    let metadata = if crate::text::has_suffix(&cf, &md) {
        let (m, _) = parse_frontmatter(content);
        m
    } else {
        let none: Vec<(String, String)> = Vec::new();
        assert(pair_views(none@) =~= Seq::empty());
        none
    };
    match given_value(&metadata, "name") {
        Some(v) => v,
        None => crate::location::fallback_name_from_url(url, core_file),
    }
}

/// The address a skill's provenance marker records: its `url` string.
pub fn source_url_from_marker(value: &crate::json::Json) -> (r: Option<String>)
    ensures
        match value {
            crate::json::Json::Object(es) => match crate::json::obj_get(es@, "url"@) {
                Some(crate::json::JsonV::Str(u)) => r matches Some(s) && s@ == u,
                _ => r is None,
            },
            _ => r is None,
        },
{
    match value {
        crate::json::Json::Object(es) => match crate::json::find_key(es, "url") {
            Some(i) => match &es[i].1 {
                crate::json::Json::Str(u) => Some(u.clone()),
                _ => None,
            },
            None => None,
        },
        _ => None,
    }
}

/// The provenance marker to write for an install address: an object whose
/// only key `url` holds the trimmed address; none for a blank address.
pub fn marker_for_url(url: &str) -> (r: Option<crate::json::Json>)
    ensures
        trim(url@).len() == 0 ==> r is None,
        trim(url@).len() > 0 ==> (r matches Some(crate::json::Json::Object(es)) && es@.len() == 1
            && es@[0].0@ == "url"@ && es@[0].1@ == crate::json::JsonV::Str(trim(url@))),
{
    let t = crate::text::trim_str(url);
    if t.len() == 0 {
        return None;
    }
    let mut es: Vec<(String, crate::json::Json)> = Vec::new();
    es.push(("url".to_owned(), crate::json::Json::Str(string_of(&t))));
    Some(crate::json::Json::Object(es))
}

} // verus!
