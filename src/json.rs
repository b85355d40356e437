//! A JSON value as the library reads it: numbers as integers or IEEE-754
//! bits, objects as entries where a later entry for a key replaces an
//! earlier one, as inserting them into a map in order would.
use vstd::prelude::*;
use crate::text::str_eq;
use crate::toml_value::f64_is_finite;

verus! {

/// A JSON number: a non-negative integer, a negative integer, or the bits of
/// a finite `f64`.
#[derive(Debug, Clone, Copy, PartialEq, Eq, Structural)]
pub enum Number {
    PosInt(u64),
    NegInt(i64),
    Float(u64),
}

#[derive(Debug)]
pub enum Json {
    Null,
    Bool(bool),
    Number(Number),
    Str(String),
    Array(Vec<Json>),
    Object(Vec<(String, Json)>),
}

pub enum JsonV {
    Null,
    Bool(bool),
    Number(Number),
    Str(Seq<char>),
    Array(Seq<JsonV>),
    Object(Seq<(Seq<char>, JsonV)>),
}

/// Whether the numbers of a value are as JSON holds them: a negative
/// integer is below zero and a float is finite. Every value read from JSON
/// text is valid.
pub open spec fn json_valid(j: Json) -> bool
    decreases j,
{
    match j {
        Json::Number(n) => match n {
            Number::PosInt(_) => true,
            Number::NegInt(i) => i < 0,
            Number::Float(b) => f64_is_finite(b),
        },
        Json::Array(xs) => forall|i: int| 0 <= i < xs.len() ==> json_valid(#[trigger] xs[i]),
        Json::Object(es) => forall|i: int| 0 <= i < es.len() ==> json_valid(#[trigger] es[i].1),
        _ => true,
    }
}

/// Whether every value of an object's entries is valid.
pub open spec fn entries_valid(es: Seq<(String, Json)>) -> bool {
    forall|i: int| 0 <= i < es.len() ==> json_valid(#[trigger] es[i].1)
}

impl Json {
    pub open spec fn view(&self) -> JsonV
        decreases self,
    {
        match self {
            Json::Null => JsonV::Null,
            Json::Bool(b) => JsonV::Bool(*b),
            Json::Number(n) => JsonV::Number(*n),
            Json::Str(s) => JsonV::Str(s@),
            Json::Array(xs) => JsonV::Array(
                Seq::new(
                    xs.len() as nat,
                    |i: int|
                        if 0 <= i < xs.len() {
                            xs[i].view()
                        } else {
                            JsonV::Null
                        },
                ),
            ),
            Json::Object(es) => JsonV::Object(
                Seq::new(
                    es.len() as nat,
                    |i: int|
                        if 0 <= i < es.len() {
                            (es[i].0@, es[i].1.view())
                        } else {
                            (Seq::empty(), JsonV::Null)
                        },
                ),
            ),
        }
    }

    /// A copy equal to `self` all the way down.
    pub fn deep_copy(&self) -> (r: Json)
        ensures
            r@ == self@,
            json_valid(r) == json_valid(*self),
        decreases self,
    {
        match self {
            Json::Null => Json::Null,
            Json::Bool(b) => Json::Bool(*b),
            Json::Number(n) => Json::Number(*n),
            Json::Str(s) => Json::Str(s.clone()),
            Json::Array(xs) => {
                let v = copy_items(xs);
                proof {
                    lemma_array_view(v);
                    lemma_array_view(*xs);
                    if json_valid(Json::Array(*xs)) {
                        assert forall|i: int| 0 <= i < v@.len() implies json_valid(#[trigger] v@[i]) by {
                            assert(json_valid(xs@[i]));
                        }
                    }
                    if json_valid(Json::Array(v)) {
                        assert forall|i: int| 0 <= i < xs@.len() implies json_valid(#[trigger] xs@[i]) by {
                            assert(json_valid(v@[i]));
                        }
                    }
                }
                Json::Array(v)
            },
            Json::Object(es) => {
                let v = copy_entries(es);
                proof {
                    lemma_object_view(v);
                    lemma_object_view(*es);
                    if json_valid(Json::Object(*es)) {
                        assert forall|i: int| 0 <= i < v@.len() implies json_valid(#[trigger] v@[i].1) by {
                            assert(json_valid(es@[i].1));
                        }
                    }
                    if json_valid(Json::Object(v)) {
                        assert forall|i: int| 0 <= i < es@.len() implies json_valid(#[trigger] es@[i].1) by {
                            assert(json_valid(v@[i].1));
                        }
                    }
                }
                Json::Object(v)
            },
        }
    }
}

pub open spec fn items_view(xs: Seq<Json>) -> Seq<JsonV> {
    Seq::new(xs.len(), |i: int| xs[i]@)
}

/// The entries of an object, as key views and value views.
pub open spec fn entries_view(es: Seq<(String, Json)>) -> Seq<(Seq<char>, JsonV)> {
    Seq::new(es.len(), |i: int| (es[i].0@, es[i].1@))
}

pub proof fn lemma_array_view(xs: Vec<Json>)
    ensures
        Json::Array(xs)@ == JsonV::Array(items_view(xs@)),
{
    assert(items_view(xs@) =~= match Json::Array(xs)@ {
        JsonV::Array(s) => s,
        _ => Seq::empty(),
    });
}

pub proof fn lemma_object_view(es: Vec<(String, Json)>)
    ensures
        Json::Object(es)@ == JsonV::Object(entries_view(es@)),
{
    assert(entries_view(es@) =~= match Json::Object(es)@ {
        JsonV::Object(s) => s,
        _ => Seq::empty(),
    });
}

/// Copies of array items, equal all the way down.
pub fn copy_items(xs: &Vec<Json>) -> (r: Vec<Json>)
    ensures
        items_view(r@) == items_view(xs@),
        r@.len() == xs@.len(),
        forall|j: int| 0 <= j < xs@.len() ==> json_valid(#[trigger] r@[j]) == json_valid(xs@[j]),
    decreases xs, 0nat,
{
    let mut r: Vec<Json> = Vec::new();
    let mut i: usize = 0;
    while i < xs.len()
        invariant
            i <= xs@.len(),
            r@.len() == i,
            forall|j: int| 0 <= j < i ==> r@[j]@ == xs@[j]@,
            forall|j: int| 0 <= j < i ==> json_valid(#[trigger] r@[j]) == json_valid(xs@[j]),
        decreases xs@.len() - i,
    {
        proof {
            assert(decreases_to!(xs => xs@[i as int]));
        }
        let c = xs[i].deep_copy();
        r.push(c);
        i = i + 1;
    }
    assert(items_view(r@) =~= items_view(xs@));
    r
}

/// Copies of object entries, equal all the way down.
pub fn copy_entries(es: &Vec<(String, Json)>) -> (r: Vec<(String, Json)>)
    ensures
        entries_view(r@) == entries_view(es@),
        r@.len() == es@.len(),
        forall|j: int| 0 <= j < es@.len() ==> json_valid(#[trigger] r@[j].1) == json_valid(es@[j].1),
    decreases es, 0nat,
{
    let mut r: Vec<(String, Json)> = Vec::new();
    let mut i: usize = 0;
    while i < es.len()
        invariant
            i <= es@.len(),
            r@.len() == i,
            forall|j: int| 0 <= j < i ==> r@[j].0@ == es@[j].0@ && r@[j].1@ == es@[j].1@,
            forall|j: int| 0 <= j < i ==> json_valid(#[trigger] r@[j].1) == json_valid(es@[j].1),
        decreases es@.len() - i,
    {
        proof {
            assert(decreases_to!(es => es@[i as int].1));
        }
        let v = es[i].1.deep_copy();
        r.push((es[i].0.clone(), v));
        i = i + 1;
    }
    assert(entries_view(r@) =~= entries_view(es@));
    r
}

/// The map that the entries make when inserted in order: a later entry for a
/// key replaces an earlier one.
pub open spec fn entries_map<V>(es: Seq<(Seq<char>, V)>) -> Map<Seq<char>, V>
    decreases es.len(),
{
    if es.len() == 0 {
        Map::empty()
    } else {
        entries_map(es.drop_last()).insert(es.last().0, es.last().1)
    }
}

pub open spec fn obj_map(es: Seq<(String, Json)>) -> Map<Seq<char>, JsonV> {
    entries_map(entries_view(es))
}

/// The value for `key` in an object's entries, if any.
pub open spec fn obj_get(es: Seq<(String, Json)>, key: Seq<char>) -> Option<JsonV> {
    if obj_map(es).contains_key(key) {
        Some(obj_map(es)[key])
    } else {
        None
    }
}

pub proof fn lemma_entries_map_push<V>(es: Seq<(Seq<char>, V)>, k: Seq<char>, v: V)
    ensures
        entries_map(es.push((k, v))) == entries_map(es).insert(k, v),
{
    assert(es.push((k, v)).drop_last() =~= es);
}

pub proof fn lemma_entries_view_push(es: Seq<(String, Json)>, k: String, v: Json)
    ensures
        entries_view(es.push((k, v))) == entries_view(es).push((k@, v@)),
        obj_map(es.push((k, v))) == obj_map(es).insert(k@, v@),
{
    assert(entries_view(es.push((k, v))) =~= entries_view(es).push((k@, v@)));
    lemma_entries_map_push(entries_view(es), k@, v@);
}

/// The position of the entry that gives `key` its value: the last with that key.
pub fn find_key(es: &Vec<(String, Json)>, key: &str) -> (r: Option<usize>)
    ensures
        r is None ==> !obj_map(es@).contains_key(key@),
        r matches Some(i) ==> i < es@.len() && es@[i as int].0@ == key@ && obj_map(es@).contains_key(key@)
            && obj_map(es@)[key@] == es@[i as int].1@,
{
    let mut i = es.len();
    while i > 0
        invariant
            i <= es@.len(),
            forall|j: int| i <= j < es@.len() ==> es@[j].0@ != key@,
        decreases i,
    {
        if str_eq(es[i - 1].0.as_str(), key) {
            proof {
                lemma_entries_map_last(es@, key@, (i - 1) as int);
            }
            return Some(i - 1);
        }
        i = i - 1;
    }
    proof {
        lemma_entries_map_absent(es@, key@);
    }
    None
}

proof fn lemma_entries_map_last(es: Seq<(String, Json)>, key: Seq<char>, i: int)
    requires
        0 <= i < es.len(),
        es[i].0@ == key,
        forall|j: int| i < j < es.len() ==> es[j].0@ != key,
    ensures
        obj_map(es).contains_key(key),
        obj_map(es)[key] == es[i].1@,
    decreases es.len(),
{
    let ev = entries_view(es);
    assert(ev.drop_last() =~= entries_view(es.drop_last()));
    if i < es.len() - 1 {
        lemma_entries_map_last(es.drop_last(), key, i);
    }
}

proof fn lemma_entries_map_absent(es: Seq<(String, Json)>, key: Seq<char>)
    requires
        forall|j: int| 0 <= j < es.len() ==> es[j].0@ != key,
    ensures
        !obj_map(es).contains_key(key),
    decreases es.len(),
{
    if es.len() > 0 {
        let ev = entries_view(es);
        assert(ev.drop_last() =~= entries_view(es.drop_last()));
        lemma_entries_map_absent(es.drop_last(), key);
    }
}

/// The entries without those for `key`.
pub fn remove_key(es: &mut Vec<(String, Json)>, key: &str)
    ensures
        obj_map(final(es)@) == obj_map(old(es)@).remove(key@),
        forall|j: int| 0 <= j < final(es)@.len() ==> exists|i: int| 0 <= i < old(es)@.len() && old(es)@[i] == #[trigger] final(es)@[j],
{
    let mut src: Vec<(String, Json)> = Vec::new();
    std::mem::swap(es, &mut src);
    let ghost all = src@;
    let ghost n = all.len();
    let total = src.len();
    assert(n == total);
    let mut kept: Vec<(String, Json)> = Vec::new();
    let mut p: usize = 0;
    assert(all.subrange(0, 0) =~= Seq::<(String, Json)>::empty());
    assert(obj_map(kept@) =~= obj_map(all.subrange(0, 0)).remove(key@));
    assert(src@ =~= all.subrange(0, n as int));
    while src.len() > 0
        invariant
            p <= n == all.len(),
            n <= usize::MAX,
            src@ == all.subrange(p as int, n as int),
            obj_map(kept@) == obj_map(all.subrange(0, p as int)).remove(key@),
            forall|j: int| 0 <= j < kept@.len() ==> exists|i: int| 0 <= i < p && all[i] == #[trigger] kept@[j],
        decreases src@.len(),
    {
        let e = src.remove(0);
        assert(all.subrange(0, p + 1) =~= all.subrange(0, p as int).push(e));
        proof {
            lemma_entries_view_push(all.subrange(0, p as int), e.0, e.1);
        }
        if !str_eq(e.0.as_str(), key) {
            let ghost before = kept@;
            proof {
                lemma_entries_view_push(before, e.0, e.1);
            }
            kept.push(e);
            assert(obj_map(kept@) =~= obj_map(all.subrange(0, p + 1)).remove(key@));
            assert(all[p as int] == kept@[kept@.len() - 1]);
        } else {
            assert(obj_map(kept@) =~= obj_map(all.subrange(0, p + 1)).remove(key@));
        }
        p = p + 1;
        assert(src@ =~= all.subrange(p as int, n as int));
    }
    assert(all.subrange(0, n as int) =~= all);
    *es = kept;
}

/// The entries with `value` given to `key`.
pub fn put_key(es: &mut Vec<(String, Json)>, key: String, value: Json)
    ensures
        obj_map(final(es)@) == obj_map(old(es)@).insert(key@, value@),
        final(es)@ == old(es)@.push((key, value)),
{
    proof {
        lemma_entries_view_push(es@, key, value);
    }
    es.push((key, value));
}

} // verus!
