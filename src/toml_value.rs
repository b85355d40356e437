//! A TOML value as the library reads it, and the conversions between TOML
//! and JSON values that keep integers, floats, strings, booleans, arrays and
//! tables apart.
use vstd::prelude::*;
use crate::json::{Json, JsonV, Number, json_valid, entries_map, lemma_array_view, lemma_object_view, items_view, entries_view};
use crate::text::str_eq;

verus! {

broadcast use vstd::seq::axiom_seq_index_decreases;

/// A TOML value; a float is held as the bits of its `f64`, a date-time as its
/// text.
#[derive(Debug)]
pub enum Toml {
    Str(String),
    Integer(i64),
    Float(u64),
    Boolean(bool),
    Datetime(String),
    Array(Vec<Toml>),
    Table(Vec<(String, Toml)>),
}

pub enum TomlV {
    Str(Seq<char>),
    Integer(i64),
    Float(u64),
    Boolean(bool),
    Datetime(Seq<char>),
    Array(Seq<TomlV>),
    Table(Seq<(Seq<char>, TomlV)>),
}

impl Toml {
    pub open spec fn view(&self) -> TomlV
        decreases self,
    {
        match self {
            Toml::Str(s) => TomlV::Str(s@),
            Toml::Integer(i) => TomlV::Integer(*i),
            Toml::Float(b) => TomlV::Float(*b),
            Toml::Boolean(b) => TomlV::Boolean(*b),
            Toml::Datetime(s) => TomlV::Datetime(s@),
            Toml::Array(xs) => TomlV::Array(
                Seq::new(
                    xs.len() as nat,
                    |i: int|
                        if 0 <= i < xs.len() {
                            xs[i].view()
                        } else {
                            TomlV::Boolean(false)
                        },
                ),
            ),
            Toml::Table(es) => TomlV::Table(
                Seq::new(
                    es.len() as nat,
                    |i: int|
                        if 0 <= i < es.len() {
                            (es[i].0@, es[i].1.view())
                        } else {
                            (Seq::empty(), TomlV::Boolean(false))
                        },
                ),
            ),
        }
    }
}

pub open spec fn table_view(es: Seq<(String, Toml)>) -> Seq<(Seq<char>, TomlV)> {
    Seq::new(es.len(), |i: int| (es[i].0@, es[i].1@))
}

pub proof fn lemma_table_view(es: Vec<(String, Toml)>)
    ensures
        Toml::Table(es)@ == TomlV::Table(table_view(es@)),
{
    assert(table_view(es@) =~= match Toml::Table(es)@ {
        TomlV::Table(s) => s,
        _ => Seq::empty(),
    });
}

pub proof fn lemma_toml_array_view(xs: Vec<Toml>)
    ensures
        Toml::Array(xs)@ == TomlV::Array(Seq::new(xs@.len(), |i: int| xs@[i]@)),
{
    assert(Seq::new(xs@.len(), |i: int| xs@[i]@) =~= match Toml::Array(xs)@ {
        TomlV::Array(s) => s,
        _ => Seq::empty(),
    });
}

pub open spec fn two_pow_52() -> nat {
    0x10_0000_0000_0000
}

/// Whether the `f64` with these bits is finite: its exponent is not all ones.
pub open spec fn f64_is_finite(bits: u64) -> bool {
    (bits as nat / two_pow_52()) % 2048 != 2047
}

/// The bits of the `f64` nearest to `u`, ties to even, for `u >= 2^63`:
/// the top 53 bits rounded, exponent 63 (or 64 when rounding carries).
pub open spec fn large_u64_as_f64(u: u64) -> u64 {
    let m = u as nat / 2048;
    let rem = u as nat % 2048;
    let up = rem > 1024 || (rem == 1024 && m % 2 == 1);
    let m2 = if up {
        m + 1
    } else {
        m
    };
    if m2 == 2 * two_pow_52() {
        (1087 * two_pow_52()) as u64
    } else {
        (1086 * two_pow_52() + (m2 - two_pow_52())) as u64
    }
}

pub open spec fn int_number(i: i64) -> Number {
    if i < 0 {
        Number::NegInt(i)
    } else {
        Number::PosInt(i as u64)
    }
}

/// The JSON value of a TOML value: date-times become their text, and a
/// float that is not finite becomes 0.
pub open spec fn json_of_toml(t: TomlV) -> JsonV
    decreases t,
{
    match t {
        TomlV::Str(s) => JsonV::Str(s),
        TomlV::Integer(i) => JsonV::Number(int_number(i)),
        TomlV::Float(b) => if f64_is_finite(b) {
            JsonV::Number(Number::Float(b))
        } else {
            JsonV::Number(Number::PosInt(0))
        },
        TomlV::Boolean(b) => JsonV::Bool(b),
        TomlV::Datetime(s) => JsonV::Str(s),
        TomlV::Array(xs) => JsonV::Array(
            Seq::new(
                xs.len(),
                |i: int|
                    if 0 <= i < xs.len() {
                        json_of_toml(xs[i])
                    } else {
                        JsonV::Null
                    },
            ),
        ),
        TomlV::Table(es) => JsonV::Object(
            Seq::new(
                es.len(),
                |i: int|
                    if 0 <= i < es.len() {
                        (es[i].0, json_of_toml(es[i].1))
                    } else {
                        (Seq::empty(), JsonV::Null)
                    },
            ),
        ),
    }
}

/// Whether a null occurs anywhere in the value; TOML has none.
pub open spec fn has_null(j: Json) -> bool
    decreases j,
{
    match j {
        Json::Null => true,
        Json::Array(xs) => exists|i: int| 0 <= i < xs.len() && has_null(#[trigger] xs[i]),
        Json::Object(es) => exists|i: int| 0 <= i < es.len() && has_null(#[trigger] es[i].1),
        _ => false,
    }
}

/// The TOML value of a JSON value without nulls: integers that fit `i64`
/// stay integers, larger ones become the nearest float.
pub open spec fn toml_of_json(j: JsonV) -> TomlV
    decreases j,
{
    match j {
        JsonV::Null => TomlV::Boolean(false),
        JsonV::Bool(b) => TomlV::Boolean(b),
        JsonV::Number(n) => match n {
            Number::PosInt(u) => if u <= i64::MAX {
                TomlV::Integer(u as i64)
            } else {
                TomlV::Float(large_u64_as_f64(u))
            },
            Number::NegInt(i) => TomlV::Integer(i),
            Number::Float(b) => TomlV::Float(b),
        },
        JsonV::Str(s) => TomlV::Str(s),
        JsonV::Array(xs) => TomlV::Array(
            Seq::new(
                xs.len(),
                |i: int|
                    if 0 <= i < xs.len() {
                        toml_of_json(xs[i])
                    } else {
                        TomlV::Boolean(false)
                    },
            ),
        ),
        JsonV::Object(es) => TomlV::Table(
            Seq::new(
                es.len(),
                |i: int|
                    if 0 <= i < es.len() {
                        (es[i].0, toml_of_json(es[i].1))
                    } else {
                        (Seq::empty(), TomlV::Boolean(false))
                    },
            ),
        ),
    }
}

fn finite(bits: u64) -> (r: bool)
    ensures
        r == f64_is_finite(bits),
{
    (bits / 0x10_0000_0000_0000) % 2048 != 2047
}

fn large_to_f64_bits(u: u64) -> (r: u64)
    requires
        u > i64::MAX,
    ensures
        r == large_u64_as_f64(u),
{
    let m = u / 2048;
    let rem = u % 2048;
    let up = rem > 1024 || (rem == 1024 && m % 2 == 1);
    let m2 = if up {
        m + 1
    } else {
        m
    };
    assert(m >= 0x10_0000_0000_0000);
    if m2 == 0x20_0000_0000_0000 {
        1087 * 0x10_0000_0000_0000
    } else {
        1086 * 0x10_0000_0000_0000 + (m2 - 0x10_0000_0000_0000)
    }
}

/// The JSON value of a TOML value.
pub fn toml_to_json(value: &Toml) -> (r: Json)
    ensures
        r@ == json_of_toml(value@),
        json_valid(r),
    decreases value,
{
    match value {
        Toml::Str(s) => Json::Str(s.clone()),
        Toml::Integer(i) => Json::Number(
            if *i < 0 {
                Number::NegInt(*i)
            } else {
                Number::PosInt(*i as u64)
            },
        ),
        Toml::Float(b) => if finite(*b) {
            Json::Number(Number::Float(*b))
        } else {
            Json::Number(Number::PosInt(0))
        },
        Toml::Boolean(b) => Json::Bool(*b),
        Toml::Datetime(s) => Json::Str(s.clone()),
        Toml::Array(xs) => {
            let out = toml_items_to_json(xs);
            proof {
                lemma_array_view(out);
                lemma_toml_array_view(*xs);
                assert(items_view(out@) =~= match json_of_toml(value@) {
                    JsonV::Array(s) => s,
                    _ => Seq::empty(),
                });
            }
            Json::Array(out)
        },
        Toml::Table(es) => {
            let out = toml_entries_to_json(es);
            proof {
                lemma_object_view(out);
                lemma_table_view(*es);
                assert(entries_view(out@) =~= match json_of_toml(value@) {
                    JsonV::Object(s) => s,
                    _ => Seq::empty(),
                });
            }
            Json::Object(out)
        },
    }
}

fn toml_items_to_json(xs: &Vec<Toml>) -> (out: Vec<Json>)
    ensures
        out@.len() == xs@.len(),
        forall|j: int| 0 <= j < xs@.len() ==> out@[j]@ == json_of_toml(xs@[j]@),
        forall|j: int| 0 <= j < xs@.len() ==> json_valid(#[trigger] out@[j]),
    decreases xs, 0nat,
{
    let mut out: Vec<Json> = Vec::new();
    let mut i: usize = 0;
    while i < xs.len()
        invariant
            i <= xs@.len(),
            out@.len() == i,
            forall|j: int| 0 <= j < i ==> out@[j]@ == json_of_toml(xs@[j]@),
            forall|j: int| 0 <= j < i ==> json_valid(#[trigger] out@[j]),
        decreases xs@.len() - i,
    {
        proof {
            assert(decreases_to!(xs => xs@[i as int]));
        }
        let c = toml_to_json(&xs[i]);
        out.push(c);
        i = i + 1;
    }
    out
}

fn toml_entries_to_json(es: &Vec<(String, Toml)>) -> (out: Vec<(String, Json)>)
    ensures
        out@.len() == es@.len(),
        forall|j: int|
            0 <= j < es@.len() ==> out@[j].0@ == es@[j].0@ && out@[j].1@ == json_of_toml(es@[j].1@),
        forall|j: int| 0 <= j < es@.len() ==> json_valid(#[trigger] out@[j].1),
    decreases es, 0nat,
{
    let mut out: Vec<(String, Json)> = Vec::new();
    let mut i: usize = 0;
    while i < es.len()
        invariant
            i <= es@.len(),
            out@.len() == i,
            forall|j: int|
                0 <= j < i ==> out@[j].0@ == es@[j].0@ && out@[j].1@ == json_of_toml(es@[j].1@),
            forall|j: int| 0 <= j < i ==> json_valid(#[trigger] out@[j].1),
        decreases es@.len() - i,
    {
        proof {
            assert(decreases_to!(es => es@[i as int].1));
        }
        let c = toml_to_json(&es[i].1);
        out.push((es[i].0.clone(), c));
        i = i + 1;
    }
    out
}

#[derive(Debug, Clone, Copy, PartialEq, Eq, Structural)]
pub enum ConvertError {
    NullValue,
}

impl ConvertError {
    pub fn message(&self) -> (r: &'static str)
        ensures
            r@ == (match *self {
                ConvertError::NullValue => "Null values are not supported"@,
            }),
    {
        match self {
            ConvertError::NullValue => "Null values are not supported",
        }
    }
}

/// The TOML value of a JSON value; fails on a null anywhere in it.
pub fn json_to_toml(value: &Json) -> (r: Result<Toml, ConvertError>)
    ensures
        r is Ok <==> !has_null(*value),
        r matches Ok(t) ==> t@ == toml_of_json(value@),
    decreases value,
{
    match value {
        Json::Null => Err(ConvertError::NullValue),
        Json::Bool(b) => Ok(Toml::Boolean(*b)),
        Json::Number(n) => match n {
            Number::PosInt(u) => if *u <= 0x7fff_ffff_ffff_ffff {
                Ok(Toml::Integer(*u as i64))
            } else {
                Ok(Toml::Float(large_to_f64_bits(*u)))
            },
            Number::NegInt(i) => Ok(Toml::Integer(*i)),
            Number::Float(b) => Ok(Toml::Float(*b)),
        },
        Json::Str(s) => Ok(Toml::Str(s.clone())),
        Json::Array(xs) => {
            proof {
                lemma_array_view(*xs);
            }
            let mut out: Vec<Toml> = Vec::new();
            let mut i: usize = 0;
            while i < xs.len()
                invariant
                    i <= xs@.len(),
                    value@ == JsonV::Array(items_view(xs@)),
                    *value == Json::Array(*xs),
                    out@.len() == i,
                    forall|j: int| 0 <= j < i ==> out@[j]@ == toml_of_json(xs@[j]@),
                    forall|j: int| 0 <= j < i ==> !has_null(#[trigger] xs@[j]),
                decreases xs@.len() - i,
            {
                proof {
                    assert(decreases_to!(*value => xs@[i as int]));
                }
                match json_to_toml(&xs[i]) {
                    Ok(t) => out.push(t),
                    Err(e) => {
                        assert(has_null(xs@[i as int]));
                        return Err(e);
                    },
                }
                i = i + 1;
            }
            proof {
                lemma_toml_array_view(out);
                assert(Seq::new(out@.len(), |i: int| out@[i]@) =~= match toml_of_json(value@) {
                    TomlV::Array(s) => s,
                    _ => Seq::empty(),
                });

            }
            Ok(Toml::Array(out))
        },
        Json::Object(es) => {
            proof {
                lemma_object_view(*es);
            }
            let mut out: Vec<(String, Toml)> = Vec::new();
            let mut i: usize = 0;
            while i < es.len()
                invariant
                    i <= es@.len(),
                    value@ == JsonV::Object(entries_view(es@)),
                    *value == Json::Object(*es),
                    out@.len() == i,
                    forall|j: int|
                        0 <= j < i ==> out@[j].0@ == es@[j].0@ && out@[j].1@ == toml_of_json(
                            es@[j].1@,
                        ),
                    forall|j: int| 0 <= j < i ==> !has_null(#[trigger] es@[j].1),
                decreases es@.len() - i,
            {
                proof {
                    assert(decreases_to!(*value => es@[i as int].1));
                }
                match json_to_toml(&es[i].1) {
                    Ok(t) => out.push((es[i].0.clone(), t)),
                    Err(e) => {
                        assert(has_null(es@[i as int].1));
                        return Err(e);
                    },
                }
                i = i + 1;
            }
            proof {
                lemma_table_view(out);
                assert(table_view(out@) =~= match toml_of_json(value@) {
                    TomlV::Table(s) => s,
                    _ => Seq::empty(),
                });

            }
            Ok(Toml::Table(out))
        },
    }
}

/// Whether TOML can hold the value: no nulls, and no integer above `i64::MAX`.
pub open spec fn toml_representable(j: Json) -> bool
    decreases j,
{
    match j {
        Json::Null => false,
        Json::Number(Number::PosInt(u)) => u <= i64::MAX,
        Json::Array(xs) => forall|i: int| 0 <= i < xs.len() ==> toml_representable(#[trigger] xs[i]),
        Json::Object(es) => forall|i: int| 0 <= i < es.len() ==> toml_representable(#[trigger] es[i].1),
        _ => true,
    }
}

/// Whether TOML can hold the value exactly: a valid value without nulls
/// and without integers above `i64::MAX`.
pub open spec fn toml_safe(j: Json) -> bool
    decreases j,
{
    match j {
        Json::Null => false,
        Json::Number(n) => match n {
            Number::PosInt(u) => u <= i64::MAX,
            Number::NegInt(i) => i < 0,
            Number::Float(b) => f64_is_finite(b),
        },
        Json::Array(xs) => forall|i: int| 0 <= i < xs.len() ==> toml_safe(#[trigger] xs[i]),
        Json::Object(es) => forall|i: int| 0 <= i < es.len() ==> toml_safe(#[trigger] es[i].1),
        _ => true,
    }
}

pub proof fn lemma_toml_safe(j: Json)
    requires
        json_valid(j),
        toml_representable(j),
    ensures
        toml_safe(j),
    decreases j,
{
    match j {
        Json::Array(xs) => {
            assert forall|i: int| 0 <= i < xs.len() implies toml_safe(#[trigger] xs[i]) by {
                assert(decreases_to!(j => xs@[i]));
                lemma_toml_safe(xs[i]);
            }
        },
        Json::Object(es) => {
            assert forall|i: int| 0 <= i < es.len() implies toml_safe(#[trigger] es[i].1) by {
                assert(decreases_to!(j => es@[i].1));
                lemma_toml_safe(es[i].1);
            }
        },
        _ => {},
    }
}

/// A valid value that TOML can hold comes back unchanged from TOML.
pub proof fn lemma_json_toml_round_trip(j: Json)
    requires
        json_valid(j),
        toml_representable(j),
    ensures
        json_of_toml(toml_of_json(j@)) == j@,
{
    lemma_toml_safe(j);
    lemma_toml_round_trip(j);
}

/// A value that TOML can hold exactly comes back unchanged from TOML.
pub proof fn lemma_toml_round_trip(j: Json)
    requires
        toml_safe(j),
    ensures
        json_of_toml(toml_of_json(j@)) == j@,
    decreases j,
{
    match j {
        Json::Array(xs) => {
            lemma_array_view(xs);
            let s = items_view(xs@);
            assert forall|i: int| 0 <= i < s.len() implies json_of_toml(toml_of_json(s[i]))
                == s[i] by {
                assert(decreases_to!(j => xs@[i]));
                assert(toml_safe(xs[i]));
                lemma_toml_round_trip(xs[i]);
            }
            let tv = toml_of_json(j@);
            let t = tv->Array_0;
            assert(t.len() == s.len());
            assert(forall|i: int| 0 <= i < s.len() ==> t[i] == toml_of_json(s[i]));
            let jv = json_of_toml(tv);
            let u = jv->Array_0;
            assert(forall|i: int| 0 <= i < t.len() ==> u[i] == json_of_toml(t[i]));
            assert(u =~= s);
        },
        Json::Object(es) => {
            lemma_object_view(es);
            let s = entries_view(es@);
            assert forall|i: int| 0 <= i < s.len() implies json_of_toml(toml_of_json(s[i].1))
                == s[i].1 by {
                assert(decreases_to!(j => es@[i].1));
                assert(toml_safe(es[i].1));
                lemma_toml_round_trip(es[i].1);
            }
            let tv = toml_of_json(j@);
            let t = tv->Table_0;
            assert(t.len() == s.len());
            assert(forall|i: int| 0 <= i < s.len() ==> t[i] == (s[i].0, toml_of_json(s[i].1)));
            let jv = json_of_toml(tv);
            let u = jv->Object_0;
            assert(forall|i: int| 0 <= i < t.len() ==> u[i] == (t[i].0, json_of_toml(t[i].1)));
            assert(u =~= s);
        },
        _ => {},
    }
}

impl Toml {
    /// A copy equal to `self` all the way down.
    pub fn deep_copy(&self) -> (r: Toml)
        ensures
            r@ == self@,
        decreases self,
    {
        match self {
            Toml::Str(s) => Toml::Str(s.clone()),
            Toml::Integer(i) => Toml::Integer(*i),
            Toml::Float(b) => Toml::Float(*b),
            Toml::Boolean(b) => Toml::Boolean(*b),
            Toml::Datetime(s) => Toml::Datetime(s.clone()),
            Toml::Array(xs) => {
                let v = copy_toml_items(xs);
                proof {
                    lemma_toml_array_view(v);
                    lemma_toml_array_view(*xs);
                    assert(Seq::new(v@.len(), |i: int| v@[i]@) =~= Seq::new(xs@.len(), |i: int| xs@[i]@));
                }
                Toml::Array(v)
            },
            Toml::Table(es) => {
                let v = copy_table(es);
                proof {
                    lemma_table_view(v);
                    lemma_table_view(*es);
                }
                Toml::Table(v)
            },
        }
    }
}

fn copy_toml_items(xs: &Vec<Toml>) -> (r: Vec<Toml>)
    ensures
        r@.len() == xs@.len(),
        forall|j: int| 0 <= j < xs@.len() ==> r@[j]@ == xs@[j]@,
    decreases xs, 0nat,
{
    let mut r: Vec<Toml> = Vec::new();
    let mut i: usize = 0;
    while i < xs.len()
        invariant
            i <= xs@.len(),
            r@.len() == i,
            forall|j: int| 0 <= j < i ==> r@[j]@ == xs@[j]@,
        decreases xs@.len() - i,
    {
        proof {
            assert(decreases_to!(xs => xs@[i as int]));
        }
        let c = xs[i].deep_copy();
        r.push(c);
        i = i + 1;
    }
    r
}

/// Copies of table entries, equal all the way down.
pub fn copy_table(es: &Vec<(String, Toml)>) -> (r: Vec<(String, Toml)>)
    ensures
        table_view(r@) == table_view(es@),
    decreases es, 0nat,
{
    let mut r: Vec<(String, Toml)> = Vec::new();
    let mut i: usize = 0;
    while i < es.len()
        invariant
            i <= es@.len(),
            r@.len() == i,
            forall|j: int| 0 <= j < i ==> r@[j].0@ == es@[j].0@ && r@[j].1@ == es@[j].1@,
        decreases es@.len() - i,
    {
        proof {
            assert(decreases_to!(es => es@[i as int].1));
        }
        let v = es[i].1.deep_copy();
        r.push((es[i].0.clone(), v));
        i = i + 1;
    }
    assert(table_view(r@) =~= table_view(es@));
    r
}

pub open spec fn table_map(es: Seq<(String, Toml)>) -> Map<Seq<char>, TomlV> {
    entries_map(table_view(es))
}

proof fn lemma_table_push(es: Seq<(String, Toml)>, k: String, v: Toml)
    ensures
        table_map(es.push((k, v))) == table_map(es).insert(k@, v@),
{
    assert(table_view(es.push((k, v))) =~= table_view(es).push((k@, v@)));
    assert(table_view(es).push((k@, v@)).drop_last() =~= table_view(es));
}

proof fn lemma_table_last(es: Seq<(String, Toml)>, key: Seq<char>, i: int)
    requires
        0 <= i < es.len(),
        es[i].0@ == key,
        forall|j: int| i < j < es.len() ==> es[j].0@ != key,
    ensures
        table_map(es).contains_key(key),
        table_map(es)[key] == es[i].1@,
    decreases es.len(),
{
    assert(table_view(es).drop_last() =~= table_view(es.drop_last()));
    if i < es.len() - 1 {
        lemma_table_last(es.drop_last(), key, i);
    }
}

proof fn lemma_table_absent(es: Seq<(String, Toml)>, key: Seq<char>)
    requires
        forall|j: int| 0 <= j < es.len() ==> es[j].0@ != key,
    ensures
        !table_map(es).contains_key(key),
    decreases es.len(),
{
    if es.len() > 0 {
        assert(table_view(es).drop_last() =~= table_view(es.drop_last()));
        lemma_table_absent(es.drop_last(), key);
    }
}

/// The position of the entry that gives `key` its value: the last with that key.
pub fn find_table_key(es: &Vec<(String, Toml)>, key: &str) -> (r: Option<usize>)
    ensures
        r is None ==> !table_map(es@).contains_key(key@),
        r matches Some(i) ==> i < es@.len() && es@[i as int].0@ == key@ && table_map(es@).contains_key(key@)
            && table_map(es@)[key@] == es@[i as int].1@,
{
    let mut i = es.len();
    while i > 0
        invariant
            i <= es@.len(),
            forall|j: int| i <= j < es@.len() ==> es@[j].0@ != key@,
        decreases i,
    {
        if str_eq(es[i - 1].0.as_str(), key) {
            proof {
                lemma_table_last(es@, key@, (i - 1) as int);
            }
            return Some(i - 1);
        }
        i = i - 1;
    }
    proof {
        lemma_table_absent(es@, key@);
    }
    None
}

/// The entries with `value` given to `key`.
pub fn put_table_key(es: &mut Vec<(String, Toml)>, key: String, value: Toml)
    ensures
        table_map(final(es)@) == table_map(old(es)@).insert(key@, value@),
{
    proof {
        lemma_table_push(es@, key, value);
    }
    es.push((key, value));
}

/// The entries without those for `key`.
pub fn remove_table_key(es: &mut Vec<(String, Toml)>, key: &str)
    ensures
        table_map(final(es)@) == table_map(old(es)@).remove(key@),
{
    let mut src: Vec<(String, Toml)> = Vec::new();
    std::mem::swap(es, &mut src);
    let ghost all = src@;
    let ghost n = all.len();
    let total = src.len();
    assert(n == total);
    let mut kept: Vec<(String, Toml)> = Vec::new();
    let mut p: usize = 0;
    assert(table_view(kept@) =~= Seq::<(Seq<char>, TomlV)>::empty());
    assert(table_view(all.subrange(0, 0)) =~= Seq::<(Seq<char>, TomlV)>::empty());
    assert(table_map(kept@) =~= table_map(all.subrange(0, 0)).remove(key@));
    assert(src@ =~= all.subrange(0, n as int));
    while src.len() > 0
        invariant
            p <= n == all.len(),
            n <= usize::MAX,
            src@ == all.subrange(p as int, n as int),
            table_map(kept@) == table_map(all.subrange(0, p as int)).remove(key@),
        decreases src@.len(),
    {
        let e = src.remove(0);
        assert(all.subrange(0, p + 1) =~= all.subrange(0, p as int).push(e));
        proof {
            lemma_table_push(all.subrange(0, p as int), e.0, e.1);
        }
        if !str_eq(e.0.as_str(), key) {
            let ghost before = kept@;
            proof {
                lemma_table_push(before, e.0, e.1);
            }
            kept.push(e);
            assert(table_map(kept@) =~= table_map(all.subrange(0, p + 1)).remove(key@));
        } else {
            assert(table_map(kept@) =~= table_map(all.subrange(0, p + 1)).remove(key@));
        }
        p = p + 1;
        assert(src@ =~= all.subrange(p as int, n as int));
    }
    assert(all.subrange(0, n as int) =~= all);
    *es = kept;
}

} // verus!
