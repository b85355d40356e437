//! The order in which listings are shown: by rank, then by name with case
//! folded, equal keys keeping their listing order.
use vstd::prelude::*;
use crate::text::{seq_lt, str_lt, lemma_seq_lt_total};

verus! {

/// What `str::to_lowercase` makes of a text; it depends on the text alone.
pub uninterp spec fn lower_of(s: Seq<char>) -> Seq<char>;

/// Relies on `str::to_lowercase`: Unicode lower case of each character.
#[verifier::external_body]
fn fold_case(s: &str) -> (r: String)
    ensures
        r@ == lower_of(s@),
{
    s.to_lowercase()
}

/// Whether key `a` comes before key `b`: a lower rank first, then the
/// smaller name.
pub open spec fn key_lt(a: (u8, Seq<char>), b: (u8, Seq<char>)) -> bool {
    a.0 < b.0 || (a.0 == b.0 && seq_lt(a.1, b.1))
}

pub open spec fn key_view(k: (u8, String)) -> (u8, Seq<char>) {
    (k.0, k.1@)
}

/// Whether `order` lists each position of `keys` once, keys never falling,
/// and equal keys in their listing order.
pub open spec fn stable_order(keys: Seq<(u8, String)>, order: Seq<usize>) -> bool {
    &&& order.len() == keys.len()
    &&& forall|i: int| 0 <= i < order.len() ==> #[trigger] order[i] < keys.len()
    &&& forall|i: int, j: int| 0 <= i < j < order.len() ==> order[i] != order[j]
    &&& forall|i: int|
        0 <= i < order.len() - 1 ==> !key_lt(
            key_view(keys[order[i + 1] as int]),
            key_view(#[trigger] keys[order[i] as int]),
        )
    &&& forall|i: int|
        0 <= i < order.len() - 1 && key_view(keys[order[i] as int]) == key_view(
            #[trigger] keys[order[i + 1] as int],
        ) ==> order[i] < order[i + 1]
}

fn key_less(a: &(u8, String), b: &(u8, String)) -> (r: bool)
    ensures
        r == key_lt(key_view(*a), key_view(*b)),
{
    a.0 < b.0 || (a.0 == b.0 && str_lt(a.1.as_str(), b.1.as_str()))
}

proof fn lemma_key_total(a: (u8, Seq<char>), b: (u8, Seq<char>))
    ensures
        a == b || key_lt(a, b) || key_lt(b, a),
        !(key_lt(a, b) && key_lt(b, a)),
{
    lemma_seq_lt_total(a.1, b.1);
}

/// The positions of `keys` in the order to show them.
pub fn order_by_keys(keys: &Vec<(u8, String)>) -> (r: Vec<usize>)
    ensures
        stable_order(keys@, r@),
{
    let mut order: Vec<usize> = Vec::new();
    let mut i: usize = 0;
    while i < keys.len()
        invariant
            i <= keys@.len(),
            order@.len() == i,
            forall|a: int| 0 <= a < order@.len() ==> #[trigger] order@[a] < i,
            forall|a: int, b: int| 0 <= a < b < order@.len() ==> order@[a] != order@[b],
            forall|a: int|
                0 <= a < order@.len() - 1 ==> !key_lt(
                    key_view(keys@[order@[a + 1] as int]),
                    key_view(#[trigger] keys@[order@[a] as int]),
                ),
            forall|a: int|
                0 <= a < order@.len() - 1 && key_view(keys@[order@[a] as int]) == key_view(
                    #[trigger] keys@[order@[a + 1] as int],
                ) ==> order@[a] < order@[a + 1],
        decreases keys@.len() - i,
    {
        let ghost before = order@;
        let mut p: usize = 0;
        while p < order.len() && !key_less(&keys[i], &keys[order[p]])
            invariant
                p <= order@.len(),
                order@ == before,
                before.len() == i,
                i < keys@.len(),
                forall|a: int| 0 <= a < before.len() ==> #[trigger] before[a] < i,
                forall|a: int| 0 <= a < p ==> !key_lt(key_view(keys@[i as int]), key_view(#[trigger] keys@[before[a] as int])),
            decreases order@.len() - p,
        {
            p = p + 1;
        }
        order.insert(p, i);
        assert(order@ == before.insert(p as int, i));
        let ghost ki = key_view(keys@[i as int]);
        assert forall|a: int| 0 <= a < order@.len() - 1 implies !key_lt(
            key_view(keys@[order@[a + 1] as int]),
            key_view(#[trigger] keys@[order@[a] as int]),
        ) by {
            if a + 1 < p {
                assert(order@[a] == before[a] && order@[a + 1] == before[a + 1]);
            } else if a + 1 == p {
                assert(order@[a] == before[a]);
                lemma_key_total(ki, key_view(keys@[before[a] as int]));
            } else if a == p {
                assert(order@[a + 1] == before[a]);
                lemma_key_total(ki, key_view(keys@[before[a] as int]));
            } else {
                let b = a - 1;
                assert(order@[a] == before[b] && order@[a + 1] == before[b + 1]);
            }
        }
        assert forall|a: int|
            0 <= a < order@.len() - 1 && key_view(keys@[order@[a] as int]) == key_view(
                #[trigger] keys@[order@[a + 1] as int],
            ) implies order@[a] < order@[a + 1] by {
            if a + 1 < p {
                assert(order@[a] == before[a] && order@[a + 1] == before[a + 1]);
            } else if a + 1 == p {
                assert(order@[a] == before[a]);
            } else if a == p {
                assert(order@[a + 1] == before[a]);
                lemma_key_total(ki, key_view(keys@[before[a] as int]));
            } else {
                let b = a - 1;
                assert(order@[a] == before[b] && order@[a + 1] == before[b + 1]);
            }
        }
        assert forall|a: int, b: int| 0 <= a < b < order@.len() implies order@[a] != order@[b] by {
            if a < p && b < p {
                assert(order@[a] == before[a] && order@[b] == before[b]);
            } else if a < p && b == p {
                assert(order@[a] == before[a]);
            } else if a < p {
                assert(order@[a] == before[a] && order@[b] == before[b - 1]);
            } else if a == p {
                assert(order@[b] == before[b - 1]);
            } else {
                assert(order@[a] == before[a - 1] && order@[b] == before[b - 1]);
            }
        }
        assert forall|a: int| 0 <= a < order@.len() implies #[trigger] order@[a] < i + 1 by {
            if a < p {
                assert(order@[a] == before[a]);
            } else if a > p {
                assert(order@[a] == before[a - 1]);
            }
        }
        i = i + 1;
    }
    order
}

pub open spec fn folded_keys(ranks: Seq<u8>, names: Seq<String>, keys: Seq<(u8, String)>) -> bool {
    &&& keys.len() == names.len()
    &&& forall|i: int| 0 <= i < keys.len() ==> #[trigger] keys[i].0 == ranks[i] && keys[i].1@ == lower_of(names[i]@)
}

/// The positions of listed entries in the order to show them: by `ranks`
/// (lower first), then by name with case folded, ties in listing order.
pub fn display_order(ranks: &Vec<u8>, names: &Vec<String>) -> (r: Vec<usize>)
    requires
        ranks@.len() == names@.len(),
    ensures
        exists|keys: Seq<(u8, String)>| folded_keys(ranks@, names@, keys) && stable_order(keys, r@),
{
    let mut keys: Vec<(u8, String)> = Vec::new();
    let mut i: usize = 0;
    while i < names.len()
        invariant
            i <= names@.len() == ranks@.len(),
            keys@.len() == i,
            forall|j: int| 0 <= j < i ==> #[trigger] keys@[j].0 == ranks@[j] && keys@[j].1@ == lower_of(names@[j]@),
        decreases names@.len() - i,
    {
        keys.push((ranks[i], fold_case(names[i].as_str())));
        i = i + 1;
    }
    let r = order_by_keys(&keys);
    assert(folded_keys(ranks@, names@, keys@));
    r
}

} // verus!
