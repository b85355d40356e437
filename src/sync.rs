//! The add-only merge of named items from one installation into another.
use vstd::prelude::*;
use crate::text::string_views;

verus! {

/// The identifiers of `source` that the merge adds to `target`, in source
/// order: those that `target` lacks, each once.
pub open spec fn staged(source: Seq<Seq<char>>, target: Seq<Seq<char>>) -> Seq<Seq<char>>
    decreases source.len(),
{
    if source.len() == 0 {
        Seq::empty()
    } else {
        let prev = staged(source.drop_last(), target);
        let id = source.last();
        if target.contains(id) || prev.contains(id) {
            prev
        } else {
            prev.push(id)
        }
    }
}

/// Counts of a merge: items added, and items left alone because the target had them.
#[derive(Debug, Clone, Copy, PartialEq, Eq, Structural)]
pub struct SyncResult {
    pub added: usize,
    pub skipped: usize,
}

/// What a merge does: the positions in the source of the items to add, and the counts.
#[derive(Debug)]
pub struct SyncPlan {
    pub to_add: Vec<usize>,
    pub result: SyncResult,
}

fn contains_id(v: &Vec<String>, upto: usize, x: &String) -> (r: bool)
    requires
        upto <= v@.len(),
    ensures
        r == string_views(v@.subrange(0, upto as int)).contains(x@),
{
    let mut i: usize = 0;
    while i < upto
        invariant
            i <= upto <= v@.len(),
            forall|j: int| 0 <= j < i ==> v@[j]@ != x@,
        decreases upto - i,
    {
        if v[i] == *x {
            assert(string_views(v@.subrange(0, upto as int))[i as int] == x@);
            return true;
        }
        i = i + 1;
    }
    assert(!string_views(v@.subrange(0, upto as int)).contains(x@)) by {
        let s = string_views(v@.subrange(0, upto as int));
        if s.contains(x@) {
            let k = choose|k: int| 0 <= k < s.len() && s[k] == x@;
            assert(v@[k]@ == x@);
        }
    }
    false
}

/// Which source items a merge into `target_ids` adds, and how many it skips.
pub fn sync_plan(source_ids: &Vec<String>, target_ids: &Vec<String>) -> (r: SyncPlan)
    ensures
        r.to_add@.len() == staged(string_views(source_ids@), string_views(target_ids@)).len(),
        forall|k: int|
            0 <= k < r.to_add@.len() ==> #[trigger] r.to_add@[k] < source_ids@.len()
                && source_ids@[r.to_add@[k] as int]@ == staged(
                string_views(source_ids@),
                string_views(target_ids@),
            )[k],
        r.result.added == staged(string_views(source_ids@), string_views(target_ids@)).len(),
        r.result.added + r.result.skipped == source_ids@.len(),
{
    let ghost src = string_views(source_ids@);
    let ghost tgt = string_views(target_ids@);
    let mut to_add: Vec<usize> = Vec::new();
    let mut staged_ids: Vec<String> = Vec::new();
    let mut i: usize = 0;
    assert(target_ids@.subrange(0, target_ids@.len() as int) =~= target_ids@);
    while i < source_ids.len()
        invariant
            i <= source_ids@.len(),
            src == string_views(source_ids@),
            tgt == string_views(target_ids@),
            string_views(staged_ids@) == staged(src.subrange(0, i as int), tgt),
            to_add@.len() == staged_ids@.len() <= i,
            forall|k: int|
                0 <= k < to_add@.len() ==> #[trigger] to_add@[k] < source_ids@.len()
                    && source_ids@[to_add@[k] as int]@ == staged_ids@[k]@,
        decreases source_ids@.len() - i,
    {
        assert(src.subrange(0, i + 1).drop_last() =~= src.subrange(0, i as int));
        assert(target_ids@.subrange(0, target_ids@.len() as int) =~= target_ids@);
        let id = &source_ids[i];
        assert(src.subrange(0, i + 1).last() == id@);
        let in_target = contains_id(target_ids, target_ids.len(), id);
        let in_staged = contains_id(&staged_ids, staged_ids.len(), id);
        proof {
            assert(staged_ids@.subrange(0, staged_ids@.len() as int) =~= staged_ids@);
        }
        if !in_target && !in_staged {
            let ghost before = staged_ids@;
            staged_ids.push(id.clone());
            to_add.push(i);
            assert(string_views(staged_ids@) =~= string_views(before).push(id@));
        }
        i = i + 1;
    }
    assert(src.subrange(0, source_ids@.len() as int) =~= src);
    let added = to_add.len();
    proof {
        assert(string_views(staged_ids@).len() == staged_ids@.len());
    }
    SyncPlan { to_add, result: SyncResult { added, skipped: source_ids.len() - added } }
}

/// What a merge stages: the source's identifiers that the target lacks.
pub proof fn lemma_staged_contains(source: Seq<Seq<char>>, target: Seq<Seq<char>>, y: Seq<char>)
    ensures
        staged(source, target).contains(y) <==> (source.contains(y) && !target.contains(y)),
        staged(source, target).len() <= source.len(),
    decreases source.len(),
{
    if source.len() > 0 {
        let p = source.drop_last();
        let prev = staged(p, target);
        lemma_staged_contains(p, target, y);
        lemma_staged_contains(p, target, source.last());
        let s = staged(source, target);
        if s.contains(y) {
            let k = choose|k: int| 0 <= k < s.len() && s[k] == y;
            if k < prev.len() {
                assert(prev[k] == y);
                let j = choose|j: int| 0 <= j < p.len() && p[j] == y;
                assert(source[j] == y);
            } else {
                assert(source[source.len() - 1] == y);
            }
        }
        if source.contains(y) && !target.contains(y) {
            let k = choose|k: int| 0 <= k < source.len() && source[k] == y;
            if k < p.len() {
                assert(p[k] == y);
                let j = choose|j: int| 0 <= j < prev.len() && prev[j] == y;
                assert(s[j] == y);
            } else {
                if !prev.contains(y) {
                    assert(s[s.len() - 1] == y);
                }
            }
        }
    }
}

/// The merge is add-only and idempotent: the target afterwards holds exactly
/// the identifiers of the target and the source together, and merging the
/// same source again adds nothing and skips every item.
pub proof fn lemma_sync_idempotent(source: Seq<Seq<char>>, target: Seq<Seq<char>>)
    ensures
        (target + staged(source, target)).to_set() == target.to_set() + source.to_set(),
        staged(source, target + staged(source, target)).len() == 0,
{
    let s = staged(source, target);
    let after = target + s;
    assert forall|y: Seq<char>| after.contains(y) <==> (target.contains(y) || source.contains(y)) by {
        lemma_staged_contains(source, target, y);
        if after.contains(y) {
            let k = choose|k: int| 0 <= k < after.len() && after[k] == y;
            if k >= target.len() {
                assert(s[k - target.len()] == y);
            }
        }
        if target.contains(y) {
            let k = choose|k: int| 0 <= k < target.len() && target[k] == y;
            assert(after[k] == y);
        } else if source.contains(y) {
            let k = choose|k: int| 0 <= k < s.len() && s[k] == y;
            assert(after[target.len() + k] == y);
        }
    }
    assert(after.to_set() =~= target.to_set() + source.to_set());
    let again = staged(source, after);
    if again.len() > 0 {
        let y = again[0];
        assert(again.contains(y));
        lemma_staged_contains(source, after, y);
    }
}

} // verus!
