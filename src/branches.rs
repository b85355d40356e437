//! The ordered list of branches to try when an address names none.
use vstd::prelude::*;
use crate::location::{opt_view, GithubLocation};
use crate::text::{string_views, without};

verus! {

/// `s` with `x` appended, unless `s` already holds it.
pub open spec fn add_if_absent(s: Seq<Seq<char>>, x: Seq<char>) -> Seq<Seq<char>> {
    if s.contains(x) {
        s
    } else {
        s.push(x)
    }
}

/// The branches to try: the one the address names alone; else the queried
/// default (when the query succeeded), then `main`, then `master`, each once.
pub open spec fn candidates(explicit: Option<Seq<char>>, queried: Option<Seq<char>>) -> Seq<
    Seq<char>,
> {
    match explicit {
        Some(b) => seq![b],
        None => {
            let first = match queried {
                Some(d) => seq![d],
                None => Seq::empty(),
            };
            add_if_absent(add_if_absent(first, "main"@), "master"@)
        },
    }
}

fn contains_string(v: &Vec<String>, x: &String) -> (r: bool)
    ensures
        r == string_views(v@).contains(x@),
{
    let mut i: usize = 0;
    while i < v.len()
        invariant
            i <= v@.len(),
            forall|j: int| 0 <= j < i ==> v@[j]@ != x@,
        decreases v@.len() - i,
    {
        if v[i] == *x {
            assert(string_views(v@)[i as int] == x@);
            return true;
        }
        i = i + 1;
    }
    assert(!string_views(v@).contains(x@)) by {
        if string_views(v@).contains(x@) {
            let k = choose|k: int| 0 <= k < string_views(v@).len() && string_views(v@)[k] == x@;
            assert(v@[k]@ == x@);
        }
    }
    false
}

fn push_if_absent(v: &mut Vec<String>, x: String)
    ensures
        string_views(final(v)@) == add_if_absent(string_views(old(v)@), x@),
{
    if !contains_string(v, &x) {
        let ghost before = v@;
        v.push(x);
        assert(string_views(v@) =~= string_views(before).push(x@));
    }
}

/// The branches to try for `location`, given what the query for the
/// repository's default branch gave (`None` when it failed).
pub fn branch_candidates(location: &GithubLocation, default_branch: Option<String>) -> (r: Vec<String>)
    ensures
        string_views(r@) == candidates(opt_view(location.branch), opt_view(default_branch)),
{
    let mut r: Vec<String> = Vec::new();
    match &location.branch {
        Some(b) => {
            r.push(b.clone());
            assert(string_views(r@) =~= seq![b@]);
            return r;
        },
        None => {},
    }
    match default_branch {
        Some(d) => {
            r.push(d);
            assert(string_views(r@) =~= seq![d@]);
        },
        None => {
            assert(string_views(r@) =~= Seq::<Seq<char>>::empty());
        },
    }
    push_if_absent(&mut r, "main".to_owned());
    push_if_absent(&mut r, "master".to_owned());
    r
}

/// `branches` with `selected` moved to the front.
pub fn prioritize_branch(branches: &Vec<String>, selected: &String) -> (r: Vec<String>)
    ensures
        string_views(r@) == seq![selected@] + without(string_views(branches@), selected@),
{
    let mut r: Vec<String> = Vec::new();
    r.push(selected.clone());
    let mut i: usize = 0;
    while i < branches.len()
        invariant
            i <= branches@.len(),
            string_views(r@) == seq![selected@] + without(
                string_views(branches@.subrange(0, i as int)),
                selected@,
            ),
        decreases branches@.len() - i,
    {
        let ghost before = r@;
        assert(string_views(branches@.subrange(0, i + 1)).drop_last() =~= string_views(
            branches@.subrange(0, i as int),
        ));
        if branches[i] != *selected {
            r.push(branches[i].clone());
            assert(string_views(r@) =~= string_views(before).push(branches@[i as int]@));
        }
        i = i + 1;
    }
    assert(branches@.subrange(0, branches@.len() as int) =~= branches@);
    r
}

/// With a branch in the address, that branch is the only candidate. Without
/// one, the queried default comes first when there is one, `main` and then
/// `master` follow, and no branch is listed twice.
pub proof fn lemma_candidates(explicit: Option<Seq<char>>, queried: Option<Seq<char>>)
    ensures
        explicit matches Some(b) ==> candidates(explicit, queried) == seq![b],
        explicit is None ==> candidates(explicit, queried) == match queried {
            Some(d) => if d == "main"@ {
                seq!["main"@, "master"@]
            } else if d == "master"@ {
                seq!["master"@, "main"@]
            } else {
                seq![d, "main"@, "master"@]
            },
            None => seq!["main"@, "master"@],
        },
        candidates(explicit, queried).no_duplicates(),
        candidates(explicit, queried).len() >= 1,
{
    reveal_strlit("main");
    reveal_strlit("master");
    assert("main"@ != "master"@) by {
        assert("main"@[2] != "master"@[2]);
    }
    let c = candidates(explicit, queried);
    match explicit {
        Some(b) => {},
        None => match queried {
            Some(d) => {
                let s0 = seq![d];
                if d == "main"@ {
                    assert(s0[0] == "main"@);
                    assert(s0.contains("main"@));
                    assert(!s0.contains("master"@));
                    assert(c =~= seq!["main"@, "master"@]);
                } else if d == "master"@ {
                    assert(!s0.contains("main"@));
                    assert(add_if_absent(s0, "main"@) =~= seq!["master"@, "main"@]);
                    assert(seq!["master"@, "main"@][0] == "master"@);
                    assert(seq!["master"@, "main"@].contains("master"@));
                    assert(c =~= seq!["master"@, "main"@]);
                } else {
                    assert(!s0.contains("main"@));
                    assert(add_if_absent(s0, "main"@) =~= seq![d, "main"@]);
                    assert(!seq![d, "main"@].contains("master"@));
                    assert(c =~= seq![d, "main"@, "master"@]);
                }
            },
            None => {
                assert(!Seq::<Seq<char>>::empty().contains("main"@));
                assert(!seq!["main"@].contains("master"@));
                assert(c =~= seq!["main"@, "master"@]);
            },
        },
    }
}

} // verus!
