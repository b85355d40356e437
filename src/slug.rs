//! Directory names for skills: a slug of the display name, made unique
//! within its root by a numbered suffix.
use vstd::prelude::*;
use crate::text::{
    chars_eq, chars_of, concat, decimal, decimal_of, digit_char, push_str, string_of, string_views,
    trim_char, trim_char_of, views, without, lemma_without,
};

verus! {

pub open spec fn is_ascii_alnum(c: char) -> bool {
    ('0' <= c <= '9') || ('a' <= c <= 'z') || ('A' <= c <= 'Z')
}

pub open spec fn ascii_lower(c: char) -> char {
    if 'A' <= c <= 'Z' {
        ((c as u32) + 32) as char
    } else {
        c
    }
}

/// Lower-cased ASCII letters and digits, every other run of characters one `-`.
pub open spec fn slug_runs(s: Seq<char>) -> Seq<char>
    decreases s.len(),
{
    if s.len() == 0 {
        Seq::empty()
    } else {
        let p = slug_runs(s.drop_last());
        let c = s.last();
        if is_ascii_alnum(c) {
            p.push(ascii_lower(c))
        } else if p.len() > 0 && p.last() == '-' {
            p
        } else {
            p.push('-')
        }
    }
}

/// The slug of `name`; `skill-` and the time stamp when nothing is left of it.
pub open spec fn slug(name: Seq<char>, stamp: u64) -> Seq<char> {
    let t = trim_char(slug_runs(name), '-');
    if t.len() == 0 {
        "skill-"@ + decimal(stamp as nat)
    } else {
        t
    }
}

fn is_alnum(c: char) -> (r: bool)
    ensures
        r == is_ascii_alnum(c),
{
    ('0' <= c && c <= '9') || ('a' <= c && c <= 'z') || ('A' <= c && c <= 'Z')
}

fn lower(c: char) -> (r: char)
    ensures
        r == ascii_lower(c),
{
    if 'A' <= c && c <= 'Z' {
        ((c as u8) + 32) as char
    } else {
        c
    }
}

fn slug_runs_of(v: &Vec<char>) -> (r: Vec<char>)
    ensures
        r@ == slug_runs(v@),
{
    let mut out: Vec<char> = Vec::new();
    let mut last_dash = false;
    let mut i: usize = 0;
    while i < v.len()
        invariant
            i <= v@.len(),
            out@ == slug_runs(v@.subrange(0, i as int)),
            last_dash == (out@.len() > 0 && out@.last() == '-'),
        decreases v@.len() - i,
    {
        assert(v@.subrange(0, i + 1).drop_last() =~= v@.subrange(0, i as int));
        let c = v[i];
        if is_alnum(c) {
            out.push(lower(c));
            last_dash = false;
        } else if !last_dash {
            out.push('-');
            last_dash = true;
        }
        i = i + 1;
    }
    assert(v@.subrange(0, v@.len() as int) =~= v@);
    out
}

/// The slug of `name`, with `stamp` standing in when nothing is left of it.
pub fn slugify_at(name: &str, stamp: u64) -> (r: String)
    ensures
        r@ == slug(name@, stamp),
        r@.len() > 0,
{
    let v = chars_of(name);
    let runs = slug_runs_of(&v);
    let t = trim_char_of(&runs, '-');
    if t.len() == 0 {
        let mut s = chars_of("skill-");
        let d = decimal_of(stamp);
        let r = concat(&s, &d);
        proof {
            reveal_strlit("skill-");
        }
        string_of(&r)
    } else {
        string_of(&t)
    }
}

/// Relies on `SystemTime::now`: whole seconds since the Unix epoch, `None`
/// when the clock reads earlier.
#[verifier::external_body]
fn unix_seconds() -> Option<u64> {
    std::time::SystemTime::now().duration_since(std::time::UNIX_EPOCH).ok().map(|d| d.as_secs())
}

/// The slug of `name`; never empty, the current time standing in when
/// nothing is left of the name.
pub fn slugify(name: &str) -> (r: String)
    ensures
        trim_char(slug_runs(name@), '-').len() > 0 ==> r@ == trim_char(slug_runs(name@), '-'),
        exists|stamp: u64| r@ == slug(name@, stamp),
        r@.len() > 0,
{
    let stamp = match unix_seconds() {
        Some(s) => s,
        None => 0,
    };
    slugify_at(name, stamp)
}

/// `base` with `-` and the decimal form of `k` appended.
pub open spec fn numbered(base: Seq<char>, k: nat) -> Seq<char> {
    base + "-"@ + decimal(k)
}

/// The name a new skill with slug `base` gets when `taken` holds the names
/// already in use: `base` itself if free, else `base-k` for the least free `k >= 1`.
pub open spec fn is_free_name(base: Seq<char>, taken: Seq<Seq<char>>, r: Seq<char>) -> bool {
    if !taken.contains(base) {
        r == base
    } else {
        exists|k: nat|
            k >= 1 && r == numbered(base, k) && !taken.contains(numbered(base, k)) && forall|
                j: nat,
            |
                1 <= j < k ==> taken.contains(#[trigger] numbered(base, j))
    }
}

proof fn lemma_decimal_len(n: nat)
    ensures
        decimal(n).len() >= 1,
        n >= 10 ==> decimal(n).len() >= 2,
    decreases n,
{
    if n >= 10 {
        lemma_decimal_len(n / 10);
    }
}

proof fn lemma_digit(a: nat, b: nat)
    requires
        a < 10,
        b < 10,
        digit_char(a) == digit_char(b),
    ensures
        a == b,
{
    assert(digit_char(a) as u32 == 48 + a);
    assert(digit_char(b) as u32 == 48 + b);
}

proof fn lemma_decimal_injective(a: nat, b: nat)
    requires
        decimal(a) == decimal(b),
    ensures
        a == b,
    decreases a,
{
    lemma_decimal_len(a);
    lemma_decimal_len(b);
    if a < 10 && b < 10 {
        assert(decimal(a) == seq![digit_char(a)]);
        assert(decimal(b) == seq![digit_char(b)]);
        assert(decimal(a)[0] == digit_char(a));
        assert(decimal(b)[0] == digit_char(b));
        lemma_digit(a, b);
    } else if a >= 10 && b >= 10 {
        assert(decimal(a) == decimal(a / 10).push(digit_char(a % 10)));
        assert(decimal(b) == decimal(b / 10).push(digit_char(b % 10)));
        assert(decimal(a).last() == digit_char(a % 10));
        assert(decimal(b).last() == digit_char(b % 10));
        lemma_digit(a % 10, b % 10);
        assert(a % 10 == b % 10);
        assert(decimal(a).drop_last() =~= decimal(a / 10));
        assert(decimal(b).drop_last() =~= decimal(b / 10));
        lemma_decimal_injective(a / 10, b / 10);
        assert(a == 10 * (a / 10) + a % 10);
        assert(b == 10 * (b / 10) + b % 10);
    } else {
        lemma_decimal_len(a / 10);
        lemma_decimal_len(b / 10);
    }
}

proof fn lemma_numbered_injective(base: Seq<char>, a: nat, b: nat)
    requires
        numbered(base, a) == numbered(base, b),
    ensures
        a == b,
{
    let p = base + "-"@;
    assert(numbered(base, a).subrange(p.len() as int, numbered(base, a).len() as int) =~= decimal(a));
    assert(numbered(base, b).subrange(p.len() as int, numbered(base, b).len() as int) =~= decimal(b));
    lemma_decimal_injective(a, b);
}

fn contains_chars(v: &Vec<Vec<char>>, x: &Vec<char>) -> (r: bool)
    ensures
        r == views(v@).contains(x@),
{
    let mut i: usize = 0;
    while i < v.len()
        invariant
            i <= v@.len(),
            forall|j: int| 0 <= j < i ==> v@[j]@ != x@,
        decreases v@.len() - i,
    {
        if chars_eq(&v[i], x) {
            assert(views(v@)[i as int] == x@);
            return true;
        }
        i = i + 1;
    }
    assert(!views(v@).contains(x@)) by {
        if views(v@).contains(x@) {
            let k = choose|k: int| 0 <= k < views(v@).len() && views(v@)[k] == x@;
            assert(v@[k]@ == x@);
        }
    }
    false
}

/// `v` without the elements equal to `x`.
fn remove_equal(v: &Vec<Vec<char>>, x: &Vec<char>) -> (r: Vec<Vec<char>>)
    ensures
        views(r@) == without(views(v@), x@),
{
    let mut r: Vec<Vec<char>> = Vec::new();
    let mut i: usize = 0;
    while i < v.len()
        invariant
            i <= v@.len(),
            views(r@) == without(views(v@.subrange(0, i as int)), x@),
        decreases v@.len() - i,
    {
        let ghost before = r@;
        assert(views(v@.subrange(0, i + 1)).drop_last() =~= views(v@.subrange(0, i as int)));
        if !chars_eq(&v[i], x) {
            let c = crate::text::copy_chars(&v[i]);
            r.push(c);
            assert(views(r@) =~= views(before).push(c@));
        }
        i = i + 1;
    }
    assert(v@.subrange(0, v@.len() as int) =~= v@);
    r
}

/// A name for a new skill with slug `base` that `taken` does not hold:
/// `base` if free, else `base-1`, `base-2`, ... the first that is free.
pub fn unique_name(base: &str, taken: &Vec<String>) -> (r: String)
    requires
        taken@.len() < u64::MAX,
    ensures
        is_free_name(base@, string_views(taken@), r@),
{
    let b = chars_of(base);
    let mut rest: Vec<Vec<char>> = Vec::new();
    let mut i: usize = 0;
    while i < taken.len()
        invariant
            i <= taken@.len(),
            views(rest@) == string_views(taken@.subrange(0, i as int)),
        decreases taken@.len() - i,
    {
        let ghost before = rest@;
        let c = chars_of(taken[i].as_str());
        rest.push(c);
        assert(views(rest@) =~= views(before).push(c@));
        assert(string_views(taken@.subrange(0, i + 1)) =~= string_views(taken@.subrange(0, i as int)).push(taken@[i as int]@));
        i = i + 1;
    }
    assert(taken@.subrange(0, taken@.len() as int) =~= taken@);
    let ghost all = string_views(taken@);
    if !contains_chars(&rest, &b) {
        return string_of(&b);
    }
    let mut dashed = b.clone();
    push_str(&mut dashed, "-");
    let mut k: u64 = 1;
    loop
        invariant
            dashed@ == base@ + "-"@,
            b@ == base@,
            all == string_views(taken@),
            all.contains(base@),
            1 <= k,
            (k - 1) + rest@.len() <= all.len(),
            all.len() < u64::MAX,
            forall|j: nat| 1 <= j < k ==> all.contains(#[trigger] numbered(base@, j)),
            forall|y: Seq<char>|
                views(rest@).contains(y) ==> all.contains(y),
            forall|y: Seq<char>|
                all.contains(y) && !views(rest@).contains(y) ==> exists|j: nat|
                    1 <= j < k && y == #[trigger] numbered(base@, j),
        decreases rest@.len(),
    {
        let d = decimal_of(k);
        let cand = concat(&dashed, &d);
        assert(cand@ == numbered(base@, k as nat));
        if !contains_chars(&rest, &cand) {
            assert(!all.contains(cand@)) by {
                if all.contains(cand@) {
                    let j = choose|j: nat| 1 <= j < k && cand@ == #[trigger] numbered(base@, j);
                    lemma_numbered_injective(base@, j, k as nat);
                }
            }
            proof {
                let kk = k as nat;
                assert(kk >= 1 && cand@ == numbered(base@, kk) && !all.contains(numbered(base@, kk))
                    && forall|j: nat| 1 <= j < kk ==> all.contains(#[trigger] numbered(base@, j)));
                assert(is_free_name(base@, all, cand@));
            }
            let res = string_of(&cand);
            assert(is_free_name(base@, string_views(taken@), res@));
            return res;
        }
        let next = remove_equal(&rest, &cand);
        proof {
            lemma_without(views(rest@), cand@);
        }
        assert forall|y: Seq<char>| all.contains(y) && !views(next@).contains(y) implies exists|
            j: nat,
        | 1 <= j < k + 1 && y == #[trigger] numbered(base@, j) by {
            if y == cand@ {
                assert(1 <= k < k + 1 && y == numbered(base@, k as nat));
            } else {
                let j = choose|j: nat| 1 <= j < k && y == #[trigger] numbered(base@, j);
                assert(1 <= j < k + 1);
            }
        }
        assert forall|j: nat| 1 <= j < k + 1 implies all.contains(#[trigger] numbered(base@, j)) by {
            if j == k {
            }
        }
        rest = next;
        k = k + 1;
    }
}

} // verus!
