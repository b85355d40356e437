//! Character-level helpers shared by the parsers: trimming, splitting,
//! joining and decimal formatting, each stated over `Seq<char>`.
use vstd::prelude::*;

verus! {

/// Relies on `str::chars`: the characters of a string, in order.
#[verifier::external_body]
pub fn chars_of(s: &str) -> (r: Vec<char>)
    ensures
        r@ == s@,
{
    s.chars().collect()
}

/// Relies on collecting characters into a `String`: the same characters, in order.
#[verifier::external_body]
pub fn string_of(v: &Vec<char>) -> (r: String)
    ensures
        r@ == v@,
{
    v.iter().collect()
}

/// Relies on `str` equality: two strings are equal when their characters are.
#[verifier::external_body]
pub fn str_eq(a: &str, b: &str) -> (r: bool)
    ensures
        r == (a@ == b@),
{
    a == b
}

/// The characters Unicode marks `White_Space`, which `char::is_whitespace` tests.
pub open spec fn is_ws(c: char) -> bool {
    let u = c as u32;
    (0x9 <= u && u <= 0xd) || u == 0x20 || u == 0x85 || u == 0xa0 || u == 0x1680 || (0x2000
        <= u && u <= 0x200a) || u == 0x2028 || u == 0x2029 || u == 0x202f || u == 0x205f || u
        == 0x3000
}

pub fn is_whitespace(c: char) -> (r: bool)
    ensures
        r == is_ws(c),
{
    let u = c as u32;
    (0x9 <= u && u <= 0xd) || u == 0x20 || u == 0x85 || u == 0xa0 || u == 0x1680 || (0x2000
        <= u && u <= 0x200a) || u == 0x2028 || u == 0x2029 || u == 0x202f || u == 0x205f || u
        == 0x3000
}

pub open spec fn trim_start(s: Seq<char>) -> Seq<char>
    decreases s.len(),
{
    if s.len() > 0 && is_ws(s[0]) {
        trim_start(s.drop_first())
    } else {
        s
    }
}

pub open spec fn trim_end(s: Seq<char>) -> Seq<char>
    decreases s.len(),
{
    if s.len() > 0 && is_ws(s.last()) {
        trim_end(s.drop_last())
    } else {
        s
    }
}

/// Whitespace removed at both ends, as `str::trim` does.
pub open spec fn trim(s: Seq<char>) -> Seq<char> {
    trim_end(trim_start(s))
}

/// `c` removed repeatedly from both ends, as `str::trim_matches(c)` does.
pub open spec fn trim_char(s: Seq<char>, c: char) -> Seq<char>
    decreases s.len(),
{
    if s.len() > 0 && s[0] == c {
        trim_char(s.drop_first(), c)
    } else if s.len() > 0 && s.last() == c {
        trim_char(s.drop_last(), c)
    } else {
        s
    }
}

/// `suffix` removed from the end for as long as it is there (`str::trim_end_matches`).
pub open spec fn strip_suffixes(s: Seq<char>, suffix: Seq<char>) -> Seq<char>
    decreases s.len(),
{
    if suffix.len() > 0 && s.len() >= suffix.len() && s.subrange(
        s.len() - suffix.len(),
        s.len() as int,
    ) == suffix {
        strip_suffixes(s.subrange(0, s.len() - suffix.len()), suffix)
    } else {
        s
    }
}

/// `prefix` removed from the start for as long as it is there (`str::trim_start_matches`).
pub open spec fn strip_prefixes(s: Seq<char>, prefix: Seq<char>) -> Seq<char>
    decreases s.len(),
{
    if prefix.len() > 0 && s.len() >= prefix.len() && s.subrange(0, prefix.len() as int)
        == prefix {
        strip_prefixes(s.subrange(prefix.len() as int, s.len() as int), prefix)
    } else {
        s
    }
}

pub open spec fn starts_with(s: Seq<char>, prefix: Seq<char>) -> bool {
    s.len() >= prefix.len() && s.subrange(0, prefix.len() as int) == prefix
}

pub open spec fn ends_with(s: Seq<char>, suffix: Seq<char>) -> bool {
    s.len() >= suffix.len() && s.subrange(s.len() - suffix.len(), s.len() as int) == suffix
}

/// The pieces between occurrences of `sep`, as `str::split` gives them.
pub open spec fn split_on(s: Seq<char>, sep: char) -> Seq<Seq<char>>
    decreases s.len(),
{
    if s.len() == 0 {
        seq![Seq::empty()]
    } else {
        let rest = split_on(s.drop_first(), sep);
        if s[0] == sep {
            seq![Seq::<char>::empty()] + rest
        } else {
            rest.update(0, seq![s[0]] + rest[0])
        }
    }
}

pub open spec fn non_empty(parts: Seq<Seq<char>>) -> Seq<Seq<char>>
    decreases parts.len(),
{
    if parts.len() == 0 {
        parts
    } else {
        let r = non_empty(parts.drop_last());
        if parts.last().len() == 0 {
            r
        } else {
            r.push(parts.last())
        }
    }
}

/// The non-empty pieces between occurrences of `sep`.
pub open spec fn segments(s: Seq<char>, sep: char) -> Seq<Seq<char>> {
    non_empty(split_on(s, sep))
}

/// The parts with `sep` between each two, as `[T]::join` gives them.
pub open spec fn join(parts: Seq<Seq<char>>, sep: Seq<char>) -> Seq<char>
    decreases parts.len(),
{
    if parts.len() == 0 {
        Seq::empty()
    } else if parts.len() == 1 {
        parts[0]
    } else {
        join(parts.drop_last(), sep) + sep + parts.last()
    }
}

pub open spec fn views(v: Seq<Vec<char>>) -> Seq<Seq<char>> {
    v.map_values(|x: Vec<char>| x@)
}

pub open spec fn string_views(v: Seq<String>) -> Seq<Seq<char>> {
    v.map_values(|x: String| x@)
}

/// The decimal digits of `n`, without leading zeros.
pub open spec fn decimal(n: nat) -> Seq<char>
    decreases n,
{
    if n < 10 {
        seq![digit_char(n)]
    } else {
        decimal(n / 10).push(digit_char(n % 10))
    }
}

pub open spec fn digit_char(d: nat) -> char {
    (('0' as u32) + d) as char
}

pub fn push_all(dst: &mut Vec<char>, src: &Vec<char>)
    ensures
        final(dst)@ == old(dst)@ + src@,
{
    let mut i: usize = 0;
    while i < src.len()
        invariant
            i <= src@.len(),
            dst@ == old(dst)@ + src@.subrange(0, i as int),
        decreases src@.len() - i,
    {
        dst.push(src[i]);
        i = i + 1;
        assert(dst@ =~= old(dst)@ + src@.subrange(0, i as int));
    }
    assert(src@.subrange(0, src@.len() as int) =~= src@);
}

pub fn push_str(dst: &mut Vec<char>, s: &str)
    ensures
        final(dst)@ == old(dst)@ + s@,
{
    let v = chars_of(s);
    push_all(dst, &v);
}

pub fn concat(a: &Vec<char>, b: &Vec<char>) -> (r: Vec<char>)
    ensures
        r@ == a@ + b@,
{
    let mut r = Vec::new();
    push_all(&mut r, a);
    push_all(&mut r, b);
    assert(r@ =~= a@ + b@);
    r
}

pub fn slice(v: &Vec<char>, from: usize, to: usize) -> (r: Vec<char>)
    requires
        from <= to <= v@.len(),
    ensures
        r@ == v@.subrange(from as int, to as int),
{
    let mut r = Vec::new();
    let mut i = from;
    while i < to
        invariant
            from <= i <= to <= v@.len(),
            r@ == v@.subrange(from as int, i as int),
        decreases to - i,
    {
        r.push(v[i]);
        i = i + 1;
        assert(r@ =~= v@.subrange(from as int, i as int));
    }
    r
}

pub fn chars_eq(a: &Vec<char>, b: &Vec<char>) -> (r: bool)
    ensures
        r == (a@ == b@),
{
    if a.len() != b.len() {
        return false;
    }
    let mut i: usize = 0;
    while i < a.len()
        invariant
            a@.len() == b@.len(),
            i <= a@.len(),
            forall|j: int| 0 <= j < i ==> a@[j] == b@[j],
        decreases a@.len() - i,
    {
        if a[i] != b[i] {
            return false;
        }
        i = i + 1;
    }
    assert(a@ =~= b@);
    true
}

pub fn is_literal(a: &Vec<char>, lit: &str) -> (r: bool)
    ensures
        r == (a@ == lit@),
{
    let b = chars_of(lit);
    chars_eq(a, &b)
}

pub fn has_prefix(s: &Vec<char>, prefix: &Vec<char>) -> (r: bool)
    ensures
        r == starts_with(s@, prefix@),
{
    if s.len() < prefix.len() {
        return false;
    }
    let head = slice(s, 0, prefix.len());
    chars_eq(&head, prefix)
}

pub fn has_suffix(s: &Vec<char>, suffix: &Vec<char>) -> (r: bool)
    ensures
        r == ends_with(s@, suffix@),
{
    if s.len() < suffix.len() {
        return false;
    }
    let tail = slice(s, s.len() - suffix.len(), s.len());
    chars_eq(&tail, suffix)
}

proof fn lemma_trim_start_step(s: Seq<char>, i: int)
    requires
        0 <= i < s.len(),
        is_ws(s[i]),
    ensures
        trim_start(s.subrange(i, s.len() as int)) == trim_start(s.subrange(i + 1, s.len() as int)),
{
    assert(s.subrange(i, s.len() as int).drop_first() =~= s.subrange(i + 1, s.len() as int));
}

proof fn lemma_trim_end_step(s: Seq<char>, j: int)
    requires
        0 < j <= s.len(),
        is_ws(s[j - 1]),
    ensures
        trim_end(s.subrange(0, j)) == trim_end(s.subrange(0, j - 1)),
{
    assert(s.subrange(0, j).drop_last() =~= s.subrange(0, j - 1));
}

/// The bounds of `trim(v)` within `v`.
pub fn trim_bounds(v: &Vec<char>) -> (r: (usize, usize))
    ensures
        r.0 <= r.1 <= v@.len(),
        v@.subrange(r.0 as int, r.1 as int) == trim(v@),
{
    let n = v.len();
    let mut i: usize = 0;
    assert(v@.subrange(0, n as int) =~= v@);
    while i < n && is_whitespace(v[i])
        invariant
            i <= n == v@.len(),
            trim_start(v@) == trim_start(v@.subrange(i as int, n as int)),
        decreases n - i,
    {
        proof {
            lemma_trim_start_step(v@, i as int);
        }
        i = i + 1;
    }
    let ghost rest = v@.subrange(i as int, n as int);
    assert(trim_start(v@) == rest);
    let mut j: usize = n;
    assert(rest.subrange(0, (j - i) as int) =~= rest);
    while j > i && is_whitespace(v[j - 1])
        invariant
            i <= j <= n == v@.len(),
            rest == v@.subrange(i as int, n as int),
            trim_end(rest) == trim_end(rest.subrange(0, (j - i) as int)),
        decreases j,
    {
        proof {
            lemma_trim_end_step(rest, (j - i) as int);
            assert(rest.subrange(0, (j - i - 1) as int) =~= rest.subrange(0, (j - i) as int).subrange(0, (j - i - 1) as int));
        }
        j = j - 1;
    }
    assert(rest.subrange(0, (j - i) as int) =~= v@.subrange(i as int, j as int));
    (i, j)
}

pub fn trim_chars(v: &Vec<char>) -> (r: Vec<char>)
    ensures
        r@ == trim(v@),
{
    let (a, b) = trim_bounds(v);
    slice(v, a, b)
}

pub fn trim_str(s: &str) -> (r: Vec<char>)
    ensures
        r@ == trim(s@),
{
    let v = chars_of(s);
    trim_chars(&v)
}

/// Whether `s` holds nothing but whitespace.
pub fn is_blank(s: &str) -> (r: bool)
    ensures
        r == (trim(s@).len() == 0),
{
    let t = trim_str(s);
    t.len() == 0
}


pub open spec fn prepend(head: Seq<char>, parts: Seq<Seq<char>>) -> Seq<Seq<char>> {
    parts.update(0, head + parts[0])
}

proof fn lemma_split_len(s: Seq<char>, sep: char)
    ensures
        split_on(s, sep).len() >= 1,
    decreases s.len(),
{
    if s.len() > 0 {
        lemma_split_len(s.drop_first(), sep);
    }
}

proof fn lemma_split_step(s: Seq<char>, i: int, sep: char, cur: Seq<char>)
    requires
        0 <= i < s.len(),
    ensures
        s[i] == sep ==> prepend(cur, split_on(s.subrange(i, s.len() as int), sep)) == seq![cur]
            + split_on(s.subrange(i + 1, s.len() as int), sep),
        s[i] != sep ==> prepend(cur, split_on(s.subrange(i, s.len() as int), sep)) == prepend(
            cur.push(s[i]),
            split_on(s.subrange(i + 1, s.len() as int), sep),
        ),
{
    let t = s.subrange(i, s.len() as int);
    let rest = s.subrange(i + 1, s.len() as int);
    assert(t.drop_first() =~= rest);
    lemma_split_len(rest, sep);
    if s[i] == sep {
        assert(prepend(cur, split_on(t, sep)) =~= seq![cur] + split_on(rest, sep));
    } else {
        let r = split_on(rest, sep);
        assert(split_on(t, sep) == r.update(0, seq![s[i]] + r[0]));
        assert(cur + (seq![s[i]] + r[0]) =~= cur.push(s[i]) + r[0]);
        assert(prepend(cur, split_on(t, sep)) =~= prepend(cur.push(s[i]), split_on(rest, sep)));
    }
}

/// Splits at every `sep`, as `str::split` does.
pub fn split_chars(v: &Vec<char>, sep: char) -> (r: Vec<Vec<char>>)
    ensures
        views(r@) == split_on(v@, sep),
{
    let n = v.len();
    let mut parts: Vec<Vec<char>> = Vec::new();
    let mut cur: Vec<char> = Vec::new();
    let mut i: usize = 0;
    assert(v@.subrange(0, n as int) =~= v@);
    proof {
        lemma_split_len(v@, sep);
        assert(prepend(cur@, split_on(v@, sep)) =~= split_on(v@, sep));
    }
    while i < n
        invariant
            i <= n == v@.len(),
            views(parts@) + prepend(cur@, split_on(v@.subrange(i as int, n as int), sep))
                == split_on(v@, sep),
        decreases n - i,
    {
        proof {
            lemma_split_step(v@, i as int, sep, cur@);
        }
        if v[i] == sep {
            let ghost old_parts = parts@;
            let done = cur;
            parts.push(done);
            cur = Vec::new();
            proof {
                let rest = split_on(v@.subrange(i + 1, n as int), sep);
                lemma_split_len(v@.subrange(i + 1, n as int), sep);
                assert(views(parts@) =~= views(old_parts).push(done@));
                assert(prepend(cur@, rest) =~= rest);
                assert(views(old_parts) + (seq![done@] + rest) =~= views(parts@) + rest);
            }
        } else {
            cur.push(v[i]);
        }
        i = i + 1;
    }
    let ghost old_parts = parts@;
    let last = cur;
    parts.push(last);
    proof {
        assert(v@.subrange(n as int, n as int) =~= Seq::<char>::empty());
        assert(views(parts@) =~= views(old_parts).push(last@));
        assert(prepend(last@, split_on(Seq::<char>::empty(), sep)) =~= seq![last@]);
    }
    parts
}

pub fn copy_chars(v: &Vec<char>) -> (r: Vec<char>)
    ensures
        r@ == v@,
{
    slice(v, 0, v.len())
}

pub fn drop_empty(parts: &Vec<Vec<char>>) -> (r: Vec<Vec<char>>)
    ensures
        views(r@) == non_empty(views(parts@)),
{
    let mut r: Vec<Vec<char>> = Vec::new();
    let mut i: usize = 0;
    while i < parts.len()
        invariant
            i <= parts@.len(),
            views(r@) == non_empty(views(parts@.subrange(0, i as int))),
        decreases parts@.len() - i,
    {
        let ghost old_r = r@;
        assert(views(parts@.subrange(0, i + 1)).drop_last() =~= views(parts@.subrange(0, i as int)));
        if parts[i].len() > 0 {
            let p = copy_chars(&parts[i]);
            r.push(p);
            assert(views(r@) =~= views(old_r).push(p@));
        }
        i = i + 1;
    }
    assert(parts@.subrange(0, parts@.len() as int) =~= parts@);
    r
}

/// The non-empty pieces of `v` between occurrences of `sep`.
pub fn segments_of(v: &Vec<char>, sep: char) -> (r: Vec<Vec<char>>)
    ensures
        views(r@) == segments(v@, sep),
{
    let parts = split_chars(v, sep);
    drop_empty(&parts)
}

/// The parts of `parts@[from..to]` joined with `sep` between each two.
pub fn join_range(parts: &Vec<Vec<char>>, from: usize, to: usize, sep: &Vec<char>) -> (r: Vec<char>)
    requires
        from <= to <= parts@.len(),
    ensures
        r@ == join(views(parts@.subrange(from as int, to as int)), sep@),
{
    let mut r: Vec<char> = Vec::new();
    let mut i = from;
    assert(views(parts@.subrange(from as int, from as int)) =~= Seq::<Seq<char>>::empty());
    while i < to
        invariant
            from <= i <= to <= parts@.len(),
            r@ == join(views(parts@.subrange(from as int, i as int)), sep@),
        decreases to - i,
    {
        let ghost pre = views(parts@.subrange(from as int, i as int));
        let ghost next = views(parts@.subrange(from as int, i + 1));
        assert(next.drop_last() =~= pre);
        if i > from {
            push_all(&mut r, sep);
        } else {
            assert(next =~= seq![parts@[i as int]@]);
        }
        push_all(&mut r, &parts[i]);
        i = i + 1;
    }
    r
}

pub fn strip_suffixes_of(s: &Vec<char>, suffix: &str) -> (r: Vec<char>)
    ensures
        r@ == strip_suffixes(s@, suffix@),
{
    let suf = chars_of(suffix);
    let mut end = s.len();
    if suf.len() == 0 {
        return copy_chars(s);
    }
    assert(s@.subrange(0, end as int) =~= s@);
    loop
        invariant
            end <= s@.len(),
            suf@ == suffix@,
            suf@.len() > 0,
            strip_suffixes(s@, suffix@) == strip_suffixes(s@.subrange(0, end as int), suffix@),
        decreases end,
    {
        let head = slice(s, 0, end);
        if has_suffix(&head, &suf) {
            assert(head@.subrange(0, head@.len() - suf@.len()) =~= s@.subrange(0, end - suf@.len()));
            end = end - suf.len();
        } else {
            return head;
        }
    }
}

pub fn strip_prefixes_of(s: &Vec<char>, prefix: &str) -> (r: Vec<char>)
    ensures
        r@ == strip_prefixes(s@, prefix@),
{
    let pre = chars_of(prefix);
    let mut start: usize = 0;
    if pre.len() == 0 {
        return copy_chars(s);
    }
    assert(s@.subrange(0, s@.len() as int) =~= s@);
    loop
        invariant
            start <= s@.len(),
            pre@ == prefix@,
            pre@.len() > 0,
            strip_prefixes(s@, prefix@) == strip_prefixes(s@.subrange(start as int, s@.len() as int), prefix@),
        decreases s@.len() - start,
    {
        let rest = slice(s, start, s.len());
        if has_prefix(&rest, &pre) {
            assert(rest@.subrange(pre@.len() as int, rest@.len() as int) =~= s@.subrange(start + pre@.len(), s@.len() as int));
            start = start + pre.len();
        } else {
            return rest;
        }
    }
}

pub fn trim_char_of(s: &Vec<char>, c: char) -> (r: Vec<char>)
    ensures
        r@ == trim_char(s@, c),
{
    let mut a: usize = 0;
    let mut b: usize = s.len();
    assert(s@.subrange(0, b as int) =~= s@);
    loop
        invariant
            a <= b <= s@.len(),
            trim_char(s@, c) == trim_char(s@.subrange(a as int, b as int), c),
        decreases b - a,
    {
        let ghost t = s@.subrange(a as int, b as int);
        if a < b && s[a] == c {
            assert(t.drop_first() =~= s@.subrange(a + 1, b as int));
            a = a + 1;
        } else if a < b && s[b - 1] == c {
            assert(t.drop_last() =~= s@.subrange(a as int, b - 1));
            b = b - 1;
        } else {
            return slice(s, a, b);
        }
    }
}

pub fn decimal_of(n: u64) -> (r: Vec<char>)
    ensures
        r@ == decimal(n as nat),
    decreases n,
{
    if n < 10 {
        let d = char_digit(n);
        vec![d]
    } else {
        let mut r = decimal_of(n / 10);
        let d = char_digit(n % 10);
        r.push(d);
        r
    }
}

fn char_digit(d: u64) -> (r: char)
    requires
        d < 10,
    ensures
        r == digit_char(d as nat),
{
    let b: u8 = 48u8 + d as u8;
    assert(('0' as u32) == 48);
    b as char
}

pub proof fn lemma_views_subrange(v: Seq<Vec<char>>, a: int, b: int)
    requires
        0 <= a <= b <= v.len(),
    ensures
        views(v.subrange(a, b)) == views(v).subrange(a, b),
        views(v).len() == v.len(),
        forall|i: int| 0 <= i < v.len() ==> #[trigger] views(v)[i] == v[i]@,
{
    assert(views(v.subrange(a, b)) =~= views(v).subrange(a, b));
}

/// `s` without any occurrence of `x`.
pub open spec fn without(s: Seq<Seq<char>>, x: Seq<char>) -> Seq<Seq<char>>
    decreases s.len(),
{
    if s.len() == 0 {
        s
    } else if s.last() == x {
        without(s.drop_last(), x)
    } else {
        without(s.drop_last(), x).push(s.last())
    }
}

pub proof fn lemma_without(s: Seq<Seq<char>>, x: Seq<char>)
    ensures
        without(s, x).len() <= s.len(),
        s.contains(x) ==> without(s, x).len() < s.len(),
        forall|y: Seq<char>| #[trigger] without(s, x).contains(y) <==> (s.contains(y) && y != x),
    decreases s.len(),
{
    if s.len() > 0 {
        let p = s.drop_last();
        lemma_without(p, x);
        assert forall|y: Seq<char>| #[trigger] without(s, x).contains(y) <==> (s.contains(y) && y != x) by {
            if s.contains(y) && y != x {
                let k = choose|k: int| 0 <= k < s.len() && s[k] == y;
                if k < p.len() {
                    assert(p[k] == y);
                    assert(without(p, x).contains(y));
                    if s.last() != x {
                        let j = choose|j: int| 0 <= j < without(p, x).len() && without(p, x)[j] == y;
                        assert(without(s, x)[j] == y);
                    }
                } else {
                    assert(without(s, x).last() == y);
                }
            }
            if without(s, x).contains(y) {
                let k = choose|k: int| 0 <= k < without(s, x).len() && without(s, x)[k] == y;
                if s.last() == x || k < without(p, x).len() {
                    assert(without(p, x)[k] == y);
                    assert(without(p, x).contains(y));
                    let j = choose|j: int| 0 <= j < p.len() && p[j] == y;
                    assert(s[j] == y);
                } else {
                    assert(s[s.len() - 1] == y);
                }
            }
        }
        if s.contains(x) && s.last() != x {
            let k = choose|k: int| 0 <= k < s.len() && s[k] == x;
            assert(p[k] == x);
        }
    }
}

/// Lexicographic order by character, which is the order of `String`s: UTF-8
/// keeps the order of code points.
pub open spec fn seq_lt(a: Seq<char>, b: Seq<char>) -> bool
    decreases a.len(),
{
    if a.len() == 0 {
        b.len() > 0
    } else if b.len() == 0 {
        false
    } else if a[0] != b[0] {
        a[0] < b[0]
    } else {
        seq_lt(a.drop_first(), b.drop_first())
    }
}

pub proof fn lemma_seq_lt_total(a: Seq<char>, b: Seq<char>)
    ensures
        a == b || seq_lt(a, b) || seq_lt(b, a),
        !(seq_lt(a, b) && seq_lt(b, a)),
        !seq_lt(a, a),
    decreases a.len(),
{
    if a.len() > 0 {
        lemma_seq_lt_total(a.drop_first(), a.drop_first());
    }
    if a.len() > 0 && b.len() > 0 {
        lemma_seq_lt_total(a.drop_first(), b.drop_first());
        if a[0] == b[0] && a.drop_first() == b.drop_first() {
            assert(a =~= seq![a[0]] + a.drop_first());
            assert(b =~= seq![b[0]] + b.drop_first());
        }
    } else if a.len() == 0 && b.len() == 0 {
        assert(a =~= b);
    }
}

pub fn chars_lt(a: &Vec<char>, b: &Vec<char>) -> (r: bool)
    ensures
        r == seq_lt(a@, b@),
{
    let mut i: usize = 0;
    assert(a@.subrange(0, a@.len() as int) =~= a@);
    assert(b@.subrange(0, b@.len() as int) =~= b@);
    while i < a.len() && i < b.len() && a[i] == b[i]
        invariant
            i <= a@.len(),
            i <= b@.len(),
            seq_lt(a@, b@) == seq_lt(a@.subrange(i as int, a@.len() as int), b@.subrange(i as int, b@.len() as int)),
        decreases a@.len() - i,
    {
        let ghost x = a@.subrange(i as int, a@.len() as int);
        let ghost y = b@.subrange(i as int, b@.len() as int);
        assert(x.drop_first() =~= a@.subrange(i + 1, a@.len() as int));
        assert(y.drop_first() =~= b@.subrange(i + 1, b@.len() as int));
        i = i + 1;
    }
    assert(a@.subrange(0, a@.len() as int) =~= a@);
    assert(b@.subrange(0, b@.len() as int) =~= b@);
    let ghost x = a@.subrange(i as int, a@.len() as int);
    let ghost y = b@.subrange(i as int, b@.len() as int);
    if i == a.len() {
        assert(x.len() == 0);
        i < b.len()
    } else if i == b.len() {
        false
    } else {
        assert(x[0] == a@[i as int] && y[0] == b@[i as int]);
        a[i] < b[i]
    }
}

pub fn str_lt(a: &str, b: &str) -> (r: bool)
    ensures
        r == seq_lt(a@, b@),
{
    let x = chars_of(a);
    let y = chars_of(b);
    chars_lt(&x, &y)
}

/// The number of bytes UTF-8 takes for a character.
pub open spec fn utf8_width(c: char) -> nat {
    if (c as u32) < 0x80 {
        1
    } else if (c as u32) < 0x800 {
        2
    } else if (c as u32) < 0x10000 {
        3
    } else {
        4
    }
}

/// The number of bytes UTF-8 takes for the characters.
pub open spec fn byte_len(s: Seq<char>) -> nat
    decreases s.len(),
{
    if s.len() == 0 {
        0
    } else {
        byte_len(s.drop_last()) + utf8_width(s.last())
    }
}

/// Line and column after reading `p` from line 1, column 1: a `\n` starts a
/// new line, a `\r` moves nothing, any other character moves one column.
pub open spec fn line_col(p: Seq<char>) -> (nat, nat)
    decreases p.len(),
{
    if p.len() == 0 {
        (1, 1)
    } else {
        let (l, c) = line_col(p.drop_last());
        if p.last() == '\n' {
            (l + 1, 1)
        } else if p.last() == '\r' {
            (l, c)
        } else {
            (l, c + 1)
        }
    }
}

proof fn lemma_line_col_bound(p: Seq<char>)
    ensures
        line_col(p).0 + line_col(p).1 <= p.len() + 2,
        line_col(p).0 >= 1,
        line_col(p).1 >= 1,
    decreases p.len(),
{
    if p.len() > 0 {
        lemma_line_col_bound(p.drop_last());
    }
}

fn width(c: char) -> (r: usize)
    ensures
        r == utf8_width(c),
{
    let u = c as u32;
    if u < 0x80 {
        1
    } else if u < 0x800 {
        2
    } else if u < 0x10000 {
        3
    } else {
        4
    }
}

/// The line and column of the character at byte offset `index` of `input`:
/// the position after the characters that start before `index`.
pub fn line_col_from_index(input: &str, index: usize) -> (r: (usize, usize))
    requires
        input@.len() < usize::MAX,
    ensures
        exists|k: int|
            0 <= k <= input@.len() && (k == input@.len() || byte_len(input@.subrange(0, k)) >= index)
                && (forall|j: int| 0 <= j < k ==> byte_len(#[trigger] input@.subrange(0, j)) < index)
                && r.0 == line_col(input@.subrange(0, k)).0 && r.1 == line_col(input@.subrange(0, k)).1,
{
    let v = chars_of(input);
    let n = v.len();
    let mut line: usize = 1;
    let mut col: usize = 1;
    let mut offset: usize = 0;
    let mut i: usize = 0;
    assert(v@.subrange(0, 0) =~= Seq::<char>::empty());
    while i < n
        invariant
            i <= n == v@.len(),
            v@ == input@,
            n < usize::MAX,
            offset as nat == byte_len(v@.subrange(0, i as int)) || (offset == usize::MAX && byte_len(v@.subrange(0, i as int)) >= usize::MAX),
            forall|j: int| 0 <= j < i ==> byte_len(#[trigger] v@.subrange(0, j)) < index,
            line as nat == line_col(v@.subrange(0, i as int)).0,
            col as nat == line_col(v@.subrange(0, i as int)).1,
        decreases n - i,
    {
        if offset >= index {
            proof {
                assert(byte_len(v@.subrange(0, i as int)) >= index);
            }
            return (line, col);
        }
        let ghost p = v@.subrange(0, i as int);
        assert(v@.subrange(0, i + 1).drop_last() =~= p);
        proof {
            lemma_line_col_bound(p);
        }
        let c = v[i];
        if c == '\n' {
            line = line + 1;
            col = 1;
        } else if c != '\r' {
            col = col + 1;
        }
        offset = offset.saturating_add(width(c));
        i = i + 1;
    }
    assert(v@.subrange(0, n as int) =~= v@);
    (line, col)
}

} // verus!
