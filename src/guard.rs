//! The check that keeps every write, move and delete inside a declared
//! root, made on canonical paths (symlinks and `..` already resolved).
use vstd::prelude::*;
use crate::text::{chars_eq, chars_of, segments, segments_of, views};

verus! {

pub open spec fn is_absolute(p: Seq<char>) -> bool {
    p.len() > 0 && p[0] == '/'
}

/// The components of a path: its non-empty pieces between `/`.
pub open spec fn components(p: Seq<char>) -> Seq<Seq<char>> {
    segments(p, '/')
}

/// Whether `target` lies at or below `root`, component by component, as
/// `Path::starts_with` compares them.
pub open spec fn within(root: Seq<char>, target: Seq<char>) -> bool {
    &&& is_absolute(root) == is_absolute(target)
    &&& components(root).len() <= components(target).len()
    &&& components(target).subrange(0, components(root).len() as int) == components(root)
}

/// Whether the canonical path `target` stays within the canonical path `root`.
pub fn path_within_root(root: &str, target: &str) -> (r: bool)
    ensures
        r == within(root@, target@),
{
    let rv = chars_of(root);
    let tv = chars_of(target);
    let ra = rv.len() > 0 && rv[0] == '/';
    let ta = tv.len() > 0 && tv[0] == '/';
    if ra != ta {
        return false;
    }
    let rc = segments_of(&rv, '/');
    let tc = segments_of(&tv, '/');
    if rc.len() > tc.len() {
        return false;
    }
    let mut i: usize = 0;
    while i < rc.len()
        invariant
            i <= rc@.len() <= tc@.len(),
            views(rc@) == components(root@),
            views(tc@) == components(target@),
            forall|j: int| 0 <= j < i ==> rc@[j]@ == tc@[j]@,
        decreases rc@.len() - i,
    {
        if !chars_eq(&rc[i], &tc[i]) {
            assert(views(tc@).subrange(0, rc@.len() as int)[i as int] != views(rc@)[i as int]);
            return false;
        }
        i = i + 1;
    }
    assert(views(tc@).subrange(0, rc@.len() as int) =~= views(rc@));
    true
}

#[derive(Debug, Clone, Copy, PartialEq, Eq, Structural)]
pub enum GuardedOperation {
    Read,
    Sync,
    Delete,
    Copy,
}

impl GuardedOperation {
    pub fn refusal(&self) -> (r: &'static str)
        ensures
            r@ == (match *self {
                GuardedOperation::Read => "Refusing to read outside agent root"@,
                GuardedOperation::Sync => "Refusing to sync outside agent root"@,
                GuardedOperation::Delete => "Refusing to delete outside agent root"@,
                GuardedOperation::Copy => "Refusing to copy outside agent root"@,
            }),
    {
        match self {
            GuardedOperation::Read => "Refusing to read outside agent root",
            GuardedOperation::Sync => "Refusing to sync outside agent root",
            GuardedOperation::Delete => "Refusing to delete outside agent root",
            GuardedOperation::Copy => "Refusing to copy outside agent root",
        }
    }
}

/// Allows `op` on the canonical path `target` only inside the canonical `root`.
pub fn guard_path(op: GuardedOperation, root: &str, target: &str) -> (r: Result<(), GuardedOperation>)
    ensures
        r is Ok <==> within(root@, target@),
        r matches Err(e) ==> e == op,
{
    if path_within_root(root, target) {
        Ok(())
    } else {
        Err(op)
    }
}

/// A canonical target is accepted exactly when its components are the
/// root's followed by more: a path that leaves the root anywhere, through
/// `..` or a symlink, resolves to one whose components are not, and is refused.
pub proof fn lemma_within_root(root: Seq<char>, target: Seq<char>)
    ensures
        within(root, target) <==> (is_absolute(root) == is_absolute(target) && exists|
            rest: Seq<Seq<char>>,
        | components(target) == components(root) + rest),
{
    let rc = components(root);
    let tc = components(target);
    if within(root, target) {
        let rest = tc.subrange(rc.len() as int, tc.len() as int);
        assert(tc =~= rc + rest);
    }
    if is_absolute(root) == is_absolute(target) && exists|rest: Seq<Seq<char>>|
        tc == rc + rest {
        let rest = choose|rest: Seq<Seq<char>>| tc == rc + rest;
        assert(tc.subrange(0, rc.len() as int) =~= rc);
    }
}

} // verus!
