//! Traversal engine: turns per-directory listings into one depth-first,
//! deterministic sequence of entries, pruning ignored children as it goes.
//!
//! The walker holds a stack of pending entries and makes every decision of
//! the walk: which children of a directory are kept, in what order entries
//! come out, and what relative path and depth each one carries. The caller
//! owns the filesystem: it pops the next pending entry, and when that entry
//! is a directory it reads the directory and hands the listing back, with
//! each child already judged by the ignore predicate. A child judged ignored
//! is dropped on the spot — it never enters the stack, so it is never
//! yielded and its listing is never asked for. [`sort_children`] puts a
//! listing into lexicographic name order first, so the walk does not depend
//! on the order the directory was read in.

use vstd::prelude::*;
use vstd::string::*;

verus! {

/// Whether a filesystem node is a directory or a file.
#[derive(Clone, Copy, PartialEq, Eq, Structural, Debug)]
pub enum EntryKind {
    Directory,
    File,
}

/// One node of the walked tree: its path relative to the scan root, its bare
/// name, its kind, and its depth below the root (1 for the root's children).
pub struct Entry {
    pub rel_path: String,
    pub name: String,
    pub kind: EntryKind,
    pub depth: usize,
}

impl Clone for Entry {
    fn clone(&self) -> (r: Entry)
        ensures
            r.rel_path@ == self.rel_path@,
            r.name@ == self.name@,
            r.kind == self.kind,
            r.depth == self.depth,
    {
        Entry {
            rel_path: self.rel_path.clone(),
            name: self.name.clone(),
            kind: self.kind,
            depth: self.depth,
        }
    }
}

/// One child found when listing a directory, with the ignore predicate's
/// verdict already applied.
pub struct ChildInfo {
    pub name: String,
    pub kind: EntryKind,
    pub ignored: bool,
}

impl Clone for ChildInfo {
    fn clone(&self) -> (r: ChildInfo)
        ensures
            r.name@ == self.name@,
            r.kind == self.kind,
            r.ignored == self.ignored,
    {
        ChildInfo { name: self.name.clone(), kind: self.kind, ignored: self.ignored }
    }
}

/// A child's path relative to the scan root: the parent's relative path and
/// the child's name, separated by a slash; just the name under the root.
pub open spec fn joined_path(parent_rel: Seq<char>, name: Seq<char>) -> Seq<char> {
    if parent_rel.len() == 0 {
        name
    } else {
        parent_rel + "/"@ + name
    }
}

/// The children of a listing that survive pruning: exactly the ones not
/// judged ignored, in listing order.
pub open spec fn kept(cs: Seq<ChildInfo>) -> Seq<ChildInfo>
    decreases cs.len(),
{
    if cs.len() == 0 {
        Seq::empty()
    } else if cs[0].ignored {
        kept(cs.drop_first())
    } else {
        seq![cs[0]] + kept(cs.drop_first())
    }
}

/// True when entry `e` is the walker's entry for child `c` of a directory
/// with the given relative path and depth.
pub open spec fn entry_for(e: Entry, parent_rel: Seq<char>, parent_depth: int, c: ChildInfo) -> bool {
    &&& e.name@ == c.name@
    &&& e.kind == c.kind
    &&& e.depth == parent_depth + 1
    &&& e.rel_path@ == joined_path(parent_rel, c.name@)
}

/// The traversal engine's state: the stack of entries not yet yielded, top
/// last.
pub struct Walker {
    stack: Vec<Entry>,
}

impl Walker {
    /// The entries waiting to be yielded, in stack order: the last one comes
    /// out next.
    pub closed spec fn pending(&self) -> Seq<Entry> {
        self.stack@
    }

    /// A fresh walker with nothing pending. Feed it the root's listing with
    /// [`Walker::enter`] under an empty relative path and depth 0.
    pub fn new() -> (r: Walker)
        ensures
            r.pending() == Seq::<Entry>::empty(),
    {
        Walker { stack: Vec::new() }
    }

    /// Yields the next entry of the walk, depth first: the top of the stack,
    /// or nothing when the walk is over.
    pub fn next(&mut self) -> (r: Option<Entry>)
        ensures
            old(self).pending().len() == 0 ==> r is None && final(self).pending() == old(self).pending(),
            old(self).pending().len() > 0 ==> r == Some(old(self).pending().last())
                && final(self).pending() == old(self).pending().drop_last(),
    {
        self.stack.pop()
    }

    /// Takes the listing of the directory at `parent_rel` and `parent_depth`
    /// and pushes entries for exactly its non-ignored children, in reverse
    /// listing order, so that they pop in listing order before everything
    /// that was already pending. Ignored children are dropped and nothing of
    /// theirs is ever pushed.
    pub fn enter(&mut self, parent_rel: &str, parent_depth: usize, children: Vec<ChildInfo>)
        requires
            parent_depth < usize::MAX,
        ensures
            final(self).pending().len() == old(self).pending().len() + kept(children@).len(),
            forall|i: int|
                0 <= i < old(self).pending().len() ==> final(self).pending()[i] == old(self).pending()[i],
            forall|j: int|
                old(self).pending().len() <= j < final(self).pending().len() ==> entry_for(
                    #[trigger] final(self).pending()[j],
                    parent_rel@,
                    parent_depth as int,
                    kept(children@)[final(self).pending().len() - 1 - j],
                ),
    {
        let ghost all = children@;
        let mut cs = children;
        while cs.len() > 0
            invariant
                parent_depth < usize::MAX,
                cs@.len() <= all.len(),
                cs@ =~= all.take(cs@.len() as int),
                self.stack@.len() == old(self).stack@.len() + kept(
                    all.skip(cs@.len() as int),
                ).len(),
                forall|i: int|
                    0 <= i < old(self).stack@.len() ==> self.stack@[i] == old(self).stack@[i],
                forall|j: int|
                    old(self).stack@.len() <= j < self.stack@.len() ==> entry_for(
                        #[trigger] self.stack@[j],
                        parent_rel@,
                        parent_depth as int,
                        kept(all.skip(cs@.len() as int))[self.stack@.len() - 1 - j],
                    ),
            decreases cs@.len(),
        {
            let ghost l = cs@.len() as int;
            let c = cs.pop().unwrap();
            proof {
                assert(c == all[l - 1]);
                assert(cs@ =~= all.take(l - 1));
                assert(all.skip(l - 1) =~= seq![c] + all.skip(l));
                assert((seq![c] + all.skip(l)).drop_first() =~= all.skip(l));
            }
            if !c.ignored {
                let mut rel = String::new();
                if !parent_rel.is_empty() {
                    rel.append(parent_rel);
                    rel.append("/");
                }
                rel.append(c.name.as_str());
                proof {
                    assert(rel@ =~= joined_path(parent_rel@, c.name@));
                }
                let e = Entry {
                    rel_path: rel,
                    name: c.name,
                    kind: c.kind,
                    depth: parent_depth + 1,
                };
                self.stack.push(e);
            }
        }
        proof {
            assert(all.skip(0) =~= all);
        }
    }
}

/// Lexicographic order on names, character by character; a prefix comes
/// before every longer name it starts.
pub open spec fn lex_le(a: Seq<char>, b: Seq<char>) -> bool
    decreases a.len(),
{
    if a.len() == 0 {
        true
    } else if b.len() == 0 {
        false
    } else if a[0] != b[0] {
        a[0] < b[0]
    } else {
        lex_le(a.skip(1), b.skip(1))
    }
}

/// Any two names are ordered one way or the other.
pub proof fn lemma_lex_le_total(a: Seq<char>, b: Seq<char>)
    ensures
        lex_le(a, b) || lex_le(b, a),
    decreases a.len(),
{
    if a.len() > 0 && b.len() > 0 && a[0] == b[0] {
        lemma_lex_le_total(a.skip(1), b.skip(1));
    }
}

/// The order is transitive.
pub proof fn lemma_lex_le_trans(a: Seq<char>, b: Seq<char>, c: Seq<char>)
    requires
        lex_le(a, b),
        lex_le(b, c),
    ensures
        lex_le(a, c),
    decreases a.len(),
{
    if a.len() > 0 && b.len() > 0 && c.len() > 0 && a[0] == b[0] && b[0] == c[0] {
        lemma_lex_le_trans(a.skip(1), b.skip(1), c.skip(1));
    }
}

/// Decides the lexicographic order of two names.
pub fn name_le(a: &str, b: &str) -> (r: bool)
    ensures
        r == lex_le(a@, b@),
{
    let an = a.unicode_len();
    let bn = b.unicode_len();
    let mut i: usize = 0;
    proof {
        assert(a@.skip(0) =~= a@);
        assert(b@.skip(0) =~= b@);
    }
    while i < an && i < bn
        invariant
            i <= an,
            i <= bn,
            an == a@.len(),
            bn == b@.len(),
            lex_le(a@, b@) == lex_le(a@.skip(i as int), b@.skip(i as int)),
        decreases an - i,
    {
        let ca = a.get_char(i);
        let cb = b.get_char(i);
        proof {
            assert(a@.skip(i as int)[0] == a@[i as int]);
            assert(b@.skip(i as int)[0] == b@[i as int]);
            assert(a@.skip(i as int).skip(1) =~= a@.skip(i + 1));
            assert(b@.skip(i as int).skip(1) =~= b@.skip(i + 1));
        }
        if ca != cb {
            return ca < cb;
        }
        i = i + 1;
    }
    proof {
        if i == an {
            assert(a@.skip(i as int).len() == 0);
        } else {
            assert(b@.skip(i as int).len() == 0);
            assert(a@.skip(i as int).len() > 0);
        }
    }
    i >= an
}

/// Sorts a listing by child name so that the walk's order does not depend on
/// the order the directory happened to be read in: the result holds the same
/// children, ordered by [`lex_le`] on their names.
pub fn sort_children(children: Vec<ChildInfo>) -> (r: Vec<ChildInfo>)
    ensures
        r@.len() == children@.len(),
        forall|i: int, j: int|
            0 <= i < j < r@.len() ==> lex_le(#[trigger] r@[i].name@, #[trigger] r@[j].name@),
        r@.to_multiset() == children@.to_multiset(),
{
    let ghost all = children@;
    let mut cs = children;
    let mut out: Vec<ChildInfo> = Vec::new();
    proof {
        assert(all.skip(cs@.len() as int) =~= out@);
    }
    while cs.len() > 0
        invariant
            cs@.len() <= all.len(),
            cs@ =~= all.take(cs@.len() as int),
            out@.len() + cs@.len() == all.len(),
            forall|i: int, j: int|
                0 <= i < j < out@.len() ==> lex_le(
                    #[trigger] out@[i].name@,
                    #[trigger] out@[j].name@,
                ),
            out@.to_multiset() == all.skip(cs@.len() as int).to_multiset(),
        decreases cs@.len(),
    {
        let ghost l = cs@.len() as int;
        let c = cs.pop().unwrap();
        proof {
            assert(c == all[l - 1]);
            assert(cs@ =~= all.take(l - 1));
            assert(all.skip(l - 1) =~= all.skip(l).insert(0, c));
        }
        let mut p: usize = 0;
        while p < out.len() && name_le(&out[p].name, &c.name)
            invariant
                p <= out@.len(),
                forall|k: int| 0 <= k < p ==> lex_le(#[trigger] out@[k].name@, c.name@),
            decreases out@.len() - p,
        {
            p = p + 1;
        }
        proof {
            if p < out@.len() {
                lemma_lex_le_total(out@[p as int].name@, c.name@);
            }
        }
        let ghost before = out@;
        out.insert(p, c);
        proof {
            assert forall|i: int, j: int| 0 <= i < j < out@.len() implies lex_le(
                #[trigger] out@[i].name@,
                #[trigger] out@[j].name@,
            ) by {
                let pi = p as int;
                if i < pi && j == pi {
                } else if i == pi && j > pi {
                    if j - 1 > pi {
                        lemma_lex_le_trans(c.name@, before[pi].name@, before[j - 1].name@);
                    }
                }
            }
            assert(out@ == before.insert(p as int, c));
            vstd::seq_lib::to_multiset_insert(before, p as int, c);
            vstd::seq_lib::to_multiset_insert(all.skip(l), 0, c);
            assert(out@.to_multiset() == all.skip(l - 1).to_multiset());
        }
    }
    proof {
        assert(all.skip(0) =~= all);
    }
    out
}

/// Every entry the walker creates sits strictly below the root: its depth is
/// its parent's plus one, so never less than one.
pub proof fn lemma_entries_sit_below_root(
    e: Entry,
    parent_rel: Seq<char>,
    parent_depth: int,
    c: ChildInfo,
)
    requires
        entry_for(e, parent_rel, parent_depth, c),
        parent_depth >= 0,
    ensures
        e.depth >= 1,
{
}

/// Pruning never keeps an ignored child: every entry the walker pushes for a
/// listing stands for a child the ignore predicate let through.
pub proof fn lemma_kept_excludes_ignored(cs: Seq<ChildInfo>)
    ensures
        forall|j: int| 0 <= j < kept(cs).len() ==> !kept(cs)[j].ignored,
    decreases cs.len(),
{
    if cs.len() > 0 {
        lemma_kept_excludes_ignored(cs.drop_first());
    }
}

/// Pruning drops nothing else: every child the ignore predicate let through
/// is kept.
pub proof fn lemma_kept_complete(cs: Seq<ChildInfo>, i: int)
    requires
        0 <= i < cs.len(),
        !cs[i].ignored,
    ensures
        kept(cs).contains(cs[i]),
    decreases cs.len(),
{
    if i == 0 {
        assert(kept(cs)[0] == cs[0]);
    } else {
        lemma_kept_complete(cs.drop_first(), i - 1);
        let rest = kept(cs.drop_first());
        let j = choose|j: int| 0 <= j < rest.len() && rest[j] == cs.drop_first()[i - 1];
        if cs[0].ignored {
            assert(kept(cs)[j] == cs[i]);
        } else {
            assert(kept(cs)[j + 1] == cs[i]);
        }
    }
}

} // verus!
