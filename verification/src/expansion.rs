//! Which tree nodes are open, and which of those choices the user made by
//! hand. Automatic expansion never overrides a manual choice; a snapshot of
//! the open set can be taken and restored for backtracking.

use vstd::prelude::*;

use crate::value::{NodePath, clone_path, path_eq, path_prefix};

verus! {

/// Whether `paths` holds an entry addressing the same node as `q`.
pub open spec fn holds_path(paths: Seq<NodePath>, q: Seq<Seq<char>>) -> bool {
    exists|i: int| 0 <= i < paths.len() && paths[i].deep_view() == q
}

/// Appending one entry extends the held paths by exactly that entry's node.
proof fn lemma_holds_path_grow(pre: Seq<NodePath>, post: Seq<NodePath>, q: Seq<Seq<char>>)
    requires
        post.len() == pre.len() + 1,
        forall|k: int| 0 <= k < pre.len() ==> post[k] == pre[k],
    ensures
        holds_path(post, q) <==> (holds_path(pre, q) || post[pre.len() as int].deep_view() == q),
{
    if holds_path(post, q) {
        let k = choose|k: int| 0 <= k < post.len() && post[k].deep_view() == q;
        if k < pre.len() {
            assert(pre[k].deep_view() == q);
        }
    }
    if holds_path(pre, q) {
        let k = choose|k: int| 0 <= k < pre.len() && pre[k].deep_view() == q;
        assert(post[k].deep_view() == q);
    }
}

/// Tracks expanded nodes and the nodes the user decided by hand.
pub struct ExpansionState {
    expanded: Vec<NodePath>,
    manual: Vec<NodePath>,
}

impl ExpansionState {
    /// The set of open paths.
    pub closed spec fn expanded_set(self) -> Set<Seq<Seq<char>>> {
        Set::new(|q: Seq<Seq<char>>| holds_path(self.expanded@, q))
    }

    /// The set of manually decided paths.
    pub closed spec fn manual_set(self) -> Set<Seq<Seq<char>>> {
        Set::new(|q: Seq<Seq<char>>| holds_path(self.manual@, q))
    }

    /// A fresh state with nothing expanded and nothing decided by hand.
    pub fn new() -> (r: ExpansionState)
        ensures
            r.expanded_set() == Set::<Seq<Seq<char>>>::empty(),
            r.manual_set() == Set::<Seq<Seq<char>>>::empty(),
    {
        let r = ExpansionState { expanded: Vec::new(), manual: Vec::new() };
        proof {
            assert(r.expanded_set() =~= Set::<Seq<Seq<char>>>::empty());
            assert(r.manual_set() =~= Set::<Seq<Seq<char>>>::empty());
        }
        r
    }

    /// Whether a node is open.
    pub fn is_expanded(&self, path: &NodePath) -> (r: bool)
        ensures
            r == self.expanded_set().contains(path.deep_view()),
    {
        paths_contain(&self.expanded, path)
    }

    /// Whether the user decided this node by hand.
    pub fn is_manual(&self, path: &NodePath) -> (r: bool)
        ensures
            r == self.manual_set().contains(path.deep_view()),
    {
        paths_contain(&self.manual, path)
    }

    /// Flips whether a node is open, and records the node as manually
    /// decided either way.
    pub fn toggle(&mut self, path: &NodePath)
        ensures
            final(self).expanded_set() == if old(self).expanded_set().contains(path.deep_view()) {
                old(self).expanded_set().remove(path.deep_view())
            } else {
                old(self).expanded_set().insert(path.deep_view())
            },
            final(self).manual_set() == old(self).manual_set().insert(path.deep_view()),
    {
        let ghost pre = *self;
        if paths_contain(&self.expanded, path) {
            vec_remove_path(&mut self.expanded, path);
            proof {
                assert(self.expanded_set() =~= pre.expanded_set().remove(path.deep_view()));
            }
        } else {
            let ghost e0 = self.expanded@;
            self.expanded.push(clone_path(path));
            proof {
                assert forall|q: Seq<Seq<char>>|
                    holds_path(self.expanded@, q) <==> (holds_path(e0, q) || q
                        == path.deep_view()) by {
                    lemma_holds_path_grow(e0, self.expanded@, q);
                }
                assert(self.expanded_set() =~= pre.expanded_set().insert(path.deep_view()));
            }
        }
        if !paths_contain(&self.manual, path) {
            let ghost m0 = self.manual@;
            self.manual.push(clone_path(path));
            proof {
                assert forall|q: Seq<Seq<char>>|
                    holds_path(self.manual@, q) <==> (holds_path(m0, q) || q
                        == path.deep_view()) by {
                    lemma_holds_path_grow(m0, self.manual@, q);
                }
                assert(self.manual_set() =~= pre.manual_set().insert(path.deep_view()));
            }
        } else {
            proof {
                assert(self.manual_set() =~= pre.manual_set().insert(path.deep_view()));
            }
        }
    }

    /// Opens a node unless the user decided it by hand; manual choices are
    /// never overridden and never created here.
    pub fn auto_expand(&mut self, path: &NodePath)
        ensures
            final(self).expanded_set() == if old(self).manual_set().contains(path.deep_view()) {
                old(self).expanded_set()
            } else {
                old(self).expanded_set().insert(path.deep_view())
            },
            final(self).manual_set() == old(self).manual_set(),
    {
        let ghost pre = *self;
        if !paths_contain(&self.manual, path) {
            if !paths_contain(&self.expanded, path) {
                let ghost e0 = self.expanded@;
                self.expanded.push(clone_path(path));
                proof {
                    assert forall|q: Seq<Seq<char>>|
                        holds_path(self.expanded@, q) <==> (holds_path(e0, q) || q
                            == path.deep_view()) by {
                        lemma_holds_path_grow(e0, self.expanded@, q);
                    }
                    assert(self.expanded_set() =~= pre.expanded_set().insert(path.deep_view()));
                }
            } else {
                proof {
                    assert(self.expanded_set() =~= pre.expanded_set().insert(path.deep_view()));
                }
            }
        }
    }

    /// Opens every non-empty prefix of every changed path (the path itself
    /// included), except where a manual choice stands.
    pub fn expand_to_changes(&mut self, changed_paths: &Vec<NodePath>)
        ensures
            final(self).manual_set() == old(self).manual_set(),
            forall|q: Seq<Seq<char>>|
                final(self).expanded_set().contains(q) <==> (old(self).expanded_set().contains(q)
                    || (!old(self).manual_set().contains(q) && exists|c: int, n: int|
                        0 <= c < changed_paths@.len() && 1 <= n
                            <= changed_paths@[c].deep_view().len() && q
                            == changed_paths@[c].deep_view().take(n))),
    {
        let ghost old_self = *self;
        let mut c: usize = 0;
        while c < changed_paths.len()
            invariant
                c <= changed_paths@.len(),
                self.manual_set() == old_self.manual_set(),
                forall|q: Seq<Seq<char>>|
                    self.expanded_set().contains(q) <==> (old_self.expanded_set().contains(q) || (
                    !old_self.manual_set().contains(q) && exists|ci: int, m: int|
                        0 <= ci < c && 1 <= m <= changed_paths@[ci].deep_view().len() && q
                            == changed_paths@[ci].deep_view().take(m))),
            decreases changed_paths@.len() - c,
        {
            let path = &changed_paths[c];
            let len = path.len();
            let mut n: usize = 0;
            while n < len
                invariant
                    n <= len,
                    len == path@.len(),
                    path == &changed_paths[c as int],
                    c < changed_paths@.len(),
                    self.manual_set() == old_self.manual_set(),
                    forall|q: Seq<Seq<char>>|
                        self.expanded_set().contains(q) <==> (old_self.expanded_set().contains(q)
                            || (!old_self.manual_set().contains(q) && ((exists|ci: int, m: int|
                            0 <= ci < c && 1 <= m <= changed_paths@[ci].deep_view().len() && q
                                == changed_paths@[ci].deep_view().take(m)) || (exists|m: int|
                            1 <= m <= n && q == changed_paths@[c as int].deep_view().take(m))))),
                decreases len - n,
            {
                let ghost s0 = *self;
                let prefix = path_prefix(path, n + 1);
                self.auto_expand(&prefix);
                proof {
                    let pv = changed_paths@[c as int].deep_view().take(n + 1);
                    assert forall|q: Seq<Seq<char>>|
                        self.expanded_set().contains(q) <==> (old_self.expanded_set().contains(q)
                            || (!old_self.manual_set().contains(q) && ((exists|ci: int, m: int|
                            0 <= ci < c && 1 <= m <= changed_paths@[ci].deep_view().len() && q
                                == changed_paths@[ci].deep_view().take(m)) || (exists|m: int|
                            1 <= m <= n + 1 && q == changed_paths@[c as int].deep_view().take(
                                m,
                            ))))) by {
                        if q == pv {
                            assert(1 <= n + 1 <= changed_paths@[c as int].deep_view().len() && q
                                == changed_paths@[c as int].deep_view().take(n + 1));
                        }
                        assert(prefix.deep_view() == pv);
                        if self.expanded_set().contains(q) && !s0.expanded_set().contains(q) {
                            assert(q == pv);
                        }
                        if s0.expanded_set().contains(q) && !old_self.expanded_set().contains(q)
                            && !(exists|ci: int, m: int|
                            0 <= ci < c && 1 <= m <= changed_paths@[ci].deep_view().len() && q
                                == changed_paths@[ci].deep_view().take(m)) {
                            let m = choose|m: int|
                                1 <= m <= n && q == changed_paths@[c as int].deep_view().take(m);
                            assert(1 <= m <= n + 1 && q == changed_paths@[
                                c as int].deep_view().take(m));
                        }
                        if !old_self.manual_set().contains(q) && (exists|m: int|
                            1 <= m <= n + 1 && q == changed_paths@[c as int].deep_view().take(
                                m,
                            )) {
                            let m = choose|m: int|
                                1 <= m <= n + 1 && q == changed_paths@[c as int].deep_view().take(
                                    m,
                                );
                            if m <= n {
                                assert(s0.expanded_set().contains(q));
                                assert(self.expanded_set().contains(q));
                            } else {
                                assert(q == pv);
                                assert(self.expanded_set().contains(q));
                            }
                        }
                    }
                }
                n += 1;
            }
            proof {
                assert forall|q: Seq<Seq<char>>|
                    self.expanded_set().contains(q) <==> (old_self.expanded_set().contains(q) || (
                    !old_self.manual_set().contains(q) && exists|ci: int, m: int|
                        0 <= ci < c + 1 && 1 <= m <= changed_paths@[ci].deep_view().len() && q
                            == changed_paths@[ci].deep_view().take(m))) by {
                    if exists|ci: int, m: int|
                        0 <= ci < c + 1 && 1 <= m <= changed_paths@[ci].deep_view().len() && q
                            == changed_paths@[ci].deep_view().take(m) {
                        let (ci, m) = choose|ci: int, m: int|
                            0 <= ci < c + 1 && 1 <= m <= changed_paths@[ci].deep_view().len() && q
                                == changed_paths@[ci].deep_view().take(m);
                        if ci < c {
                            assert(exists|ci2: int, m2: int|
                                0 <= ci2 < c && 1 <= m2 <= changed_paths@[ci2].deep_view().len()
                                    && q == changed_paths@[ci2].deep_view().take(m2));
                        } else {
                            assert(exists|m2: int|
                                1 <= m2 <= len && q == changed_paths@[c as int].deep_view().take(
                                    m2,
                                ));
                        }
                    }
                    if self.expanded_set().contains(q) && !old_self.expanded_set().contains(q) {
                        if exists|m2: int|
                            1 <= m2 <= len && q == changed_paths@[c as int].deep_view().take(m2) {
                            let m2 = choose|m2: int|
                                1 <= m2 <= len && q == changed_paths@[c as int].deep_view().take(
                                    m2,
                                );
                            assert(0 <= c < c + 1 && 1 <= m2 <= changed_paths@[
                                c as int].deep_view().len() && q == changed_paths@[
                                c as int].deep_view().take(m2));
                        }
                    }
                }
            }
            c += 1;
        }
    }

    /// Forgets everything: open nodes and manual choices alike.
    pub fn clear(&mut self)
        ensures
            final(self).expanded_set() == Set::<Seq<Seq<char>>>::empty(),
            final(self).manual_set() == Set::<Seq<Seq<char>>>::empty(),
    {
        self.expanded = Vec::new();
        self.manual = Vec::new();
        proof {
            assert(self.expanded_set() =~= Set::<Seq<Seq<char>>>::empty());
            assert(self.manual_set() =~= Set::<Seq<Seq<char>>>::empty());
        }
    }

    /// Opens one path and records it as manually decided.
    fn insert_both(&mut self, path: &NodePath)
        ensures
            final(self).expanded_set() == old(self).expanded_set().insert(path.deep_view()),
            final(self).manual_set() == old(self).manual_set().insert(path.deep_view()),
    {
        let ghost pre = *self;
        if !paths_contain(&self.expanded, path) {
            let ghost e0 = self.expanded@;
            self.expanded.push(clone_path(path));
            proof {
                assert forall|q: Seq<Seq<char>>|
                    holds_path(self.expanded@, q) <==> (holds_path(e0, q) || q
                        == path.deep_view()) by {
                    lemma_holds_path_grow(e0, self.expanded@, q);
                }
                assert(self.expanded_set() =~= pre.expanded_set().insert(path.deep_view()));
            }
        } else {
            proof {
                assert(self.expanded_set() =~= pre.expanded_set().insert(path.deep_view()));
            }
        }
        if !paths_contain(&self.manual, path) {
            let ghost m0 = self.manual@;
            self.manual.push(clone_path(path));
            proof {
                assert forall|q: Seq<Seq<char>>|
                    holds_path(self.manual@, q) <==> (holds_path(m0, q) || q
                        == path.deep_view()) by {
                    lemma_holds_path_grow(m0, self.manual@, q);
                }
                assert(self.manual_set() =~= pre.manual_set().insert(path.deep_view()));
            }
        } else {
            proof {
                assert(self.manual_set() =~= pre.manual_set().insert(path.deep_view()));
            }
        }
    }

    /// Opens every given path and records each as manually decided: a bulk
    /// user action.
    pub fn expand_all(&mut self, paths: &Vec<NodePath>)
        ensures
            forall|q: Seq<Seq<char>>|
                final(self).expanded_set().contains(q) <==> (old(self).expanded_set().contains(q)
                    || holds_path(paths@, q)),
            forall|q: Seq<Seq<char>>|
                final(self).manual_set().contains(q) <==> (old(self).manual_set().contains(q)
                    || holds_path(paths@, q)),
    {
        let ghost old_self = *self;
        let mut i: usize = 0;
        while i < paths.len()
            invariant
                i <= paths@.len(),
                forall|q: Seq<Seq<char>>|
                    self.expanded_set().contains(q) <==> (old_self.expanded_set().contains(q)
                        || holds_path(paths@.take(i as int), q)),
                forall|q: Seq<Seq<char>>|
                    self.manual_set().contains(q) <==> (old_self.manual_set().contains(q)
                        || holds_path(paths@.take(i as int), q)),
            decreases paths@.len() - i,
        {
            let ghost s0 = *self;
            self.insert_both(&paths[i]);
            proof {
                let ghost pv = paths@[i as int].deep_view();
                assert(self.expanded_set() == s0.expanded_set().insert(pv));
                assert(self.manual_set() == s0.manual_set().insert(pv));
                assert(forall|q: Seq<Seq<char>>|
                    s0.expanded_set().contains(q) <==> (old_self.expanded_set().contains(q)
                        || holds_path(paths@.take(i as int), q)));
                assert(forall|q: Seq<Seq<char>>|
                    s0.manual_set().contains(q) <==> (old_self.manual_set().contains(q)
                        || holds_path(paths@.take(i as int), q)));
                assert forall|q: Seq<Seq<char>>|
                    self.expanded_set().contains(q) <==> (old_self.expanded_set().contains(q)
                        || holds_path(paths@.take(i + 1), q)) by {
                    lemma_holds_path_grow(paths@.take(i as int), paths@.take(i + 1), q);
                    assert(paths@.take(i + 1)[i as int] == paths@[i as int]);
                    assert(self.expanded_set().contains(q) <==> (q == pv
                        || s0.expanded_set().contains(q)));
                }
                assert forall|q: Seq<Seq<char>>|
                    self.manual_set().contains(q) <==> (old_self.manual_set().contains(q)
                        || holds_path(paths@.take(i + 1), q)) by {
                    lemma_holds_path_grow(paths@.take(i as int), paths@.take(i + 1), q);
                    assert(paths@.take(i + 1)[i as int] == paths@[i as int]);
                    assert(self.manual_set().contains(q) <==> (q == pv
                        || s0.manual_set().contains(q)));
                }
            }
            i += 1;
        }
        proof {
            assert(paths@.take(paths@.len() as int) =~= paths@);
        }
    }

    /// A copy of the currently open paths, for later backtracking.
    pub fn snapshot(&self) -> (r: Vec<NodePath>)
        ensures
            forall|q: Seq<Seq<char>>| holds_path(r@, q) <==> self.expanded_set().contains(q),
    {
        let mut r: Vec<NodePath> = Vec::new();
        let mut i: usize = 0;
        while i < self.expanded.len()
            invariant
                i <= self.expanded@.len(),
                r@.len() == i,
                forall|k: int| 0 <= k < i ==> r@[k].deep_view() == self.expanded@[k].deep_view(),
            decreases self.expanded@.len() - i,
        {
            r.push(clone_path(&self.expanded[i]));
            i += 1;
        }
        proof {
            assert forall|q: Seq<Seq<char>>|
                holds_path(r@, q) <==> self.expanded_set().contains(q) by {
                if holds_path(r@, q) {
                    let k = choose|k: int| 0 <= k < r@.len() && r@[k].deep_view() == q;
                    assert(self.expanded@[k].deep_view() == q);
                }
                if self.expanded_set().contains(q) {
                    let k = choose|k: int|
                        0 <= k < self.expanded@.len() && self.expanded@[k].deep_view() == q;
                    assert(r@[k].deep_view() == q);
                }
            }
        }
        r
    }

    /// Rebuilds the open set from a snapshot: manual decisions stand as they
    /// are now; every other path reverts to its snapshot membership.
    pub fn restore(&mut self, snapshot: &Vec<NodePath>)
        ensures
            final(self).manual_set() == old(self).manual_set(),
            forall|q: Seq<Seq<char>>|
                final(self).expanded_set().contains(q) <==> (
                if old(self).manual_set().contains(q) {
                    old(self).expanded_set().contains(q)
                } else {
                    holds_path(snapshot@, q)
                }),
    {
        let ghost old_self = *self;
        let mut kept: Vec<NodePath> = Vec::new();
        let mut i: usize = 0;
        while i < self.expanded.len()
            invariant
                i <= self.expanded@.len(),
                *self == old_self,
                forall|q: Seq<Seq<char>>|
                    holds_path(kept@, q) <==> (old_self.manual_set().contains(q) && exists|k: int|
                        0 <= k < i && old_self.expanded@[k].deep_view() == q),
            decreases self.expanded@.len() - i,
        {
            let ghost k0 = kept@;
            let keep = paths_contain(&self.manual, &self.expanded[i]);
            if keep {
                kept.push(clone_path(&self.expanded[i]));
                proof {
                    assert forall|q: Seq<Seq<char>>|
                        holds_path(kept@, q) <==> (holds_path(k0, q) || q == old_self.expanded@[
                            i as int].deep_view()) by {
                        lemma_holds_path_grow(k0, kept@, q);
                    }
                }
            }
            proof {
                assert forall|q: Seq<Seq<char>>|
                    holds_path(kept@, q) <==> (old_self.manual_set().contains(q) && exists|k: int|
                        0 <= k < i + 1 && old_self.expanded@[k].deep_view() == q) by {
                    if holds_path(kept@, q) && !holds_path(k0, q) {
                        assert(old_self.expanded@[i as int].deep_view() == q);
                    }
                    if old_self.manual_set().contains(q) && exists|k: int|
                        0 <= k < i + 1 && old_self.expanded@[k].deep_view() == q {
                        let k = choose|k: int|
                            0 <= k < i + 1 && old_self.expanded@[k].deep_view() == q;
                        if k < i {
                            assert(holds_path(k0, q));
                        } else {
                            assert(q == old_self.expanded@[i as int].deep_view());
                            assert(holds_path(kept@, q));
                        }
                    }
                }
            }
            i += 1;
        }
        let mut j: usize = 0;
        while j < snapshot.len()
            invariant
                j <= snapshot@.len(),
                *self == old_self,
                forall|q: Seq<Seq<char>>|
                    holds_path(kept@, q) <==> ((old_self.manual_set().contains(q)
                        && old_self.expanded_set().contains(q)) || (
                    !old_self.manual_set().contains(q) && exists|k: int|
                        0 <= k < j && snapshot@[k].deep_view() == q)),
            decreases snapshot@.len() - j,
        {
            let ghost k0 = kept@;
            let in_manual = paths_contain(&self.manual, &snapshot[j]);
            if !in_manual {
                let already = paths_contain(&kept, &snapshot[j]);
                if !already {
                    kept.push(clone_path(&snapshot[j]));
                    proof {
                        assert forall|q: Seq<Seq<char>>|
                            holds_path(kept@, q) <==> (holds_path(k0, q) || q == snapshot@[
                                j as int].deep_view()) by {
                            lemma_holds_path_grow(k0, kept@, q);
                        }
                    }
                }
            }
            proof {
                assert forall|q: Seq<Seq<char>>|
                    holds_path(kept@, q) <==> ((old_self.manual_set().contains(q)
                        && old_self.expanded_set().contains(q)) || (
                    !old_self.manual_set().contains(q) && exists|k: int|
                        0 <= k < j + 1 && snapshot@[k].deep_view() == q)) by {
                    if holds_path(kept@, q) && !holds_path(k0, q) {
                        assert(snapshot@[j as int].deep_view() == q);
                    }
                    if !old_self.manual_set().contains(q) && exists|k: int|
                        0 <= k < j + 1 && snapshot@[k].deep_view() == q {
                        let k = choose|k: int| 0 <= k < j + 1 && snapshot@[k].deep_view() == q;
                        if k < j {
                            assert(holds_path(k0, q));
                        } else {
                            assert(q == snapshot@[j as int].deep_view());
                            assert(holds_path(kept@, q));
                        }
                    }
                }
            }
            j += 1;
        }
        self.expanded = kept;
    }
}

/// Decides whether the vector holds an entry addressing the same node.
pub fn paths_contain(paths: &Vec<NodePath>, q: &NodePath) -> (r: bool)
    ensures
        r == holds_path(paths@, q.deep_view()),
{
    let mut i: usize = 0;
    while i < paths.len()
        invariant
            i <= paths@.len(),
            forall|k: int| 0 <= k < i ==> paths@[k].deep_view() != q.deep_view(),
        decreases paths@.len() - i,
    {
        if path_eq(&paths[i], q) {
            assert(paths@[i as int].deep_view() == q.deep_view());
            return true;
        }
        i += 1;
    }
    false
}

/// Removes every entry addressing the same node as `q`.
fn vec_remove_path(paths: &mut Vec<NodePath>, q: &NodePath)
    ensures
        forall|p: Seq<Seq<char>>|
            holds_path(final(paths)@, p) <==> (holds_path(old(paths)@, p) && p != q.deep_view()),
{
    let ghost orig = paths@;
    let mut kept: Vec<NodePath> = Vec::new();
    let mut i: usize = 0;
    while i < paths.len()
        invariant
            i <= paths@.len(),
            paths@ == orig,
            forall|p: Seq<Seq<char>>|
                holds_path(kept@, p) <==> (holds_path(orig.take(i as int), p) && p
                    != q.deep_view()),
        decreases paths@.len() - i,
    {
        let ghost k0 = kept@;
        if !path_eq(&paths[i], q) {
            kept.push(clone_path(&paths[i]));
            proof {
                assert forall|p: Seq<Seq<char>>|
                    holds_path(kept@, p) <==> (holds_path(orig.take(i + 1), p) && p
                        != q.deep_view()) by {
                    lemma_holds_path_grow(k0, kept@, p);
                    lemma_holds_path_grow(orig.take(i as int), orig.take(i + 1), p);
                    assert(orig.take(i + 1)[i as int] == orig[i as int]);
                    assert(kept@[k0.len() as int].deep_view() == orig[i as int].deep_view());
                }
            }
        } else {
            proof {
                assert forall|p: Seq<Seq<char>>|
                    holds_path(kept@, p) <==> (holds_path(orig.take(i + 1), p) && p
                        != q.deep_view()) by {
                    lemma_holds_path_grow(orig.take(i as int), orig.take(i + 1), p);
                    assert(orig.take(i + 1)[i as int] == orig[i as int]);
                }
            }
        }
        i += 1;
    }
    proof {
        assert(orig.take(orig.len() as int) =~= orig);
    }
    *paths = kept;
}

/// Toggling a node twice restores whether it is open, while either toggle
/// alone makes and keeps the node manually decided.
pub proof fn lemma_toggle_twice(
    s0: ExpansionState,
    s1: ExpansionState,
    s2: ExpansionState,
    q: Seq<Seq<char>>,
)
    requires
        s1.expanded_set() == if s0.expanded_set().contains(q) {
            s0.expanded_set().remove(q)
        } else {
            s0.expanded_set().insert(q)
        },
        s1.manual_set() == s0.manual_set().insert(q),
        s2.expanded_set() == if s1.expanded_set().contains(q) {
            s1.expanded_set().remove(q)
        } else {
            s1.expanded_set().insert(q)
        },
        s2.manual_set() == s1.manual_set().insert(q),
    ensures
        s2.expanded_set().contains(q) == s0.expanded_set().contains(q),
        s1.manual_set().contains(q),
        s2.manual_set().contains(q),
{
}

/// Restoring never closes a node that is open and manually decided, whatever
/// the snapshot holds.
pub proof fn lemma_restore_keeps_manual(
    before: ExpansionState,
    after: ExpansionState,
    snapshot: Seq<NodePath>,
    q: Seq<Seq<char>>,
)
    requires
        before.manual_set().contains(q),
        before.expanded_set().contains(q),
        after.manual_set() == before.manual_set(),
        forall|p: Seq<Seq<char>>|
            after.expanded_set().contains(p) <==> (
            if before.manual_set().contains(p) {
                before.expanded_set().contains(p)
            } else {
                holds_path(snapshot, p)
            }),
    ensures
        after.expanded_set().contains(q),
{
}

} // verus!
