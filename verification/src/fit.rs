//! Viewport auto-fit: progressively opens tree levels, changed subtrees
//! first, until the rendered line count approaches the viewport height, and
//! backs the last step out when it overflows. Manual choices are never
//! touched, and the final rendering never exceeds the viewport unless it
//! already did before the call.

use vstd::prelude::*;

use crate::diff::DiffResult;
use crate::expansion::{ExpansionState, holds_path, paths_contain};
use crate::render::{
    LineM, TreeLine, lines_model, make_cx, render_state, set_cx, spec_render_state,
};
use crate::value::{NodePath, Value, clone_path};

verus! {

/// Whether the listed paths hold one addressing `q` with exactly `depth`
/// segments.
pub open spec fn level_member(paths: Seq<NodePath>, q: Seq<Seq<char>>, depth: nat) -> bool {
    exists|k: int| 0 <= k < paths.len() && paths[k].deep_view() == q && q.len() == depth
}

/// Whether some listed path of exactly `depth` segments is neither manually
/// decided nor yet open in `st`.
pub open spec fn level_openable(paths: Seq<NodePath>, st: ExpansionState, depth: nat) -> bool {
    exists|k: int|
        0 <= k < paths.len() && #[trigger] paths[k].deep_view().len() == depth
            && !st.manual_set().contains(paths[k].deep_view()) && !st.expanded_set().contains(
            paths[k].deep_view(),
        )
}

/// Opens every listed path with exactly `depth` segments, changed paths
/// first, skipping manual decisions; reports whether anything opened.
#[verifier::loop_isolation(false)]
pub fn expand_level(
    expansion: &mut ExpansionState,
    all_expandable: &Vec<NodePath>,
    changed_paths: &Vec<NodePath>,
    target_depth: usize,
) -> (changed_any: bool)
    ensures
        final(expansion).manual_set() == old(expansion).manual_set(),
        forall|q: Seq<Seq<char>>|
            final(expansion).expanded_set().contains(q) <==> (old(
                expansion,
            ).expanded_set().contains(q) || (!old(expansion).manual_set().contains(q)
                && level_member(all_expandable@, q, target_depth as nat))),
        changed_any == level_openable(all_expandable@, *old(expansion), target_depth as nat),
{
    let mut any: bool = false;
    let ghost old_self = *expansion;
    let ghost depth = target_depth as nat;
    let mut pass: usize = 0;
    while pass < 2
        invariant
            pass <= 2,
            expansion.manual_set() == old_self.manual_set(),
            forall|q: Seq<Seq<char>>|
                expansion.expanded_set().contains(q) <==> (old_self.expanded_set().contains(q) || (
                !old_self.manual_set().contains(q) && exists|k: int|
                    0 <= k < all_expandable@.len() && #[trigger] all_expandable@[k].deep_view()
                        == q && q.len() == depth && (holds_path(changed_paths@, q) ==> pass >= 1)
                        && (!holds_path(changed_paths@, q) ==> pass >= 2))),
            any == (exists|k: int|
                0 <= k < all_expandable@.len() && #[trigger] all_expandable@[k].deep_view().len()
                    == depth && !old_self.manual_set().contains(all_expandable@[k].deep_view())
                    && !old_self.expanded_set().contains(all_expandable@[k].deep_view()) && (
                holds_path(changed_paths@, all_expandable@[k].deep_view()) ==> pass >= 1) && (
                !holds_path(changed_paths@, all_expandable@[k].deep_view()) ==> pass >= 2)),
        decreases 2 - pass,
    {
        let want_changed = pass == 0;
        let ghost pass_start = *expansion;
        let ghost any_start = any;
        let mut i: usize = 0;
        while i < all_expandable.len()
            invariant
                i <= all_expandable@.len(),
                expansion.manual_set() == old_self.manual_set(),
                forall|q: Seq<Seq<char>>|
                    expansion.expanded_set().contains(q) <==> (pass_start.expanded_set().contains(
                        q,
                    ) || (!old_self.manual_set().contains(q) && exists|k: int|
                        0 <= k < i && #[trigger] all_expandable@[k].deep_view() == q && q.len()
                            == depth && holds_path(changed_paths@, q) == want_changed)),
                any == (any_start || exists|k: int|
                    0 <= k < i && #[trigger] all_expandable@[k].deep_view().len() == depth
                        && !old_self.manual_set().contains(all_expandable@[k].deep_view())
                        && !old_self.expanded_set().contains(all_expandable@[k].deep_view())
                        && holds_path(changed_paths@, all_expandable@[k].deep_view())
                        == want_changed),
                forall|q: Seq<Seq<char>>|
                    pass_start.expanded_set().contains(q) ==> expansion.expanded_set().contains(
                        q,
                    ),
            decreases all_expandable@.len() - i,
        {
            let ghost s0 = *expansion;
            let ghost any0 = any;
            let p = &all_expandable[i];
            let ghost qv = all_expandable@[i as int].deep_view();
            if p.len() == target_depth && paths_contain(changed_paths, p) == want_changed {
                let man = expansion.is_manual(p);
                let was = expansion.is_expanded(p);
                if !man && !was {
                    any = true;
                }
                expansion.auto_expand(p);
                proof {
                    assert forall|q: Seq<Seq<char>>|
                        expansion.expanded_set().contains(q) <==> (
                        pass_start.expanded_set().contains(q) || (
                        !old_self.manual_set().contains(q) && exists|k: int|
                            0 <= k < i + 1 && #[trigger] all_expandable@[k].deep_view() == q
                                && q.len() == depth && holds_path(changed_paths@, q)
                                == want_changed)) by {
                        if q == qv && !old_self.manual_set().contains(q) {
                            assert(all_expandable@[i as int].deep_view() == q && q.len() == depth
                                && holds_path(changed_paths@, q) == want_changed);
                        }
                        if expansion.expanded_set().contains(q) && !s0.expanded_set().contains(
                            q,
                        ) {
                            assert(q == qv);
                        }
                        if !expansion.expanded_set().contains(q) {
                            if exists|k: int|
                                0 <= k < i + 1 && #[trigger] all_expandable@[k].deep_view() == q
                                    && q.len() == depth && holds_path(changed_paths@, q)
                                    == want_changed {
                                let k = choose|k: int|
                                    0 <= k < i + 1 && #[trigger] all_expandable@[
                                        k].deep_view() == q && q.len() == depth && holds_path(
                                        changed_paths@,
                                        q,
                                    ) == want_changed;
                                if k < i {
                                    assert(s0.expanded_set().contains(q)
                                        || old_self.manual_set().contains(q));
                                } else {
                                    assert(q == qv);
                                }
                            }
                        }
                    }
                    assert(any == (any_start || exists|k: int|
                        0 <= k < i + 1 && #[trigger] all_expandable@[k].deep_view().len() == depth
                            && !old_self.manual_set().contains(all_expandable@[k].deep_view())
                            && !old_self.expanded_set().contains(all_expandable@[k].deep_view())
                            && holds_path(changed_paths@, all_expandable@[k].deep_view())
                            == want_changed)) by {
                        if !man && !was {
                            assert(s0.manual_set() == old_self.manual_set());
                            assert(!s0.expanded_set().contains(qv));
                            assert(!old_self.expanded_set().contains(qv));
                            assert(all_expandable@[i as int].deep_view().len() == depth);
                        } else {
                            if !any0 && any {
                                assert(false);
                            }
                            if exists|k: int|
                                0 <= k < i + 1 && #[trigger] all_expandable@[
                                    k].deep_view().len() == depth
                                    && !old_self.manual_set().contains(
                                    all_expandable@[k].deep_view(),
                                ) && !old_self.expanded_set().contains(
                                    all_expandable@[k].deep_view(),
                                ) && holds_path(changed_paths@, all_expandable@[k].deep_view())
                                    == want_changed {
                                let k = choose|k: int|
                                    0 <= k < i + 1 && #[trigger] all_expandable@[
                                        k].deep_view().len() == depth
                                        && !old_self.manual_set().contains(
                                        all_expandable@[k].deep_view(),
                                    ) && !old_self.expanded_set().contains(
                                        all_expandable@[k].deep_view(),
                                    ) && holds_path(
                                        changed_paths@,
                                        all_expandable@[k].deep_view(),
                                    ) == want_changed;
                                if k == i {
                                    assert(man || was);
                                    if was && !old_self.expanded_set().contains(qv) {
                                        assert(s0.expanded_set().contains(qv));
                                        assert(!old_self.manual_set().contains(qv));
                                        assert(any0);
                                    }
                                }
                            }
                        }
                    }
                }
            } else {
                proof {
                    assert forall|q: Seq<Seq<char>>|
                        expansion.expanded_set().contains(q) <==> (
                        pass_start.expanded_set().contains(q) || (
                        !old_self.manual_set().contains(q) && exists|k: int|
                            0 <= k < i + 1 && #[trigger] all_expandable@[k].deep_view() == q
                                && q.len() == depth && holds_path(changed_paths@, q)
                                == want_changed)) by {
                        if !expansion.expanded_set().contains(q) {
                            if exists|k: int|
                                0 <= k < i + 1 && #[trigger] all_expandable@[k].deep_view() == q
                                    && q.len() == depth && holds_path(changed_paths@, q)
                                    == want_changed {
                                let k = choose|k: int|
                                    0 <= k < i + 1 && #[trigger] all_expandable@[
                                        k].deep_view() == q && q.len() == depth && holds_path(
                                        changed_paths@,
                                        q,
                                    ) == want_changed;
                                if k == i {
                                    assert(qv == q);
                                    assert(qv.len() == depth && holds_path(changed_paths@, qv)
                                        == want_changed);
                                    assert(p@.len() == qv.len());
                                    assert(false);
                                }
                            }
                        }
                    }
                    assert(any == (any_start || exists|k: int|
                        0 <= k < i + 1 && #[trigger] all_expandable@[k].deep_view().len() == depth
                            && !old_self.manual_set().contains(all_expandable@[k].deep_view())
                            && !old_self.expanded_set().contains(all_expandable@[k].deep_view())
                            && holds_path(changed_paths@, all_expandable@[k].deep_view())
                            == want_changed)) by {
                        if exists|k: int|
                            0 <= k < i + 1 && #[trigger] all_expandable@[k].deep_view().len()
                                == depth && !old_self.manual_set().contains(
                                all_expandable@[k].deep_view(),
                            ) && !old_self.expanded_set().contains(
                                all_expandable@[k].deep_view(),
                            ) && holds_path(changed_paths@, all_expandable@[k].deep_view())
                                == want_changed {
                            let k = choose|k: int|
                                0 <= k < i + 1 && #[trigger] all_expandable@[
                                    k].deep_view().len() == depth
                                    && !old_self.manual_set().contains(
                                    all_expandable@[k].deep_view(),
                                ) && !old_self.expanded_set().contains(
                                    all_expandable@[k].deep_view(),
                                ) && holds_path(changed_paths@, all_expandable@[k].deep_view())
                                    == want_changed;
                            if k == i {
                                assert(p@.len() == qv.len());
                                assert(false);
                            }
                        }
                    }
                }
            }
            i += 1;
        }
        proof {
            assert forall|q: Seq<Seq<char>>|
                expansion.expanded_set().contains(q) <==> (old_self.expanded_set().contains(q)
                    || (!old_self.manual_set().contains(q) && exists|k: int|
                    0 <= k < all_expandable@.len() && #[trigger] all_expandable@[k].deep_view()
                        == q && q.len() == depth && (holds_path(changed_paths@, q) ==> pass + 1
                        >= 1) && (!holds_path(changed_paths@, q) ==> pass + 1 >= 2))) by {}
            assert(any == (exists|k: int|
                0 <= k < all_expandable@.len() && #[trigger] all_expandable@[k].deep_view().len()
                    == depth && !old_self.manual_set().contains(all_expandable@[k].deep_view())
                    && !old_self.expanded_set().contains(all_expandable@[k].deep_view()) && (
                holds_path(changed_paths@, all_expandable@[k].deep_view()) ==> pass + 1 >= 1) && (
                !holds_path(changed_paths@, all_expandable@[k].deep_view()) ==> pass + 1 >= 2)))
                by {}
        }
        pass += 1;
    }
    any
}

/// The addresses of the expandable lines of a rendering, in order.
pub open spec fn spec_expandable_paths(ls: Seq<LineM>) -> Seq<Seq<Seq<char>>>
    decreases ls.len(),
{
    if ls.len() == 0 {
        Seq::empty()
    } else {
        spec_expandable_paths(ls.drop_last()) + if ls.last().expandable {
            seq![ls.last().path]
        } else {
            Seq::empty()
        }
    }
}

/// The listed paths as segment sequences.
pub open spec fn paths_deep(s: Seq<NodePath>) -> Seq<Seq<Seq<char>>> {
    s.map_values(|p: NodePath| p.deep_view())
}

/// Collects the paths of the expandable lines.
#[verifier::loop_isolation(false)]
pub fn expandable_paths(lines: &Vec<TreeLine>) -> (r: Vec<NodePath>)
    ensures
        paths_deep(r@) == spec_expandable_paths(lines_model(lines@)),
{
    let mut r: Vec<NodePath> = Vec::new();
    let mut i: usize = 0;
    while i < lines.len()
        invariant
            i <= lines@.len(),
            paths_deep(r@) =~= spec_expandable_paths(lines_model(lines@).take(i as int)),
        decreases lines@.len() - i,
    {
        if lines[i].expandable {
            r.push(clone_path(&lines[i].path));
        }
        proof {
            assert(lines_model(lines@).take(i + 1).drop_last() =~= lines_model(lines@).take(
                i as int,
            ));
            assert(lines_model(lines@).take(i + 1).last() == lines_model(lines@)[i as int]);
            assert(paths_deep(r@) =~= spec_expandable_paths(lines_model(lines@).take(i + 1)));
        }
        i += 1;
    }
    proof {
        assert(lines_model(lines@).take(lines@.len() as int) =~= lines_model(lines@));
    }
    r
}

/// Whether the listed path views hold `q` with exactly `depth` segments.
pub open spec fn view_level_member(paths: Seq<Seq<Seq<char>>>, q: Seq<Seq<char>>, depth: nat) -> bool {
    exists|k: int| 0 <= k < paths.len() && paths[k] == q && q.len() == depth
}

/// Whether some listed path view of exactly `depth` segments is neither
/// manually decided nor in the open set.
pub open spec fn view_level_openable(
    paths: Seq<Seq<Seq<char>>>,
    manual: Set<Seq<Seq<char>>>,
    expanded: Set<Seq<Seq<char>>>,
    depth: nat,
) -> bool {
    exists|k: int|
        0 <= k < paths.len() && #[trigger] paths[k].len() == depth && !manual.contains(paths[k])
            && !expanded.contains(paths[k])
}

/// Membership at a level reads the same over paths and over their views.
proof fn lemma_level_member_views(
    paths: Seq<NodePath>,
    views: Seq<Seq<Seq<char>>>,
    q: Seq<Seq<char>>,
    depth: nat,
)
    requires
        views == paths_deep(paths),
    ensures
        level_member(paths, q, depth) == view_level_member(views, q, depth),
{
    if level_member(paths, q, depth) {
        let k = choose|k: int| 0 <= k < paths.len() && paths[k].deep_view() == q && q.len() == depth;
        assert(views[k] == q);
    }
    if view_level_member(views, q, depth) {
        let k = choose|k: int| 0 <= k < views.len() && views[k] == q && q.len() == depth;
        assert(paths[k].deep_view() == q);
    }
}

/// Openability at a level reads the same over paths and over their views.
proof fn lemma_level_openable_views(
    paths: Seq<NodePath>,
    views: Seq<Seq<Seq<char>>>,
    st: ExpansionState,
    depth: nat,
)
    requires
        views == paths_deep(paths),
    ensures
        level_openable(paths, st, depth) == view_level_openable(
            views,
            st.manual_set(),
            st.expanded_set(),
            depth,
        ),
{
    if level_openable(paths, st, depth) {
        let k = choose|k: int|
            0 <= k < paths.len() && #[trigger] paths[k].deep_view().len() == depth
                && !st.manual_set().contains(paths[k].deep_view())
                && !st.expanded_set().contains(paths[k].deep_view());
        assert(views[k] == paths[k].deep_view());
        assert(views[k].len() == depth && !st.manual_set().contains(views[k])
            && !st.expanded_set().contains(views[k]));
    }
    if view_level_openable(views, st.manual_set(), st.expanded_set(), depth) {
        let k = choose|k: int|
            0 <= k < views.len() && #[trigger] views[k].len() == depth
                && !st.manual_set().contains(views[k]) && !st.expanded_set().contains(views[k]);
        assert(paths[k].deep_view() == views[k]);
        assert(paths[k].deep_view().len() == depth && !st.manual_set().contains(
            paths[k].deep_view(),
        ) && !st.expanded_set().contains(paths[k].deep_view()));
    }
}

/// The open set after opening every non-manual listed path of one depth.
pub open spec fn level_grown(
    avail: Seq<Seq<Seq<char>>>,
    manual: Set<Seq<Seq<char>>>,
    expanded: Set<Seq<Seq<char>>>,
    depth: nat,
) -> Set<Seq<Seq<char>>> {
    Set::new(
        |q: Seq<Seq<char>>|
            expanded.contains(q) || (!manual.contains(q) && view_level_member(avail, q, depth)),
    )
}

/// The three-line safety margin under the viewport, floored at zero.
pub open spec fn fit_margin(vh: nat) -> nat {
    if vh >= 3 {
        (vh - 3) as nat
    } else {
        0
    }
}

/// The open set the auto-fit ends with, starting at one depth: stop once the
/// rendering reaches the margin; at each level from `depth` to twenty, open
/// every non-manual expandable path of that length, keep the level unless
/// the re-rendering exceeds the viewport (then stop with the level backed
/// out), and otherwise continue one level deeper.
pub open spec fn spec_auto_fit(
    values: Seq<(String, Value)>,
    manual: Set<Seq<Seq<char>>>,
    d: DiffResult,
    width: nat,
    ct: nat,
    vh: nat,
    expanded: Set<Seq<Seq<char>>>,
    depth: nat,
) -> Set<Seq<Seq<char>>>
    decreases 21 - depth,
{
    if depth < 1 || depth > 20 {
        expanded
    } else {
        let lines = spec_render_state(values, set_cx(expanded, d, width, ct));
        if lines.len() >= fit_margin(vh) {
            expanded
        } else {
            let avail = spec_expandable_paths(lines);
            if !view_level_openable(avail, manual, expanded, depth) {
                spec_auto_fit(values, manual, d, width, ct, vh, expanded, depth + 1)
            } else {
                let grown = level_grown(avail, manual, expanded, depth);
                if spec_render_state(values, set_cx(grown, d, width, ct)).len() > vh {
                    expanded
                } else {
                    spec_auto_fit(values, manual, d, width, ct, vh, grown, depth + 1)
                }
            }
        }
    }
}

/// Opens tree levels one by one, changed subtrees first at each level, until
/// the rendering nearly fills the viewport; a level whose opening overflows
/// the viewport is backed out. The final open set is exactly what the
/// level-by-level specification computes; manual choices are never altered,
/// nothing open is closed, and the final rendering fits the viewport unless
/// the initial one already overflowed it, in which case the state is left
/// exactly as it was.
#[verifier::loop_isolation(false)]
#[verifier::rlimit(60)]
pub fn auto_adjust_expansion(
    expansion: &mut ExpansionState,
    values: &Vec<(String, Value)>,
    diff: &DiffResult,
    terminal_width: usize,
    viewport_height: usize,
    collapse_threshold: usize,
)
    ensures
        final(expansion).manual_set() == old(expansion).manual_set(),
        final(expansion).expanded_set() == spec_auto_fit(
            values@,
            old(expansion).manual_set(),
            *diff,
            terminal_width as nat,
            collapse_threshold as nat,
            viewport_height as nat,
            old(expansion).expanded_set(),
            1,
        ),
        forall|q: Seq<Seq<char>>|
            old(expansion).manual_set().contains(q) ==> (final(expansion).expanded_set().contains(
                q,
            ) <==> old(expansion).expanded_set().contains(q)),
        forall|q: Seq<Seq<char>>|
            old(expansion).expanded_set().contains(q) ==> final(expansion).expanded_set().contains(
                q,
            ),
        spec_render_state(
            values@,
            make_cx(
                *final(expansion),
                *diff,
                terminal_width as nat,
                collapse_threshold as nat,
            ),
        ).len() <= viewport_height as nat || final(expansion).expanded_set() == old(expansion).expanded_set(),
{
    let ghost old_self = *expansion;
    let ghost wn = terminal_width as nat;
    let ghost cn = collapse_threshold as nat;
    let ghost vn = viewport_height as nat;
    let ghost mset = old_self.manual_set();
    let changed = diff.changed_paths();
    let mut last_good = expansion.snapshot();
    let margin: usize = if viewport_height >= 3 {
        viewport_height - 3
    } else {
        0
    };
    let mut depth: usize = 1;
    while depth <= 20
        invariant
            1 <= depth <= 21,
            margin as nat == fit_margin(vn),
            expansion.manual_set() == mset,
            forall|q: Seq<Seq<char>>|
                mset.contains(q) ==> (expansion.expanded_set().contains(q) <==>
                    old_self.expanded_set().contains(q)),
            forall|q: Seq<Seq<char>>|
                old_self.expanded_set().contains(q) ==> expansion.expanded_set().contains(q),
            forall|q: Seq<Seq<char>>|
                holds_path(last_good@, q) <==> expansion.expanded_set().contains(q),
            spec_render_state(values@, set_cx(expansion.expanded_set(), *diff, wn, cn)).len()
                <= vn || expansion.expanded_set() == old_self.expanded_set(),
            spec_auto_fit(values@, mset, *diff, wn, cn, vn, old_self.expanded_set(), 1)
                == spec_auto_fit(
                values@,
                mset,
                *diff,
                wn,
                cn,
                vn,
                expansion.expanded_set(),
                depth as nat,
            ),
        decreases 21 - depth,
    {
        let ghost cur = expansion.expanded_set();
        let lines = render_state(values, expansion, diff, terminal_width, collapse_threshold);
        proof {
            assert(lines_model(lines@) == spec_render_state(values@, set_cx(cur, *diff, wn, cn)));
        }
        if lines.len() >= margin {
            proof {
                assert(spec_auto_fit(values@, mset, *diff, wn, cn, vn, cur, depth as nat) == cur);
            }
            return;
        }
        let all_expandable = expandable_paths(&lines);
        let ghost avail = spec_expandable_paths(
            spec_render_state(values@, set_cx(cur, *diff, wn, cn)),
        );
        proof {
            assert(paths_deep(all_expandable@) == avail);
        }
        let ghost before_level = *expansion;
        let did = expand_level(expansion, &all_expandable, &changed, depth);
        proof {
            lemma_level_openable_views(all_expandable@, avail, before_level, depth as nat);
            assert(did == view_level_openable(avail, mset, cur, depth as nat));
            assert forall|q: Seq<Seq<char>>|
                expansion.expanded_set().contains(q) <==> level_grown(
                    avail,
                    mset,
                    cur,
                    depth as nat,
                ).contains(q) by {
                lemma_level_member_views(all_expandable@, avail, q, depth as nat);
            }
            assert(expansion.expanded_set() =~= level_grown(avail, mset, cur, depth as nat));
        }
        if did {
            let lines2 = render_state(
                values,
                expansion,
                diff,
                terminal_width,
                collapse_threshold,
            );
            proof {
                assert(make_cx(*expansion, *diff, wn, cn) == set_cx(
                    level_grown(avail, mset, cur, depth as nat),
                    *diff,
                    wn,
                    cn,
                ));
                assert(lines_model(lines2@) == spec_render_state(
                    values@,
                    set_cx(level_grown(avail, mset, cur, depth as nat), *diff, wn, cn),
                ));
            }
            if lines2.len() > viewport_height {
                let ghost before_restore = *expansion;
                expansion.restore(&last_good);
                proof {
                    assert forall|q: Seq<Seq<char>>|
                        expansion.expanded_set().contains(q)
                            <==> before_level.expanded_set().contains(q) by {
                        if mset.contains(q) {
                            assert(before_restore.expanded_set().contains(q)
                                <==> before_level.expanded_set().contains(q));
                        } else {
                            assert(holds_path(last_good@, q) <==> before_level.expanded_set(
                            ).contains(q));
                        }
                    }
                    assert(expansion.expanded_set() =~= cur);
                    assert(spec_auto_fit(values@, mset, *diff, wn, cn, vn, cur, depth as nat)
                        == cur);
                }
                return;
            }
            let new_snapshot = expansion.snapshot();
            last_good = new_snapshot;
            proof {
                assert(spec_auto_fit(values@, mset, *diff, wn, cn, vn, cur, depth as nat)
                    == spec_auto_fit(
                    values@,
                    mset,
                    *diff,
                    wn,
                    cn,
                    vn,
                    level_grown(avail, mset, cur, depth as nat),
                    (depth + 1) as nat,
                ));
            }
        } else {
            proof {
                assert forall|q: Seq<Seq<char>>|
                    level_grown(avail, mset, cur, depth as nat).contains(q) implies cur.contains(
                        q,
                    ) by {
                    if !mset.contains(q) && view_level_member(avail, q, depth as nat)
                        && !cur.contains(q) {
                        let k = choose|k: int|
                            0 <= k < avail.len() && avail[k] == q && q.len() == depth as nat;
                        assert(avail[k].len() == depth as nat && !mset.contains(avail[k])
                            && !cur.contains(avail[k]));
                        assert(view_level_openable(avail, mset, cur, depth as nat));
                    }
                }
                assert(expansion.expanded_set() =~= cur);
                assert(spec_auto_fit(values@, mset, *diff, wn, cn, vn, cur, depth as nat)
                    == spec_auto_fit(values@, mset, *diff, wn, cn, vn, cur, (depth + 1) as nat));
            }
        }
        depth += 1;
    }
    proof {
        assert(spec_auto_fit(
            values@,
            mset,
            *diff,
            wn,
            cn,
            vn,
            expansion.expanded_set(),
            depth as nat,
        ) == expansion.expanded_set());
    }
}

/// Revealing the changes and then auto-fitting leaves the immediate parent
/// of every changed path open, provided the user has not manually decided
/// that parent: revealing opens every non-manual ancestor, and the fit only
/// ever opens nodes or reverts to states it has itself passed through.
pub proof fn lemma_changed_parent_stays_open(
    s0: ExpansionState,
    s1: ExpansionState,
    s2: ExpansionState,
    changed: Seq<NodePath>,
    c: int,
)
    requires
        0 <= c < changed.len(),
        changed[c].deep_view().len() >= 2,
        !s0.manual_set().contains(
            changed[c].deep_view().take(changed[c].deep_view().len() - 1),
        ),
        forall|q: Seq<Seq<char>>|
            s1.expanded_set().contains(q) <==> (s0.expanded_set().contains(q) || (
            !s0.manual_set().contains(q) && exists|ci: int, n: int|
                0 <= ci < changed.len() && 1 <= n <= changed[ci].deep_view().len() && q
                    == changed[ci].deep_view().take(n))),
        forall|q: Seq<Seq<char>>|
            s1.expanded_set().contains(q) ==> s2.expanded_set().contains(q),
    ensures
        s2.expanded_set().contains(
            changed[c].deep_view().take(changed[c].deep_view().len() - 1),
        ),
{
    let parent = changed[c].deep_view().take(changed[c].deep_view().len() - 1);
    assert(s1.expanded_set().contains(parent)) by {
        let n = changed[c].deep_view().len() - 1;
        assert(0 <= c < changed.len() && 1 <= n <= changed[c].deep_view().len() && parent
            == changed[c].deep_view().take(n));
    }
}

} // verus!
