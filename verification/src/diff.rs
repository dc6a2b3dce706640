//! The diff engine: a sparse change map between two snapshots, computed by a
//! structural walk that recurses into records, mappings and sets and treats
//! everything else as atomic.

use vstd::prelude::*;

use crate::value::{NodePath, Value, clone_string, path_push, path_eq, value_eq, values_equal};

verus! {

/// What changed at one node between the two snapshots.
#[derive(Clone, Copy, Debug, PartialEq, Eq, Structural)]
pub enum DiffKind {
    Unchanged,
    Added,
    Removed,
    Modified,
}

/// The sparse change map: entries for every node that is not unchanged, in
/// the order the walk emits them. Lookup of an absent path yields
/// `Unchanged`.
pub struct DiffResult {
    pub changes: Vec<(NodePath, DiffKind)>,
}

/// The mathematical form of the entry list: each path as its segment
/// sequence.
pub open spec fn entries_model(s: Seq<(NodePath, DiffKind)>) -> Seq<(Seq<Seq<char>>, DiffKind)> {
    s.map_values(|e: (NodePath, DiffKind)| (e.0.deep_view(), e.1))
}

/// First-match lookup in an entry list; an absent path is unchanged.
pub open spec fn spec_lookup(m: Seq<(Seq<Seq<char>>, DiffKind)>, q: Seq<Seq<char>>) -> DiffKind
    decreases m.len(),
{
    if m.len() == 0 {
        DiffKind::Unchanged
    } else if m[0].0 == q {
        m[0].1
    } else {
        spec_lookup(m.drop_first(), q)
    }
}

/// Index of the first binding of `name` at or after `j`, if any.
pub open spec fn find_name_from(s: Seq<(String, Value)>, name: Seq<char>, j: int) -> Option<int>
    decreases s.len() - j,
{
    if j < 0 || j >= s.len() {
        None
    } else if s[j].0@ == name {
        Some(j)
    } else {
        find_name_from(s, name, j + 1)
    }
}

/// Index of the first entry whose key deeply equals `k`, at or after `j`.
pub open spec fn find_key_from(s: Seq<(Value, Value)>, k: Value, j: int) -> Option<int>
    decreases s.len() - j,
{
    if j < 0 || j >= s.len() {
        None
    } else if value_eq(s[j].0, k) {
        Some(j)
    } else {
        find_key_from(s, k, j + 1)
    }
}

/// A found binding lies within the sequence and carries the name.
pub proof fn lemma_find_name_from_in_range(s: Seq<(String, Value)>, name: Seq<char>, j: int)
    ensures
        (match find_name_from(s, name, j) {
            Some(r) => j <= r < s.len() && s[r].0@ == name,
            None => true,
        }),
    decreases s.len() - j,
{
    if 0 <= j < s.len() && s[j].0@ != name {
        lemma_find_name_from_in_range(s, name, j + 1);
    }
}

/// Whether some element at or after `j` deeply equals `x`.
pub open spec fn has_value_from(s: Seq<Value>, x: Value, j: int) -> bool
    decreases s.len() - j,
{
    if j < 0 || j >= s.len() {
        false
    } else if value_eq(s[j], x) {
        true
    } else {
        has_value_from(s, x, j + 1)
    }
}

/// Entries the walk emits for one node: nothing when the values are deeply
/// equal; a `Modified` mark plus recursive entries for like-kinded records,
/// mappings and sets; a lone `Modified` mark for every other difference.
pub open spec fn spec_diff_value(prev: Value, curr: Value, path: Seq<Seq<char>>) -> Seq<
    (Seq<Seq<char>>, DiffKind),
>
    decreases prev, 0int, 0int,
{
    if value_eq(prev, curr) {
        Seq::empty()
    } else {
        match (prev, curr) {
            (Value::Record(pf), Value::Record(cf)) => seq![(path, DiffKind::Modified)]
                + record_removed_from(pf@, cf@, path, 0) + record_added_from(pf@, cf@, path, 0)
                + record_common_from(pf@, cf@, path, 0),
            (Value::Mapping(pp), Value::Mapping(cp)) => seq![(path, DiffKind::Modified)]
                + map_entries_from(pp@, cp@, path, 0),
            (Value::SetOf(pi), Value::SetOf(ci)) => seq![(path, DiffKind::Modified)]
                + set_entries_from(pi@, ci@, path, 0),
            _ => seq![(path, DiffKind::Modified)],
        }
    }
}

/// `Removed` marks for fields of `pf` (from index `i` on) missing from `cf`.
pub open spec fn record_removed_from(
    pf: Seq<(String, Value)>,
    cf: Seq<(String, Value)>,
    path: Seq<Seq<char>>,
    i: int,
) -> Seq<(Seq<Seq<char>>, DiffKind)>
    decreases pf, 1int, pf.len() - i,
{
    if i < 0 || i >= pf.len() {
        Seq::empty()
    } else {
        (if find_name_from(cf, pf[i].0@, 0) is None {
            seq![(path.push(pf[i].0@), DiffKind::Removed)]
        } else {
            Seq::empty()
        }) + record_removed_from(pf, cf, path, i + 1)
    }
}

/// `Added` marks for fields of `cf` (from index `i` on) missing from `pf`.
pub open spec fn record_added_from(
    pf: Seq<(String, Value)>,
    cf: Seq<(String, Value)>,
    path: Seq<Seq<char>>,
    i: int,
) -> Seq<(Seq<Seq<char>>, DiffKind)>
    decreases pf, 1int, cf.len() - i,
{
    if i < 0 || i >= cf.len() {
        Seq::empty()
    } else {
        (if find_name_from(pf, cf[i].0@, 0) is None {
            seq![(path.push(cf[i].0@), DiffKind::Added)]
        } else {
            Seq::empty()
        }) + record_added_from(pf, cf, path, i + 1)
    }
}

/// Recursive entries for fields of `pf` (from index `i` on) also bound in
/// `cf`, each under its field-name path.
pub open spec fn record_common_from(
    pf: Seq<(String, Value)>,
    cf: Seq<(String, Value)>,
    path: Seq<Seq<char>>,
    i: int,
) -> Seq<(Seq<Seq<char>>, DiffKind)>
    decreases pf, 2int, pf.len() - i,
{
    if i < 0 || i >= pf.len() {
        Seq::empty()
    } else {
        (match find_name_from(cf, pf[i].0@, 0) {
            Some(j) => spec_diff_value(pf[i].1, cf[j].1, path.push(pf[i].0@)),
            None => Seq::empty(),
        }) + record_common_from(pf, cf, path, i + 1)
    }
}

/// Entries for mapping entries of `cp` (from index `i` on), matched against
/// `pp` by key equality and addressed by their position in `cp`.
pub open spec fn map_entries_from(
    pp: Seq<(Value, Value)>,
    cp: Seq<(Value, Value)>,
    path: Seq<Seq<char>>,
    i: int,
) -> Seq<(Seq<Seq<char>>, DiffKind)>
    decreases pp, 2int, cp.len() - i,
{
    if i < 0 || i >= cp.len() {
        Seq::empty()
    } else {
        (match find_key_from(pp, cp[i].0, 0) {
            Some(j) => if 0 <= j < pp.len() {
                spec_diff_value(pp[j].1, cp[i].1, path.push(crate::text::dec_digits(i as nat)))
            } else {
                Seq::empty()
            },
            None => seq![(path.push(crate::text::dec_digits(i as nat)), DiffKind::Added)],
        }) + map_entries_from(pp, cp, path, i + 1)
    }
}

/// `Added` marks for elements of `ci` (from index `i` on) present nowhere in
/// `pi`, addressed by their position in `ci`.
pub open spec fn set_entries_from(
    pi: Seq<Value>,
    ci: Seq<Value>,
    path: Seq<Seq<char>>,
    i: int,
) -> Seq<(Seq<Seq<char>>, DiffKind)>
    decreases pi, 2int, ci.len() - i,
{
    if i < 0 || i >= ci.len() {
        Seq::empty()
    } else {
        (if has_value_from(pi, ci[i], 0) {
            Seq::empty()
        } else {
            seq![(path.push(crate::text::dec_digits(i as nat)), DiffKind::Added)]
        }) + set_entries_from(pi, ci, path, i + 1)
    }
}

/// `Removed` marks for variables of `prev` (from index `i` on) absent from
/// `curr`.
pub open spec fn state_removed_from(
    prev: Seq<(String, Value)>,
    curr: Seq<(String, Value)>,
    i: int,
) -> Seq<(Seq<Seq<char>>, DiffKind)>
    decreases prev, 1int, prev.len() - i,
{
    if i < 0 || i >= prev.len() {
        Seq::empty()
    } else {
        (if find_name_from(curr, prev[i].0@, 0) is None {
            seq![(seq![prev[i].0@], DiffKind::Removed)]
        } else {
            Seq::empty()
        }) + state_removed_from(prev, curr, i + 1)
    }
}

/// `Added` marks for variables of `curr` (from index `i` on) absent from
/// `prev`.
pub open spec fn state_added_from(
    prev: Seq<(String, Value)>,
    curr: Seq<(String, Value)>,
    i: int,
) -> Seq<(Seq<Seq<char>>, DiffKind)>
    decreases prev, 1int, curr.len() - i,
{
    if i < 0 || i >= curr.len() {
        Seq::empty()
    } else {
        (if find_name_from(prev, curr[i].0@, 0) is None {
            seq![(seq![curr[i].0@], DiffKind::Added)]
        } else {
            Seq::empty()
        }) + state_added_from(prev, curr, i + 1)
    }
}

/// Recursive entries for variables of `prev` (from index `i` on) also bound
/// in `curr`, each under its one-segment path.
pub open spec fn state_common_from(
    prev: Seq<(String, Value)>,
    curr: Seq<(String, Value)>,
    i: int,
) -> Seq<(Seq<Seq<char>>, DiffKind)>
    decreases prev, 2int, prev.len() - i,
{
    if i < 0 || i >= prev.len() {
        Seq::empty()
    } else {
        (match find_name_from(curr, prev[i].0@, 0) {
            Some(j) => spec_diff_value(prev[i].1, curr[j].1, seq![prev[i].0@]),
            None => Seq::empty(),
        }) + state_common_from(prev, curr, i + 1)
    }
}

/// All entries of the diff of two snapshots: removed variables, then added
/// variables, then the recursive walk of the variables both snapshots bind.
pub open spec fn spec_compute_diff(
    prev: Seq<(String, Value)>,
    curr: Seq<(String, Value)>,
) -> Seq<(Seq<Seq<char>>, DiffKind)> {
    state_removed_from(prev, curr, 0) + state_added_from(prev, curr, 0) + state_common_from(
        prev,
        curr,
        0,
    )
}

impl DiffResult {
    /// The change kind this result records for a path.
    pub open spec fn kind_of(self, q: Seq<Seq<char>>) -> DiffKind {
        spec_lookup(entries_model(self.changes@), q)
    }

    /// Looks up what changed at a path; an absent path is unchanged.
    pub fn get(&self, path: &NodePath) -> (r: DiffKind)
        ensures
            r == self.kind_of(path.deep_view()),
    {
        let n = self.changes.len();
        proof {
            assert(entries_model(self.changes@).skip(0) =~= entries_model(self.changes@));
        }
        let mut i: usize = 0;
        while i < n
            invariant
                n == self.changes@.len(),
                i <= n,
                spec_lookup(entries_model(self.changes@), path.deep_view()) == spec_lookup(
                    entries_model(self.changes@).skip(i as int),
                    path.deep_view(),
                ),
            decreases n - i,
        {
            if path_eq(&self.changes[i].0, path) {
                proof {
                    assert(entries_model(self.changes@).skip(i as int)[0] == (
                        self.changes@[i as int].0.deep_view(),
                        self.changes@[i as int].1,
                    ));
                }
                return self.changes[i].1;
            }
            proof {
                assert(entries_model(self.changes@).skip(i as int).drop_first()
                    =~= entries_model(self.changes@).skip(i + 1));
                assert(entries_model(self.changes@).skip(i as int)[0] == (
                    self.changes@[i as int].0.deep_view(),
                    self.changes@[i as int].1,
                ));
            }
            i += 1;
        }
        proof {
            assert(entries_model(self.changes@).skip(n as int).len() == 0);
        }
        DiffKind::Unchanged
    }

    /// The paths this result marks as changed, in emission order.
    pub fn changed_paths(&self) -> (r: Vec<NodePath>)
        ensures
            r@.len() == self.changes@.len(),
            forall|i: int|
                0 <= i < r@.len() ==> r@[i].deep_view() == self.changes@[i].0.deep_view(),
    {
        let mut r: Vec<NodePath> = Vec::new();
        let mut i: usize = 0;
        while i < self.changes.len()
            invariant
                i <= self.changes@.len(),
                r@.len() == i,
                forall|k: int|
                    0 <= k < i ==> r@[k].deep_view() == self.changes@[k].0.deep_view(),
            decreases self.changes@.len() - i,
        {
            r.push(crate::value::clone_path(&self.changes[i].0));
            i += 1;
        }
        r
    }
}

/// Finds the first binding of `name`, scanning forward.
fn lookup_name(s: &Vec<(String, Value)>, name: &String) -> (r: Option<usize>)
    ensures
        r matches Some(j) ==> j < s@.len() && find_name_from(s@, name@, 0) == Some(j as int),
        r is None ==> find_name_from(s@, name@, 0) is None,
{
    let n = s.len();
    let mut i: usize = 0;
    while i < n
        invariant
            n == s@.len(),
            i <= n,
            find_name_from(s@, name@, 0) == find_name_from(s@, name@, i as int),
        decreases n - i,
    {
        if s[i].0 == *name {
            return Some(i);
        }
        i += 1;
    }
    None
}

/// Finds the first entry whose key deeply equals `k`, scanning forward.
fn lookup_key(s: &Vec<(Value, Value)>, k: &Value) -> (r: Option<usize>)
    ensures
        r matches Some(j) ==> j < s@.len() && find_key_from(s@, *k, 0) == Some(j as int),
        r is None ==> find_key_from(s@, *k, 0) is None,
{
    let n = s.len();
    let mut i: usize = 0;
    while i < n
        invariant
            n == s@.len(),
            i <= n,
            find_key_from(s@, *k, 0) == find_key_from(s@, *k, i as int),
        decreases n - i,
    {
        if values_equal(&s[i].0, k) {
            return Some(i);
        }
        i += 1;
    }
    None
}

/// Decides whether some element deeply equals `x`.
fn contains_value(s: &Vec<Value>, x: &Value) -> (r: bool)
    ensures
        r == has_value_from(s@, *x, 0),
{
    let n = s.len();
    let mut i: usize = 0;
    while i < n
        invariant
            n == s@.len(),
            i <= n,
            has_value_from(s@, *x, 0) == has_value_from(s@, *x, i as int),
        decreases n - i,
    {
        if values_equal(&s[i], x) {
            return true;
        }
        i += 1;
    }
    false
}

/// Appends the walk's entries for one node pair.
#[verifier::loop_isolation(false)]
pub fn diff_value(
    prev: &Value,
    curr: &Value,
    path: NodePath,
    changes: &mut Vec<(NodePath, DiffKind)>,
)
    ensures
        entries_model(final(changes)@) == entries_model(old(changes)@) + spec_diff_value(
            *prev,
            *curr,
            path.deep_view(),
        ),
    decreases *prev, 0int, 0int,
{
    if values_equal(prev, curr) {
        proof {
            assert(entries_model(changes@) =~= entries_model(old(changes)@) + spec_diff_value(
                *prev,
                *curr,
                path.deep_view(),
            ));
        }
        return;
    }
    match prev {
        Value::Record(pf) => match curr {
            Value::Record(cf) => {
                changes.push((crate::value::clone_path(&path), DiffKind::Modified));
                proof {
                    assert(entries_model(changes@) =~= entries_model(old(changes)@) + seq![
                        (path.deep_view(), DiffKind::Modified),
                    ]);
                    assert(decreases_to!(*prev => pf@));
                }
                diff_record(pf, cf, path, changes);
                proof {
                    assert(entries_model(changes@) =~= entries_model(old(changes)@)
                        + spec_diff_value(*prev, *curr, path.deep_view()));
                }
            },
            _ => {
                changes.push((path, DiffKind::Modified));
                proof {
                    assert(entries_model(changes@) =~= entries_model(old(changes)@)
                        + spec_diff_value(*prev, *curr, path.deep_view()));
                }
            },
        },
        Value::Mapping(pp) => match curr {
            Value::Mapping(cp) => {
                changes.push((crate::value::clone_path(&path), DiffKind::Modified));
                proof {
                    assert(entries_model(changes@) =~= entries_model(old(changes)@) + seq![
                        (path.deep_view(), DiffKind::Modified),
                    ]);
                    assert(decreases_to!(*prev => pp@));
                }
                diff_map(pp, cp, path, changes);
                proof {
                    assert(entries_model(changes@) =~= entries_model(old(changes)@)
                        + spec_diff_value(*prev, *curr, path.deep_view()));
                }
            },
            _ => {
                changes.push((path, DiffKind::Modified));
                proof {
                    assert(entries_model(changes@) =~= entries_model(old(changes)@)
                        + spec_diff_value(*prev, *curr, path.deep_view()));
                }
            },
        },
        Value::SetOf(pi) => match curr {
            Value::SetOf(ci) => {
                changes.push((crate::value::clone_path(&path), DiffKind::Modified));
                proof {
                    assert(entries_model(changes@) =~= entries_model(old(changes)@) + seq![
                        (path.deep_view(), DiffKind::Modified),
                    ]);
                    assert(decreases_to!(*prev => pi@));
                }
                diff_set(pi, ci, path, changes);
                proof {
                    assert(entries_model(changes@) =~= entries_model(old(changes)@)
                        + spec_diff_value(*prev, *curr, path.deep_view()));
                }
            },
            _ => {
                changes.push((path, DiffKind::Modified));
                proof {
                    assert(entries_model(changes@) =~= entries_model(old(changes)@)
                        + spec_diff_value(*prev, *curr, path.deep_view()));
                }
            },
        },
        _ => {
            changes.push((path, DiffKind::Modified));
            proof {
                assert(entries_model(changes@) =~= entries_model(old(changes)@) + spec_diff_value(
                    *prev,
                    *curr,
                    path.deep_view(),
                ));
            }
        },
    }
}

/// Appends removed, added and recursive entries for the fields of two
/// records.
#[verifier::loop_isolation(false)]
pub fn diff_record(
    prev_fields: &Vec<(String, Value)>,
    curr_fields: &Vec<(String, Value)>,
    path: NodePath,
    changes: &mut Vec<(NodePath, DiffKind)>,
)
    ensures
        entries_model(final(changes)@) == entries_model(old(changes)@) + record_removed_from(
            prev_fields@,
            curr_fields@,
            path.deep_view(),
            0,
        ) + record_added_from(prev_fields@, curr_fields@, path.deep_view(), 0)
            + record_common_from(prev_fields@, curr_fields@, path.deep_view(), 0),
    decreases prev_fields@, 3int, 0int,
{
    let ghost pv = path.deep_view();
    let mut i: usize = 0;
    while i < prev_fields.len()
        invariant
            i <= prev_fields@.len(),
            entries_model(changes@) + record_removed_from(prev_fields@, curr_fields@, pv, i as int)
                =~= entries_model(old(changes)@) + record_removed_from(
                prev_fields@,
                curr_fields@,
                pv,
                0,
            ),
        decreases prev_fields@.len() - i,
    {
        if lookup_name(curr_fields, &prev_fields[i].0).is_none() {
            changes.push((path_push(&path, &prev_fields[i].0), DiffKind::Removed));
            proof {
                assert(entries_model(changes@) + record_removed_from(
                    prev_fields@,
                    curr_fields@,
                    pv,
                    i + 1,
                ) =~= entries_model(old(changes)@) + record_removed_from(
                    prev_fields@,
                    curr_fields@,
                    pv,
                    0,
                ));
            }
        }
        i += 1;
    }
    let ghost base1 = entries_model(old(changes)@) + record_removed_from(
        prev_fields@,
        curr_fields@,
        pv,
        0,
    );
    let mut i: usize = 0;
    while i < curr_fields.len()
        invariant
            i <= curr_fields@.len(),
            entries_model(changes@) + record_added_from(prev_fields@, curr_fields@, pv, i as int)
                =~= base1 + record_added_from(prev_fields@, curr_fields@, pv, 0),
        decreases curr_fields@.len() - i,
    {
        if lookup_name(prev_fields, &curr_fields[i].0).is_none() {
            changes.push((path_push(&path, &curr_fields[i].0), DiffKind::Added));
            proof {
                assert(entries_model(changes@) + record_added_from(
                    prev_fields@,
                    curr_fields@,
                    pv,
                    i + 1,
                ) =~= base1 + record_added_from(prev_fields@, curr_fields@, pv, 0));
            }
        }
        i += 1;
    }
    let ghost base2 = base1 + record_added_from(prev_fields@, curr_fields@, pv, 0);
    let mut i: usize = 0;
    while i < prev_fields.len()
        invariant
            i <= prev_fields@.len(),
            entries_model(changes@) + record_common_from(prev_fields@, curr_fields@, pv, i as int)
                =~= base2 + record_common_from(prev_fields@, curr_fields@, pv, 0),
        decreases prev_fields@.len() - i,
    {
        match lookup_name(curr_fields, &prev_fields[i].0) {
            Some(j) => {
                let child_path = path_push(&path, &prev_fields[i].0);
                proof {
                    assert(decreases_to!(prev_fields@ => prev_fields@[i as int]));
                    assert(decreases_to!(prev_fields@[i as int] => prev_fields@[i as int].1));
                }
                diff_value(&prev_fields[i].1, &curr_fields[j].1, child_path, changes);
                proof {
                    assert(entries_model(changes@) + record_common_from(
                        prev_fields@,
                        curr_fields@,
                        pv,
                        i + 1,
                    ) =~= base2 + record_common_from(prev_fields@, curr_fields@, pv, 0));
                }
            },
            None => {
                proof {
                    assert(entries_model(changes@) + record_common_from(
                        prev_fields@,
                        curr_fields@,
                        pv,
                        i + 1,
                    ) =~= base2 + record_common_from(prev_fields@, curr_fields@, pv, 0));
                }
            },
        }
        i += 1;
    }
    proof {
        assert(entries_model(changes@) =~= entries_model(old(changes)@) + record_removed_from(
            prev_fields@,
            curr_fields@,
            pv,
            0,
        ) + record_added_from(prev_fields@, curr_fields@, pv, 0) + record_common_from(
            prev_fields@,
            curr_fields@,
            pv,
            0,
        ));
    }
}

/// Appends entries for the entries of two mappings, matched by key equality
/// and addressed by position in the current mapping.
#[verifier::loop_isolation(false)]
pub fn diff_map(
    prev_pairs: &Vec<(Value, Value)>,
    curr_pairs: &Vec<(Value, Value)>,
    path: NodePath,
    changes: &mut Vec<(NodePath, DiffKind)>,
)
    ensures
        entries_model(final(changes)@) == entries_model(old(changes)@) + map_entries_from(
            prev_pairs@,
            curr_pairs@,
            path.deep_view(),
            0,
        ),
    decreases prev_pairs@, 3int, 0int,
{
    let ghost pv = path.deep_view();
    let mut i: usize = 0;
    while i < curr_pairs.len()
        invariant
            i <= curr_pairs@.len(),
            entries_model(changes@) + map_entries_from(prev_pairs@, curr_pairs@, pv, i as int)
                =~= entries_model(old(changes)@) + map_entries_from(
                prev_pairs@,
                curr_pairs@,
                pv,
                0,
            ),
        decreases curr_pairs@.len() - i,
    {
        let seg = crate::text::usize_string(i);
        let child_path = path_push(&path, &seg);
        match lookup_key(prev_pairs, &curr_pairs[i].0) {
            Some(j) => {
                proof {
                    assert(decreases_to!(prev_pairs@ => prev_pairs@[j as int]));
                    assert(decreases_to!(prev_pairs@[j as int] => prev_pairs@[j as int].1));
                }
                diff_value(&prev_pairs[j].1, &curr_pairs[i].1, child_path, changes);
                proof {
                    assert(entries_model(changes@) + map_entries_from(
                        prev_pairs@,
                        curr_pairs@,
                        pv,
                        i + 1,
                    ) =~= entries_model(old(changes)@) + map_entries_from(
                        prev_pairs@,
                        curr_pairs@,
                        pv,
                        0,
                    ));
                }
            },
            None => {
                changes.push((child_path, DiffKind::Added));
                proof {
                    assert(entries_model(changes@) + map_entries_from(
                        prev_pairs@,
                        curr_pairs@,
                        pv,
                        i + 1,
                    ) =~= entries_model(old(changes)@) + map_entries_from(
                        prev_pairs@,
                        curr_pairs@,
                        pv,
                        0,
                    ));
                }
            },
        }
        i += 1;
    }
}

/// Appends `Added` entries for current set elements present nowhere in the
/// previous set, addressed by position in the current set.
#[verifier::loop_isolation(false)]
pub fn diff_set(
    prev_items: &Vec<Value>,
    curr_items: &Vec<Value>,
    path: NodePath,
    changes: &mut Vec<(NodePath, DiffKind)>,
)
    ensures
        entries_model(final(changes)@) == entries_model(old(changes)@) + set_entries_from(
            prev_items@,
            curr_items@,
            path.deep_view(),
            0,
        ),
{
    let ghost pv = path.deep_view();
    let mut i: usize = 0;
    while i < curr_items.len()
        invariant
            i <= curr_items@.len(),
            entries_model(changes@) + set_entries_from(prev_items@, curr_items@, pv, i as int)
                =~= entries_model(old(changes)@) + set_entries_from(
                prev_items@,
                curr_items@,
                pv,
                0,
            ),
        decreases curr_items@.len() - i,
    {
        if !contains_value(prev_items, &curr_items[i]) {
            let seg = crate::text::usize_string(i);
            changes.push((path_push(&path, &seg), DiffKind::Added));
            proof {
                assert(entries_model(changes@) + set_entries_from(
                    prev_items@,
                    curr_items@,
                    pv,
                    i + 1,
                ) =~= entries_model(old(changes)@) + set_entries_from(
                    prev_items@,
                    curr_items@,
                    pv,
                    0,
                ));
            }
        } else {
            proof {
                assert(entries_model(changes@) + set_entries_from(
                    prev_items@,
                    curr_items@,
                    pv,
                    i + 1,
                ) =~= entries_model(old(changes)@) + set_entries_from(
                    prev_items@,
                    curr_items@,
                    pv,
                    0,
                ));
            }
        }
        i += 1;
    }
}

/// Compares two snapshots and returns the sparse change map between them.
#[verifier::loop_isolation(false)]
pub fn compute_diff(prev: &Vec<(String, Value)>, curr: &Vec<(String, Value)>) -> (r: DiffResult)
    ensures
        entries_model(r.changes@) == spec_compute_diff(prev@, curr@),
{
    let mut changes: Vec<(NodePath, DiffKind)> = Vec::new();
    let mut i: usize = 0;
    while i < prev.len()
        invariant
            i <= prev@.len(),
            entries_model(changes@) + state_removed_from(prev@, curr@, i as int)
                =~= state_removed_from(prev@, curr@, 0),
        decreases prev@.len() - i,
    {
        if lookup_name(curr, &prev[i].0).is_none() {
            let mut p: NodePath = Vec::new();
            p.push(clone_string(&prev[i].0));
            proof {
                assert(p.deep_view() =~= seq![prev@[i as int].0@]);
            }
            changes.push((p, DiffKind::Removed));
            proof {
                assert(entries_model(changes@) + state_removed_from(prev@, curr@, i + 1)
                    =~= state_removed_from(prev@, curr@, 0));
            }
        }
        i += 1;
    }
    let ghost base1 = state_removed_from(prev@, curr@, 0);
    let mut i: usize = 0;
    while i < curr.len()
        invariant
            i <= curr@.len(),
            entries_model(changes@) + state_added_from(prev@, curr@, i as int) =~= base1
                + state_added_from(prev@, curr@, 0),
        decreases curr@.len() - i,
    {
        if lookup_name(prev, &curr[i].0).is_none() {
            let mut p: NodePath = Vec::new();
            p.push(clone_string(&curr[i].0));
            proof {
                assert(p.deep_view() =~= seq![curr@[i as int].0@]);
            }
            changes.push((p, DiffKind::Added));
            proof {
                assert(entries_model(changes@) + state_added_from(prev@, curr@, i + 1) =~= base1
                    + state_added_from(prev@, curr@, 0));
            }
        }
        i += 1;
    }
    let ghost base2 = base1 + state_added_from(prev@, curr@, 0);
    let mut i: usize = 0;
    while i < prev.len()
        invariant
            i <= prev@.len(),
            entries_model(changes@) + state_common_from(prev@, curr@, i as int) =~= base2
                + state_common_from(prev@, curr@, 0),
        decreases prev@.len() - i,
    {
        match lookup_name(curr, &prev[i].0) {
            Some(j) => {
                let mut p: NodePath = Vec::new();
                p.push(clone_string(&prev[i].0));
                proof {
                    assert(p.deep_view() =~= seq![prev@[i as int].0@]);
                    assert(decreases_to!(prev@ => prev@[i as int]));
                    assert(decreases_to!(prev@[i as int] => prev@[i as int].1));
                }
                diff_value(&prev[i].1, &curr[j].1, p, &mut changes);
                proof {
                    assert(entries_model(changes@) + state_common_from(prev@, curr@, i + 1)
                        =~= base2 + state_common_from(prev@, curr@, 0));
                }
            },
            None => {
                proof {
                    assert(entries_model(changes@) + state_common_from(prev@, curr@, i + 1)
                        =~= base2 + state_common_from(prev@, curr@, 0));
                }
            },
        }
        i += 1;
    }
    proof {
        assert(entries_model(changes@) =~= spec_compute_diff(prev@, curr@));
    }
    DiffResult { changes }
}

/// A failed search means no binding at or after `j` carries the name.
pub proof fn lemma_find_name_from_none(s: Seq<(String, Value)>, name: Seq<char>, j: int)
    requires
        0 <= j,
        find_name_from(s, name, j) is None,
    ensures
        forall|k: int| j <= k < s.len() ==> s[k].0@ != name,
    decreases s.len() - j,
{
    if 0 <= j < s.len() {
        lemma_find_name_from_none(s, name, j + 1);
    }
}

/// Comparing a snapshot with an identical copy yields an empty change map,
/// provided its variable names are distinct.
pub proof fn lemma_diff_identical_state(s: Seq<(String, Value)>)
    requires
        crate::value::distinct_names(s),
    ensures
        spec_compute_diff(s, s).len() == 0,
{
    lemma_state_removed_self(s, 0);
    lemma_state_added_self(s, 0);
    lemma_state_common_self(s, 0);
}

proof fn lemma_state_removed_self(s: Seq<(String, Value)>, i: int)
    ensures
        state_removed_from(s, s, i).len() == 0,
    decreases s.len() - i,
{
    if 0 <= i < s.len() {
        if find_name_from(s, s[i].0@, 0) is None {
            lemma_find_name_from_none(s, s[i].0@, 0);
            assert(s[i].0@ != s[i].0@);
        }
        lemma_state_removed_self(s, i + 1);
    }
}

proof fn lemma_state_added_self(s: Seq<(String, Value)>, i: int)
    ensures
        state_added_from(s, s, i).len() == 0,
    decreases s.len() - i,
{
    if 0 <= i < s.len() {
        if find_name_from(s, s[i].0@, 0) is None {
            lemma_find_name_from_none(s, s[i].0@, 0);
            assert(s[i].0@ != s[i].0@);
        }
        lemma_state_added_self(s, i + 1);
    }
}

proof fn lemma_state_common_self(s: Seq<(String, Value)>, i: int)
    requires
        crate::value::distinct_names(s),
    ensures
        state_common_from(s, s, i).len() == 0,
    decreases s.len() - i,
{
    if 0 <= i < s.len() {
        match find_name_from(s, s[i].0@, 0) {
            Some(j) => {
                lemma_find_name_from_in_range(s, s[i].0@, 0);
                assert(s[j].0@ == s[i].0@);
                if i != j {
                    if i < j {
                        assert(s[i].0@ != s[j].0@);
                    } else {
                        assert(s[j].0@ != s[i].0@);
                    }
                }
                assert(j == i);
                crate::value::lemma_value_eq_refl(s[i].1);
                assert(spec_diff_value(s[i].1, s[j].1, seq![s[i].0@]).len() == 0);
            },
            None => {
                lemma_find_name_from_none(s, s[i].0@, 0);
                assert(s[i].0@ != s[i].0@);
            },
        }
        lemma_state_common_self(s, i + 1);
    }
}

/// The change map between two snapshots of a trace, or an empty map when
/// either index is out of range.
pub fn diff_states(trace: &crate::value::Trace, left: usize, right: usize) -> (r: DiffResult)
    ensures
        left < trace.states@.len() && right < trace.states@.len() ==> entries_model(r.changes@)
            == spec_compute_diff(
            trace.states@[left as int].values@,
            trace.states@[right as int].values@,
        ),
        !(left < trace.states@.len() && right < trace.states@.len()) ==> r.changes@.len() == 0,
{
    if left < trace.states.len() && right < trace.states.len() {
        compute_diff(&trace.states[left].values, &trace.states[right].values)
    } else {
        DiffResult { changes: Vec::new() }
    }
}

} // verus!
