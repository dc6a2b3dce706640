//! The tree renderer: turns one value plus a change map and an expansion
//! state into a flat sequence of display lines, applying width budgets,
//! inlining, sum-type formatting and the collapsing of unchanged runs.

use vstd::prelude::*;
use vstd::string::StringExecFns;

use crate::diff::{DiffKind, DiffResult};
use crate::expansion::ExpansionState;
use crate::text::{
    bool_text, dec_digits, int_text, quoted, short_text, spaces_text, usize_string,
};
use crate::value::{NodePath, Value, clone_string, path_push};

verus! {

/// Semantic tag of a piece of line text; mapping tags to colors is the
/// display layer's concern.
#[derive(Clone, Copy, Debug, PartialEq, Eq, Structural)]
pub enum SpanStyle {
    Plain,
    Textual,
    Numeric,
    Boolean,
}

/// One styled piece of a rendered line.
pub struct StyledSpan {
    pub text: String,
    pub style: SpanStyle,
}

impl StyledSpan {
    /// A span with the given text and tag.
    pub fn new(text: String, style: SpanStyle) -> (r: StyledSpan)
        ensures
            r.text@ == text@,
            r.style == style,
    {
        StyledSpan { text, style }
    }

    /// An untagged span.
    pub fn default(text: String) -> (r: StyledSpan)
        ensures
            r.text@ == text@,
            r.style == SpanStyle::Plain,
    {
        StyledSpan::new(text, SpanStyle::Plain)
    }

    /// A span tagged as string content.
    pub fn string(text: String) -> (r: StyledSpan)
        ensures
            r.text@ == text@,
            r.style == SpanStyle::Textual,
    {
        StyledSpan::new(text, SpanStyle::Textual)
    }

    /// A span tagged as numeric content.
    pub fn number(text: String) -> (r: StyledSpan)
        ensures
            r.text@ == text@,
            r.style == SpanStyle::Numeric,
    {
        StyledSpan::new(text, SpanStyle::Numeric)
    }

    /// A span tagged as boolean content.
    pub fn boolean(text: String) -> (r: StyledSpan)
        ensures
            r.text@ == text@,
            r.style == SpanStyle::Boolean,
    {
        StyledSpan::new(text, SpanStyle::Boolean)
    }
}

/// One renderable row of the tree.
pub struct TreeLine {
    pub path: NodePath,
    pub expandable: bool,
    pub diff: DiffKind,
    pub spans: Vec<StyledSpan>,
}

/// The mathematical form of one line: its address, whether activating it
/// toggles expansion, its change kind, and its text.
pub struct LineM {
    pub path: Seq<Seq<char>>,
    pub expandable: bool,
    pub diff: DiffKind,
    pub text: Seq<char>,
}

/// The concatenated text of a span sequence.
pub open spec fn spans_text(s: Seq<StyledSpan>) -> Seq<char>
    decreases s.len(),
{
    if s.len() == 0 {
        Seq::empty()
    } else {
        spans_text(s.drop_last()) + s.last().text@
    }
}

/// The mathematical form of a line.
pub open spec fn line_model(l: TreeLine) -> LineM {
    LineM {
        path: l.path.deep_view(),
        expandable: l.expandable,
        diff: l.diff,
        text: spans_text(l.spans@),
    }
}

/// The mathematical form of a line sequence.
pub open spec fn lines_model(s: Seq<TreeLine>) -> Seq<LineM> {
    s.map_values(|l: TreeLine| line_model(l))
}

impl TreeLine {
    /// A line carrying one untagged span.
    pub fn with_default_spans(path: NodePath, text: String, expandable: bool, diff: DiffKind) -> (r:
        TreeLine)
        ensures
            line_model(r) == (LineM {
                path: path.deep_view(),
                expandable,
                diff,
                text: text@,
            }),
    {
        let ghost t = text@;
        let ghost pv = path.deep_view();
        let mut spans: Vec<StyledSpan> = Vec::new();
        spans.push(StyledSpan::default(text));
        let r = TreeLine { path, expandable, diff, spans };
        proof {
            assert(r.spans@.len() == 1);
            assert(r.spans@.last().text@ == t);
            assert(r.spans@.drop_last() =~= Seq::<StyledSpan>::empty());
            assert(spans_text(Seq::<StyledSpan>::empty()) == Seq::<char>::empty());
            assert(spans_text(r.spans@) =~= t);
        }
        r
    }
}

/// The usable width at a nesting depth: the terminal width less two columns
/// per level, never under twenty columns.
pub open spec fn avail_width(width: nat, depth: nat) -> nat {
    let used = 2 * depth;
    let left = if width >= used {
        (width - used) as nat
    } else {
        0
    };
    if left >= 20 {
        left
    } else {
        20
    }
}

/// Column budgets at one nesting depth, as shares of the usable width.
#[derive(Clone, Copy)]
pub struct DisplayThresholds {
    pub inline: usize,
    pub key: usize,
    pub value: usize,
    pub preview: usize,
}

/// The budget for fully inlined content: eighty percent of the usable width.
pub open spec fn inline_budget(width: nat, depth: nat) -> nat {
    avail_width(width, depth) * 80 / 100
}

/// The budget for a mapping key: thirty-five percent of the usable width.
pub open spec fn key_budget(width: nat, depth: nat) -> nat {
    avail_width(width, depth) * 35 / 100
}

/// The budget for a mapping value: forty-five percent of the usable width.
pub open spec fn value_budget(width: nat, depth: nat) -> nat {
    avail_width(width, depth) * 45 / 100
}

/// The budget for a preview: seventy percent of the usable width.
pub open spec fn preview_budget(width: nat, depth: nat) -> nat {
    avail_width(width, depth) * 70 / 100
}

impl DisplayThresholds {
    /// Computes the budgets for a terminal width and nesting depth.
    pub fn new(terminal_width: usize, depth: usize) -> (r: DisplayThresholds)
        ensures
            r.inline as nat == inline_budget(terminal_width as nat, depth as nat),
            r.key as nat == key_budget(terminal_width as nat, depth as nat),
            r.value as nat == value_budget(terminal_width as nat, depth as nat),
            r.preview as nat == preview_budget(terminal_width as nat, depth as nat),
    {
        let used: u128 = (depth as u128) * 2;
        let left: u128 = if (terminal_width as u128) >= used {
            terminal_width as u128 - used
        } else {
            0
        };
        let available: u128 = if left >= 20 {
            left
        } else {
            20
        };
        proof {
            assert(available as nat == avail_width(terminal_width as nat, depth as nat));
            assert(available <= u64::MAX as u128);
        }
        DisplayThresholds {
            inline: (available * 80 / 100) as usize,
            key: (available * 35 / 100) as usize,
            value: (available * 45 / 100) as usize,
            preview: (available * 70 / 100) as usize,
        }
    }
}

/// The change marker written before a line's name: added nodes carry a plus.
pub open spec fn marker_text(d: DiffKind) -> Seq<char> {
    match d {
        DiffKind::Added => ("+ ")@,
        _ => Seq::empty(),
    }
}

/// Builds the change marker.
pub fn diff_marker(diff: DiffKind) -> (r: &'static str)
    ensures
        r@ == marker_text(diff),
{
    match diff {
        DiffKind::Added => "+ ",
        _ => {
            let r = "";
            proof {
                reveal_strlit("");
            }
            r
        },
    }
}

/// Marker and name before a value: `name: `, or the marker alone for an
/// unnamed node.
pub open spec fn prefix_text(name: Seq<char>, d: DiffKind) -> Seq<char> {
    if name.len() == 0 {
        marker_text(d)
    } else {
        marker_text(d) + name + (": ")@
    }
}

/// Builds the marker-and-name prefix.
pub fn name_prefix(name: &str, diff: DiffKind) -> (r: String)
    ensures
        r@ == prefix_text(name@, diff),
{
    let mut r = String::from_str(diff_marker(diff));
    if name.unicode_len() == 0 {
        proof {
            assert(r@ =~= prefix_text(name@, diff));
        }
        r
    } else {
        r.append(name);
        r.append(": ");
        proof {
            assert(r@ =~= prefix_text(name@, diff));
        }
        r
    }
}

/// Marker, expansion icon and name before an expandable value.
pub open spec fn icon_prefix_text(icon: Seq<char>, name: Seq<char>, d: DiffKind) -> Seq<char> {
    if name.len() == 0 {
        marker_text(d) + icon + (" ")@
    } else {
        marker_text(d) + icon + (" ")@ + name + (": ")@
    }
}

/// Builds the marker, icon and name prefix.
pub fn name_prefix_with_icon(icon: &str, name: &str, diff: DiffKind) -> (r: String)
    ensures
        r@ == icon_prefix_text(icon@, name@, diff),
{
    let mut r = String::from_str(diff_marker(diff));
    r.append(icon);
    r.append(" ");
    if name.unicode_len() == 0 {
        proof {
            assert(r@ =~= icon_prefix_text(icon@, name@, diff));
        }
        r
    } else {
        r.append(name);
        r.append(": ");
        proof {
            assert(r@ =~= icon_prefix_text(icon@, name@, diff));
        }
        r
    }
}

/// The icon of an expandable line: down when open, right when closed.
pub open spec fn icon_text(expanded: bool) -> Seq<char> {
    if expanded {
        ("v")@
    } else {
        (">")@
    }
}

/// Builds the expansion icon.
pub fn expand_icon(expanded: bool) -> (r: &'static str)
    ensures
        r@ == icon_text(expanded),
{
    if expanded {
        "v"
    } else {
        ">"
    }
}

/// Builds the indentation for a nesting depth: two spaces per level.
pub fn indent_string(depth: usize) -> (r: String)
    ensures
        r@ == spaces_text(2 * depth as nat),
{
    let mut r = String::new();
    let mut i: usize = 0;
    while i < depth
        invariant
            i <= depth,
            r@ == spaces_text(2 * i as nat),
        decreases depth - i,
    {
        r.append("  ");
        proof {
            reveal_strlit("  ");
            assert(("  ")@.len() == 2);
            assert(("  ")@[0] == ' ' && ("  ")@[1] == ' ');
            reveal_with_fuel(spaces_text, 3);
            assert(r@ =~= spaces_text(2 * (i + 1) as nat));
        }
        i += 1;
    }
    r
}

/// One past the last index of the maximal run of equal change status that
/// starts at `i`.
pub open spec fn run_end(changed: Seq<bool>, i: int) -> int
    decreases changed.len() - i,
{
    if i < 0 || i >= changed.len() {
        i + 1
    } else if i + 1 < changed.len() && changed[i + 1] == changed[i] {
        run_end(changed, i + 1)
    } else {
        i + 1
    }
}

/// A run is non-empty, stays inside the sequence, has one status throughout,
/// and is maximal.
pub proof fn lemma_run_end_bounds(changed: Seq<bool>, i: int)
    requires
        0 <= i < changed.len(),
    ensures
        i < run_end(changed, i) <= changed.len(),
        forall|k: int| i <= k < run_end(changed, i) ==> changed[k] == changed[i],
        run_end(changed, i) < changed.len() ==> changed[run_end(changed, i)] != changed[i],
    decreases changed.len() - i,
{
    if i + 1 < changed.len() && changed[i + 1] == changed[i] {
        lemma_run_end_bounds(changed, i + 1);
    }
}

/// Whether any child is marked changed.
pub open spec fn spec_any_changed(changed: Seq<bool>) -> bool {
    exists|k: int| 0 <= k < changed.len() && changed[k]
}

/// The maximal runs of equal change status from index `i` on, each with the
/// verdict whether it is hidden behind a placeholder: only an unchanged run
/// in a collection with changes, of length at least three and at least the
/// collapse threshold, collapses.
pub open spec fn spec_runs_from(changed: Seq<bool>, ct: nat, any: bool, i: int) -> Seq<
    (int, int, bool),
>
    decreases changed.len() - i,
        via spec_runs_from_decreases
{
    if i < 0 || i >= changed.len() {
        Seq::empty()
    } else {
        let e = run_end(changed, i);
        let collapsed = any && !changed[i] && e - i >= 3 && e - i >= ct;
        seq![(i, e, collapsed)] + spec_runs_from(changed, ct, any, e)
    }
}

#[via_fn]
proof fn spec_runs_from_decreases(changed: Seq<bool>, ct: nat, any: bool, i: int) {
    if 0 <= i < changed.len() {
        lemma_run_end_bounds(changed, i);
    }
}

/// The grouping of a collection's children into runs, with collapse
/// verdicts.
pub open spec fn spec_runs(changed: Seq<bool>, ct: nat) -> Seq<(int, int, bool)> {
    spec_runs_from(changed, ct, spec_any_changed(changed), 0)
}

/// The runs from `i` on cover the indices `i` to the end exactly: each run
/// is non-empty, the first starts at `i`, each next run starts where the one
/// before it ends, and the last ends at the sequence's end.
pub proof fn lemma_runs_partition_from(changed: Seq<bool>, ct: nat, any: bool, i: int)
    requires
        0 <= i <= changed.len(),
    ensures
        i == changed.len() ==> spec_runs_from(changed, ct, any, i).len() == 0,
        i < changed.len() ==> spec_runs_from(changed, ct, any, i).len() > 0,
        i < changed.len() ==> spec_runs_from(changed, ct, any, i)[0].0 == i,
        i < changed.len() ==> spec_runs_from(changed, ct, any, i).last().1 == changed.len(),
        forall|k: int|
            0 <= k < spec_runs_from(changed, ct, any, i).len() ==> #[trigger] spec_runs_from(
                changed,
                ct,
                any,
                i,
            )[k].0 < spec_runs_from(changed, ct, any, i)[k].1 <= changed.len(),
        forall|k: int|
            0 <= k < spec_runs_from(changed, ct, any, i).len() - 1 ==> #[trigger] spec_runs_from(
                changed,
                ct,
                any,
                i,
            )[k + 1].0 == spec_runs_from(changed, ct, any, i)[k].1,
    decreases changed.len() - i,
{
    if i < changed.len() {
        lemma_run_end_bounds(changed, i);
        let e = run_end(changed, i);
        lemma_runs_partition_from(changed, ct, any, e);
        let rest = spec_runs_from(changed, ct, any, e);
        let whole = spec_runs_from(changed, ct, any, i);
        assert(whole =~= seq![(i, e, (any && !changed[i] && e - i >= 3 && e - i >= ct))] + rest);
        assert forall|k: int| 0 <= k < whole.len() implies #[trigger] whole[k].0 < whole[k].1
            <= changed.len() by {
            if k > 0 {
                assert(whole[k] == rest[k - 1]);
            }
        }
        assert forall|k: int| 0 <= k < whole.len() - 1 implies #[trigger] whole[k + 1].0
            == whole[k].1 by {
            if k > 0 {
                assert(whole[k] == rest[k - 1]);
                assert(whole[k + 1] == rest[k]);
                assert(rest[(k - 1) + 1].0 == rest[k - 1].1);
            } else {
                if rest.len() > 0 {
                    assert(whole[1] == rest[0]);
                }
            }
        }
    }
}

/// Collapsing coverage: the emitted groups of a collection of children cover
/// the child indices exactly once, first to last, with no gaps or overlaps.
pub proof fn lemma_groups_cover_all(changed: Seq<bool>, ct: nat)
    ensures
        changed.len() == 0 ==> spec_runs(changed, ct).len() == 0,
        changed.len() > 0 ==> spec_runs(changed, ct).len() > 0,
        changed.len() > 0 ==> spec_runs(changed, ct)[0].0 == 0,
        changed.len() > 0 ==> spec_runs(changed, ct).last().1 == changed.len(),
        forall|k: int|
            0 <= k < spec_runs(changed, ct).len() ==> #[trigger] spec_runs(changed, ct)[k].0
                < spec_runs(changed, ct)[k].1 <= changed.len(),
        forall|k: int|
            0 <= k < spec_runs(changed, ct).len() - 1 ==> #[trigger] spec_runs(changed, ct)[k
                + 1].0 == spec_runs(changed, ct)[k].1,
{
    lemma_runs_partition_from(changed, ct, spec_any_changed(changed), 0);
}

/// No collapsing when nothing changed: with zero changed children no run is
/// hidden behind a placeholder, whatever its length.
pub proof fn lemma_no_collapse_when_unchanged(changed: Seq<bool>, ct: nat)
    requires
        !spec_any_changed(changed),
    ensures
        forall|k: int| 0 <= k < spec_runs(changed, ct).len() ==> !(#[trigger] spec_runs(
            changed,
            ct,
        )[k].2),
{
    lemma_no_collapse_from(changed, ct, 0);
}

proof fn lemma_no_collapse_from(changed: Seq<bool>, ct: nat, i: int)
    requires
        !spec_any_changed(changed),
    ensures
        forall|k: int|
            0 <= k < spec_runs_from(changed, ct, spec_any_changed(changed), i).len() ==> !(
            #[trigger] spec_runs_from(changed, ct, spec_any_changed(changed), i)[k].2),
    decreases changed.len() - i,
{
    if 0 <= i < changed.len() {
        lemma_run_end_bounds(changed, i);
        let any = spec_any_changed(changed);
        let e = run_end(changed, i);
        lemma_no_collapse_from(changed, ct, e);
        let rest = spec_runs_from(changed, ct, any, e);
        let whole = spec_runs_from(changed, ct, any, i);
        assert forall|k: int| 0 <= k < whole.len() implies !(#[trigger] whole[k].2) by {
            if k > 0 {
                assert(whole[k] == rest[k - 1]);
            }
        }
    }
}

/// The mathematical form of an emitted group list.
pub open spec fn groups_model(s: Seq<(usize, usize, bool)>) -> Seq<(int, int, bool)> {
    s.map_values(|g: (usize, usize, bool)| (g.0 as int, g.1 as int, g.2))
}

/// Decides whether any child is marked changed.
fn any_changed(changed: &Vec<bool>) -> (r: bool)
    ensures
        r == spec_any_changed(changed@),
{
    let mut i: usize = 0;
    while i < changed.len()
        invariant
            i <= changed@.len(),
            forall|k: int| 0 <= k < i ==> !changed@[k],
        decreases changed@.len() - i,
    {
        if changed[i] {
            return true;
        }
        i += 1;
    }
    false
}

/// Partitions child indices into maximal runs of equal change status and
/// decides which unchanged runs collapse behind a placeholder.
#[verifier::loop_isolation(false)]
pub fn group_runs(changed: &Vec<bool>, collapse_threshold: usize) -> (groups: Vec<
    (usize, usize, bool),
>)
    ensures
        groups_model(groups@) == spec_runs(changed@, collapse_threshold as nat),
{
    let any = any_changed(changed);
    let n = changed.len();
    let mut groups: Vec<(usize, usize, bool)> = Vec::new();
    let mut i: usize = 0;
    while i < n
        invariant
            i <= n,
            groups_model(groups@) + spec_runs_from(
                changed@,
                collapse_threshold as nat,
                any,
                i as int,
            ) =~= spec_runs(changed@, collapse_threshold as nat),
        decreases n - i,
    {
        let mut e: usize = i + 1;
        while e < n && changed[e] == changed[i]
            invariant
                i < e <= n,
                forall|k: int| i <= k < e ==> changed@[k] == changed@[i as int],
            decreases n - e,
        {
            e += 1;
        }
        proof {
            lemma_run_end_bounds(changed@, i as int);
            let re = run_end(changed@, i as int);
            if re < e {
                assert(changed@[re] == changed@[i as int]);
                assert(false);
            }
            if e < re {
                assert(changed@[e as int] == changed@[i as int]);
                assert(false);
            }
        }
        let run_len = e - i;
        let collapsed = any && !changed[i] && run_len >= 3 && run_len >= collapse_threshold;
        groups.push((i, e, collapsed));
        proof {
            assert(groups_model(groups@) + spec_runs_from(
                changed@,
                collapse_threshold as nat,
                any,
                e as int,
            ) =~= spec_runs(changed@, collapse_threshold as nat));
        }
        i = e;
    }
    proof {
        assert(groups_model(groups@) =~= spec_runs(changed@, collapse_threshold as nat));
    }
    groups
}

/// Everything a render pass holds fixed: which nodes are open, what changed
/// at each path, the terminal width, and the collapse threshold.
pub struct RenderCx {
    pub exp: Set<Seq<Seq<char>>>,
    pub dm: spec_fn(Seq<Seq<char>>) -> DiffKind,
    pub width: nat,
    pub ct: nat,
}

/// The change-kind lookup a render pass uses.
pub open spec fn dm_of(d: DiffResult) -> spec_fn(Seq<Seq<char>>) -> DiffKind {
    |q: Seq<Seq<char>>| d.kind_of(q)
}

/// A render context over an explicit set of open paths.
pub open spec fn set_cx(exp: Set<Seq<Seq<char>>>, d: DiffResult, width: nat, ct: nat) -> RenderCx {
    RenderCx { exp, dm: dm_of(d), width, ct }
}

/// The context a render call derives from its arguments.
pub open spec fn make_cx(e: ExpansionState, d: DiffResult, width: nat, ct: nat) -> RenderCx {
    set_cx(e.expanded_set(), d, width, ct)
}

/// A nesting depth one or two levels deeper, capped at the machine word as
/// the executable recursion computes it.
pub open spec fn bump(d: nat, k: nat) -> nat {
    if d + k <= usize::MAX as nat {
        d + k
    } else {
        usize::MAX as nat
    }
}

/// Whether each child of a collection changed, by positional path.
pub open spec fn changed_flags(count: nat, path: Seq<Seq<char>>, dm: spec_fn(Seq<Seq<char>>) -> DiffKind) -> Seq<bool> {
    Seq::new(count, |i: int| dm(path.push(dec_digits(i as nat))) != DiffKind::Unchanged)
}

/// The synthetic path segment of a collapsed run of children.
pub open spec fn group_segment(s: int, e: int) -> Seq<char>
    recommends
        0 <= s,
        0 <= e,
{
    ("__collapsed_")@ + dec_digits(s as nat) + ("_")@ + dec_digits(e as nat)
}

/// The placeholder line of a collapsed run.
pub open spec fn group_line(gpath: Seq<Seq<char>>, expanded: bool, ind: Seq<char>, count: nat) -> LineM {
    LineM {
        path: gpath,
        expandable: true,
        diff: DiffKind::Unchanged,
        text: ind + icon_text(expanded) + (" ")@ + dec_digits(count) + (" unchanged")@,
    }
}

/// The tag text and payload of a record in sum shape: exactly the two
/// fields `tag` (a string) and `value`.
pub open spec fn sum_parts(fs: Seq<(String, Value)>) -> Option<(Seq<char>, Value)> {
    if fs.len() == 2 && fs[0].0@ == ("tag")@ && fs[1].0@ == ("value")@ {
        match fs[0].1 {
            Value::Text(t) => Some((t@, fs[1].1)),
            _ => None,
        }
    } else if fs.len() == 2 && fs[0].0@ == ("value")@ && fs[1].0@ == ("tag")@ {
        match fs[1].1 {
            Value::Text(t) => Some((t@, fs[0].1)),
            _ => None,
        }
    } else {
        None
    }
}

/// Whether a sum payload is a unit: an empty tuple or an empty record.
pub open spec fn is_unit_payload(v: Value) -> bool {
    match v {
        Value::Tuple(items) => items@.len() == 0,
        Value::Record(fs) => fs@.len() == 0,
        _ => false,
    }
}

/// The lines of one named value at one depth: a single line for atoms and
/// anything that fits its inline budget, otherwise an expandable header
/// with children and a closing delimiter while open.
pub open spec fn spec_render_value(
    name: Seq<char>,
    v: Value,
    path: Seq<Seq<char>>,
    cx: RenderCx,
    depth: nat,
) -> Seq<LineM>
    decreases v, 0int, 0int, 0int,
{
    let ind = spaces_text(2 * depth);
    let dk = (cx.dm)(path);
    let pre = prefix_text(name, dk);
    match v {
        Value::Bool(b) => seq![
            LineM { path, expandable: false, diff: dk, text: ind + pre + bool_text(b) },
        ],
        Value::Number(n) => seq![
            LineM { path, expandable: false, diff: dk, text: ind + pre + int_text(n as int) },
        ],
        Value::BigInt(d) => seq![
            LineM { path, expandable: false, diff: dk, text: ind + pre + d@ },
        ],
        Value::Text(st) => seq![
            LineM { path, expandable: false, diff: dk, text: ind + pre + quoted(st@) },
        ],
        Value::Unserializable(u) => seq![
            LineM { path, expandable: false, diff: dk, text: ind + pre + u@ },
        ],
        Value::Record(fs) => match sum_parts(fs@) {
            Some(tp) => {
                let tag = tp.0;
                let inner = tp.1;
                if is_unit_payload(inner) {
                    seq![LineM { path, expandable: false, diff: dk, text: ind + pre + tag }]
                } else {
                    match crate::text::full_text(inner, preview_budget(cx.width, depth)) {
                        Some(t) => seq![
                            LineM {
                                path,
                                expandable: false,
                                diff: dk,
                                text: ind + pre + tag + ("(")@ + t + (")")@,
                            },
                        ],
                        None => {
                            let ex = cx.exp.contains(path);
                            let head = LineM {
                                path,
                                expandable: true,
                                diff: dk,
                                text: ind + icon_prefix_text(icon_text(ex), name, dk) + tag + (
                                "(")@ + short_text(inner) + (")")@,
                            };
                            if ex {
                                seq![head] + spec_render_children(
                                    inner,
                                    path.push(("value")@),
                                    cx,
                                    bump(depth, 1),
                                )
                            } else {
                                seq![head]
                            }
                        },
                    }
                }
            },
            None => match crate::text::full_text(v, inline_budget(cx.width, depth)) {
                Some(t) => seq![
                    LineM { path, expandable: false, diff: dk, text: ind + pre + t },
                ],
                None => {
                    let ex = cx.exp.contains(path);
                    let ipre = icon_prefix_text(icon_text(ex), name, dk);
                    if ex {
                        seq![
                            LineM { path, expandable: true, diff: dk, text: ind + ipre + ("{")@ },
                        ] + spec_render_fields(fs@, path, cx, bump(depth, 1), 0) + seq![
                            LineM { path, expandable: false, diff: dk, text: ind + ("}")@ },
                        ]
                    } else {
                        seq![
                            LineM {
                                path,
                                expandable: true,
                                diff: dk,
                                text: ind + ipre + ("{")@ + dec_digits(fs@.len()) + (
                                " fields}")@,
                            },
                        ]
                    }
                },
            },
        },
        Value::Mapping(ps) => {
            if ps@.len() == 0 {
                seq![
                    LineM {
                        path,
                        expandable: false,
                        diff: dk,
                        text: ind + pre + ("Map(empty)")@,
                    },
                ]
            } else {
                let ex = cx.exp.contains(path);
                let ipre = icon_prefix_text(icon_text(ex), name, dk);
                if ex {
                    let flags = changed_flags(ps@.len(), path, cx.dm);
                    let groups = spec_runs(flags, cx.ct);
                    seq![
                        LineM { path, expandable: true, diff: dk, text: ind + ipre + ("Map(")@ },
                    ] + spec_render_map_groups(
                        ps@,
                        path,
                        cx,
                        spaces_text(2 * bump(depth, 1)),
                        key_budget(cx.width, depth),
                        value_budget(cx.width, depth),
                        bump(depth, 2),
                        groups,
                        0,
                    ) + seq![LineM { path, expandable: false, diff: dk, text: ind + (")")@ }]
                } else {
                    seq![
                        LineM {
                            path,
                            expandable: true,
                            diff: dk,
                            text: ind + ipre + ("Map(")@ + dec_digits(ps@.len()) + (
                            " entries)")@,
                        },
                    ]
                }
            }
        },
        Value::SetOf(items) => spec_render_collection(
            items@,
            ("Set(")@,
            (")")@,
            ("Set(")@,
            (" items)")@,
            false,
            name,
            path,
            cx,
            depth,
        ),
        Value::List(items) => spec_render_collection(
            items@,
            ("[")@,
            ("]")@,
            ("List(")@,
            (" items)")@,
            true,
            name,
            path,
            cx,
            depth,
        ),
        Value::Tuple(items) => spec_render_collection(
            items@,
            ("(")@,
            (")")@,
            ("Tuple(")@,
            (" items)")@,
            true,
            name,
            path,
            cx,
            depth,
        ),
    }
}

/// The lines of a set, list or tuple: one inline line when every element is
/// atomic and the joined short forms fit, else a header, the grouped items
/// while open, and a closing delimiter.
pub open spec fn spec_render_collection(
    items: Seq<Value>,
    open_b: Seq<char>,
    close_b: Seq<char>,
    head_word: Seq<char>,
    items_word: Seq<char>,
    labeled: bool,
    name: Seq<char>,
    path: Seq<Seq<char>>,
    cx: RenderCx,
    depth: nat,
) -> Seq<LineM>
    decreases items, 3int, 0int, 0int,
{
    let ind = spaces_text(2 * depth);
    let dk = (cx.dm)(path);
    let pre = prefix_text(name, dk);
    let inline = if crate::text::all_simple(items) {
        crate::text::inline_join(items, open_b, close_b, inline_budget(cx.width, depth))
    } else {
        None
    };
    match inline {
        Some(t) => seq![LineM { path, expandable: false, diff: dk, text: ind + pre + t }],
        None => {
            let ex = cx.exp.contains(path);
            let ipre = icon_prefix_text(icon_text(ex), name, dk);
            if ex {
                let flags = changed_flags(items.len(), path, cx.dm);
                let groups = spec_runs(flags, cx.ct);
                seq![LineM { path, expandable: true, diff: dk, text: ind + ipre + open_b }]
                    + spec_render_items_groups(
                    items,
                    path,
                    cx,
                    bump(depth, 1),
                    labeled,
                    groups,
                    0,
                ) + seq![LineM { path, expandable: false, diff: dk, text: ind + close_b }]
            } else {
                seq![
                    LineM {
                        path,
                        expandable: true,
                        diff: dk,
                        text: ind + ipre + head_word + dec_digits(items.len()) + items_word,
                    },
                ]
            }
        },
    }
}

/// The lines of a record's fields, one recursive rendering per field.
pub open spec fn spec_render_fields(
    fs: Seq<(String, Value)>,
    path: Seq<Seq<char>>,
    cx: RenderCx,
    depth: nat,
    i: int,
) -> Seq<LineM>
    decreases fs, 2int, fs.len() - i, 0int,
{
    if i < 0 || i >= fs.len() {
        Seq::empty()
    } else {
        spec_render_value(fs[i].0@, fs[i].1, path.push(fs[i].0@), cx, depth)
            + spec_render_fields(fs, path, cx, depth, i + 1)
    }
}

/// The lines of an item collection's grouped body: collapsed runs become a
/// placeholder line, revealed runs and ordinary runs render item by item.
pub open spec fn spec_render_items_groups(
    items: Seq<Value>,
    path: Seq<Seq<char>>,
    cx: RenderCx,
    depth: nat,
    labeled: bool,
    groups: Seq<(int, int, bool)>,
    gi: int,
) -> Seq<LineM>
    decreases items, 2int, groups.len() - gi, 0int,
{
    if gi < 0 || gi >= groups.len() {
        Seq::empty()
    } else {
        let g = groups[gi];
        let lines = if g.2 {
            let gpath = path.push(group_segment(g.0, g.1));
            let gex = cx.exp.contains(gpath);
            let gl = group_line(gpath, gex, spaces_text(2 * depth), (g.1 - g.0) as nat);
            if gex {
                seq![gl] + spec_render_items_range(items, path, cx, depth, labeled, g.0, g.1)
            } else {
                seq![gl]
            }
        } else {
            spec_render_items_range(items, path, cx, depth, labeled, g.0, g.1)
        };
        lines + spec_render_items_groups(items, path, cx, depth, labeled, groups, gi + 1)
    }
}

/// The lines of the items at indices `s` to `e`, each under its positional
/// path, labeled `[i]` for ordered collections and unlabeled for sets.
pub open spec fn spec_render_items_range(
    items: Seq<Value>,
    path: Seq<Seq<char>>,
    cx: RenderCx,
    depth: nat,
    labeled: bool,
    s: int,
    e: int,
) -> Seq<LineM>
    decreases items, 1int, e - s, 0int,
{
    if s < 0 || s >= e || s >= items.len() {
        Seq::empty()
    } else {
        let label = if labeled {
            ("[")@ + dec_digits(s as nat) + ("]")@
        } else {
            Seq::<char>::empty()
        };
        spec_render_value(label, items[s], path.push(dec_digits(s as nat)), cx, depth)
            + spec_render_items_range(items, path, cx, depth, labeled, s + 1, e)
    }
}

/// The lines of a mapping's grouped body.
pub open spec fn spec_render_map_groups(
    pairs: Seq<(Value, Value)>,
    path: Seq<Seq<char>>,
    cx: RenderCx,
    ind: Seq<char>,
    kb: nat,
    vb: nat,
    child_depth: nat,
    groups: Seq<(int, int, bool)>,
    gi: int,
) -> Seq<LineM>
    decreases pairs, 2int, groups.len() - gi, 0int,
{
    if gi < 0 || gi >= groups.len() {
        Seq::empty()
    } else {
        let g = groups[gi];
        let lines = if g.2 {
            let gpath = path.push(group_segment(g.0, g.1));
            let gex = cx.exp.contains(gpath);
            let gl = group_line(gpath, gex, ind, (g.1 - g.0) as nat);
            if gex {
                seq![gl] + spec_render_map_range(pairs, path, cx, ind, kb, vb, child_depth, g.0, g.1)
            } else {
                seq![gl]
            }
        } else {
            spec_render_map_range(pairs, path, cx, ind, kb, vb, child_depth, g.0, g.1)
        };
        lines + spec_render_map_groups(pairs, path, cx, ind, kb, vb, child_depth, groups, gi + 1)
    }
}

/// The lines of the mapping entries at indices `s` to `e`: the key in full
/// when it fits its budget (else its short form), the value inline when it
/// fits (else an expandable arrow entry with the value's children while
/// open).
pub open spec fn spec_render_map_range(
    pairs: Seq<(Value, Value)>,
    path: Seq<Seq<char>>,
    cx: RenderCx,
    ind: Seq<char>,
    kb: nat,
    vb: nat,
    child_depth: nat,
    s: int,
    e: int,
) -> Seq<LineM>
    decreases pairs, 1int, e - s, 0int,
{
    if s < 0 || s >= e || s >= pairs.len() {
        Seq::empty()
    } else {
        let child = path.push(dec_digits(s as nat));
        let cd = (cx.dm)(child);
        let key_str = match crate::text::full_text(pairs[s].0, kb) {
            Some(k) => k,
            None => short_text(pairs[s].0),
        };
        let lines = match crate::text::full_text(pairs[s].1, vb) {
            Some(fv) => seq![
                LineM {
                    path: child,
                    expandable: false,
                    diff: cd,
                    text: ind + marker_text(cd) + key_str + (" -> ")@ + fv,
                },
            ],
            None => {
                let ex = cx.exp.contains(child);
                let head = LineM {
                    path: child,
                    expandable: true,
                    diff: cd,
                    text: ind + marker_text(cd) + icon_text(ex) + (" ")@ + key_str + (" -> ")@
                        + short_text(pairs[s].1),
                };
                if ex {
                    seq![head] + spec_render_children(pairs[s].1, child, cx, child_depth)
                } else {
                    seq![head]
                }
            },
        };
        lines + spec_render_map_range(pairs, path, cx, ind, kb, vb, child_depth, s + 1, e)
    }
}

/// The lines of a value's children alone, with no header line: what an
/// already-headed entry shows while open.
pub open spec fn spec_render_children(
    v: Value,
    path: Seq<Seq<char>>,
    cx: RenderCx,
    depth: nat,
) -> Seq<LineM>
    decreases v, 3int, 0int, 0int,
{
    match v {
        Value::Record(fs) => spec_render_fields(fs@, path, cx, depth, 0),
        Value::SetOf(items) => spec_render_items_groups(
            items@,
            path,
            cx,
            depth,
            false,
            spec_runs(changed_flags(items@.len(), path, cx.dm), cx.ct),
            0,
        ),
        Value::List(items) => spec_render_items_groups(
            items@,
            path,
            cx,
            depth,
            true,
            spec_runs(changed_flags(items@.len(), path, cx.dm), cx.ct),
            0,
        ),
        Value::Tuple(items) => spec_render_items_groups(
            items@,
            path,
            cx,
            depth,
            true,
            spec_runs(changed_flags(items@.len(), path, cx.dm), cx.ct),
            0,
        ),
        Value::Mapping(ps) => spec_render_map_groups(
            ps@,
            path,
            cx,
            spaces_text(2 * depth),
            key_budget(cx.width, depth),
            value_budget(cx.width, depth),
            bump(depth, 1),
            spec_runs(changed_flags(ps@.len(), path, cx.dm), cx.ct),
            0,
        ),
        _ => Seq::empty(),
    }
}

/// Appends one single-span line.
fn push_line(lines: &mut Vec<TreeLine>, path: NodePath, text: String, expandable: bool, diff: DiffKind)
    ensures
        lines_model(final(lines)@) == lines_model(old(lines)@).push(
            LineM { path: path.deep_view(), expandable, diff, text: text@ },
        ),
{
    let ghost pv = path.deep_view();
    let ghost t = text@;
    let l = TreeLine::with_default_spans(path, text, expandable, diff);
    let ghost lm = line_model(l);
    lines.push(l);
    proof {
        assert(lines_model(lines@) =~= lines_model(old(lines)@).push(lm));
    }
}

/// Moves all lines of `src` onto the end of `dst`.
fn append_lines(dst: &mut Vec<TreeLine>, src: &mut Vec<TreeLine>)
    ensures
        lines_model(final(dst)@) == lines_model(old(dst)@) + lines_model(old(src)@),
        final(src)@.len() == 0,
{
    dst.append(src);
    proof {
        assert(lines_model(dst@) =~= lines_model(old(dst)@) + lines_model(old(src)@));
    }
}

/// A depth one or two levels deeper, capped at the machine word.
fn bump_depth(d: usize, k: usize) -> (r: usize)
    requires
        k <= 2,
    ensures
        r as nat == bump(d as nat, k as nat),
{
    if d <= usize::MAX - k {
        d + k
    } else {
        usize::MAX
    }
}

/// Builds the change flags of a collection's children by positional path.
fn collection_flags(count: usize, path: &NodePath, diff: &DiffResult) -> (flags: Vec<bool>)
    ensures
        flags@ == changed_flags(count as nat, path.deep_view(), |q: Seq<Seq<char>>| diff.kind_of(q)),
{
    let mut flags: Vec<bool> = Vec::new();
    let mut i: usize = 0;
    while i < count
        invariant
            i <= count,
            flags@.len() == i,
            forall|k: int|
                0 <= k < i ==> flags@[k] == (diff.kind_of(
                    path.deep_view().push(dec_digits(k as nat)),
                ) != DiffKind::Unchanged),
        decreases count - i,
    {
        let seg = usize_string(i);
        let child = path_push(path, &seg);
        let dk = diff.get(&child);
        flags.push(!(dk == DiffKind::Unchanged));
        i += 1;
    }
    proof {
        assert(flags@ =~= changed_flags(
            count as nat,
            path.deep_view(),
            |q: Seq<Seq<char>>| diff.kind_of(q),
        ));
    }
    flags
}

/// Builds the synthetic segment of a collapsed run.
fn group_segment_string(s: usize, e: usize) -> (r: String)
    ensures
        r@ == group_segment(s as int, e as int),
{
    let mut r = String::from_str("__collapsed_");
    r.append(usize_string(s).as_str());
    r.append("_");
    r.append(usize_string(e).as_str());
    proof {
        assert(r@ =~= group_segment(s as int, e as int));
    }
    r
}

/// Finds the positions of the `tag` and `value` fields of a record in sum
/// shape.
fn detect_sum_type(fields: &Vec<(String, Value)>) -> (r: Option<(usize, usize)>)
    ensures
        (r is Some) == (sum_parts(fields@) is Some),
        r matches Some(ti_vi) ==> sum_parts(fields@) matches Some(tp) && ti_vi.0 < fields@.len()
            && ti_vi.1 < fields@.len() && fields@[ti_vi.0 as int].1 == Value::Text(
            fields@[ti_vi.0 as int].1->Text_0,
        ) && fields@[ti_vi.0 as int].1->Text_0@ == tp.0 && fields@[ti_vi.1 as int].1 == tp.1,
{
    if fields.len() != 2 {
        return None;
    }
    let tag_lit = String::from_str("tag");
    let value_lit = String::from_str("value");
    if fields[0].0 == tag_lit && fields[1].0 == value_lit {
        match &fields[0].1 {
            Value::Text(_) => Some((0, 1)),
            _ => None,
        }
    } else if fields[0].0 == value_lit && fields[1].0 == tag_lit {
        match &fields[1].1 {
            Value::Text(_) => Some((1, 0)),
            _ => None,
        }
    } else {
        None
    }
}

/// Decides whether a sum payload is a unit.
fn value_is_unit(v: &Value) -> (r: bool)
    ensures
        r == is_unit_payload(*v),
{
    match v {
        Value::Tuple(items) => items.len() == 0,
        Value::Record(fs) => fs.len() == 0,
        _ => false,
    }
}

/// Renders one named value into tree lines: the executable form of
/// `spec_render_value`.
#[verifier::loop_isolation(false)]
#[verifier::rlimit(100)]
#[verifier::spinoff_prover]
pub fn render_value(
    name: &str,
    value: &Value,
    path: NodePath,
    expansion: &ExpansionState,
    diff: &DiffResult,
    depth: usize,
    terminal_width: usize,
    collapse_threshold: usize,
) -> (lines: Vec<TreeLine>)
    ensures
        lines_model(lines@) == spec_render_value(
            name@,
            *value,
            path.deep_view(),
            make_cx(*expansion, *diff, terminal_width as nat, collapse_threshold as nat),
            depth as nat,
        ),
    decreases *value, 0int, 0int, 0int,
{
    let ghost cx = make_cx(*expansion, *diff, terminal_width as nat, collapse_threshold as nat);
    let ghost pv = path.deep_view();
    let ind = indent_string(depth);
    let dk = diff.get(&path);
    let pre = name_prefix(name, dk);
    proof {
        assert(dk == (cx.dm)(pv));
    }
    let mut lines: Vec<TreeLine> = Vec::new();
    match value {
        Value::Bool(b) => {
            let mut t = ind;
            t.append(pre.as_str());
            t.append(if *b {
                "true"
            } else {
                "false"
            });
            push_line(&mut lines, path, t, false, dk);
            proof {
                assert(lines_model(lines@) =~= spec_render_value(name@, *value, pv, cx, depth as nat));
            }
        },
        Value::Number(n) => {
            let mut t = ind;
            t.append(pre.as_str());
            t.append(crate::text::i64_string(*n).as_str());
            push_line(&mut lines, path, t, false, dk);
            proof {
                assert(lines_model(lines@) =~= spec_render_value(name@, *value, pv, cx, depth as nat));
            }
        },
        Value::BigInt(d) => {
            let mut t = ind;
            t.append(pre.as_str());
            t.append(d.as_str());
            push_line(&mut lines, path, t, false, dk);
            proof {
                assert(lines_model(lines@) =~= spec_render_value(name@, *value, pv, cx, depth as nat));
            }
        },
        Value::Text(st) => {
            let mut t = ind;
            t.append(pre.as_str());
            t.append(crate::text::quote_string(st).as_str());
            push_line(&mut lines, path, t, false, dk);
            proof {
                assert(lines_model(lines@) =~= spec_render_value(name@, *value, pv, cx, depth as nat));
            }
        },
        Value::Unserializable(u) => {
            let mut t = ind;
            t.append(pre.as_str());
            t.append(u.as_str());
            push_line(&mut lines, path, t, false, dk);
            proof {
                assert(lines_model(lines@) =~= spec_render_value(name@, *value, pv, cx, depth as nat));
            }
        },
        Value::Record(fs) => {
            let thresholds = DisplayThresholds::new(terminal_width, depth);
            match detect_sum_type(fs) {
                Some((ti, vi)) => {
                    let ghost tp = sum_parts(fs@)->0;
                    let tag = match &fs[ti].1 {
                        Value::Text(t) => crate::value::clone_string(t),
                        _ => {
                            proof {
                                assert(false);
                            }
                            String::new()
                        },
                    };
                    let inner = &fs[vi].1;
                    if value_is_unit(inner) {
                        let mut t = ind;
                        t.append(pre.as_str());
                        t.append(tag.as_str());
                        push_line(&mut lines, path, t, false, dk);
                        proof {
                            assert(lines_model(lines@) =~= spec_render_value(
                                name@,
                                *value,
                                pv,
                                cx,
                                depth as nat,
                            ));
                        }
                    } else {
                        match crate::text::format_value_full(inner, thresholds.preview) {
                            Some(full) => {
                                let mut t = ind;
                                t.append(pre.as_str());
                                t.append(tag.as_str());
                                t.append("(");
                                t.append(full.as_str());
                                t.append(")");
                                push_line(&mut lines, path, t, false, dk);
                                proof {
                                    assert(lines_model(lines@) =~= spec_render_value(
                                        name@,
                                        *value,
                                        pv,
                                        cx,
                                        depth as nat,
                                    ));
                                }
                            },
                            None => {
                                let ex = expansion.is_expanded(&path);
                                let ipre = name_prefix_with_icon(expand_icon(ex), name, dk);
                                let mut t = crate::value::clone_string(&ind);
                                t.append(ipre.as_str());
                                t.append(tag.as_str());
                                t.append("(");
                                t.append(crate::text::format_value_short(inner).as_str());
                                t.append(")");
                                push_line(&mut lines, crate::value::clone_path(&path), t, true, dk);
                                if ex {
                                    let seg = String::from_str("value");
                                    let child_path = path_push(&path, &seg);
                                    let mut kids = render_value_children(
                                        inner,
                                        child_path,
                                        expansion,
                                        diff,
                                        bump_depth(depth, 1),
                                        terminal_width,
                                        collapse_threshold,
                                    );
                                    append_lines(&mut lines, &mut kids);
                                }
                                proof {
                                    assert(lines_model(lines@) =~= spec_render_value(
                                        name@,
                                        *value,
                                        pv,
                                        cx,
                                        depth as nat,
                                    ));
                                }
                            },
                        }
                    }
                },
                None => {
                    match crate::text::format_value_full(value, thresholds.inline) {
                        Some(full) => {
                            let mut t = ind;
                            t.append(pre.as_str());
                            t.append(full.as_str());
                            push_line(&mut lines, path, t, false, dk);
                            proof {
                                assert(lines_model(lines@) =~= spec_render_value(
                                    name@,
                                    *value,
                                    pv,
                                    cx,
                                    depth as nat,
                                ));
                            }
                        },
                        None => {
                            let ex = expansion.is_expanded(&path);
                            let ipre = name_prefix_with_icon(expand_icon(ex), name, dk);
                            if ex {
                                let mut t = crate::value::clone_string(&ind);
                                t.append(ipre.as_str());
                                t.append("{");
                                push_line(&mut lines, crate::value::clone_path(&path), t, true, dk);
                                let mut kids = render_fields_lines(
                                    fs,
                                    &path,
                                    expansion,
                                    diff,
                                    bump_depth(depth, 1),
                                    terminal_width,
                                    collapse_threshold,
                                );
                                append_lines(&mut lines, &mut kids);
                                let mut ct2 = ind;
                                ct2.append("}");
                                push_line(&mut lines, path, ct2, false, dk);
                                proof {
                                    assert(lines_model(lines@) =~= spec_render_value(
                                        name@,
                                        *value,
                                        pv,
                                        cx,
                                        depth as nat,
                                    ));
                                }
                            } else {
                                let mut t = ind;
                                t.append(ipre.as_str());
                                t.append("{");
                                t.append(usize_string(fs.len()).as_str());
                                t.append(" fields}");
                                push_line(&mut lines, path, t, true, dk);
                                proof {
                                    assert(lines_model(lines@) =~= spec_render_value(
                                        name@,
                                        *value,
                                        pv,
                                        cx,
                                        depth as nat,
                                    ));
                                }
                            }
                        },
                    }
                },
            }
        },
        Value::Mapping(ps) => {
            if ps.len() == 0 {
                let mut t = ind;
                t.append(pre.as_str());
                t.append("Map(empty)");
                push_line(&mut lines, path, t, false, dk);
                proof {
                    assert(lines_model(lines@) =~= spec_render_value(
                        name@,
                        *value,
                        pv,
                        cx,
                        depth as nat,
                    ));
                }
            } else {
                let ex = expansion.is_expanded(&path);
                let ipre = name_prefix_with_icon(expand_icon(ex), name, dk);
                if ex {
                    let mut t = crate::value::clone_string(&ind);
                    t.append(ipre.as_str());
                    t.append("Map(");
                    push_line(&mut lines, crate::value::clone_path(&path), t, true, dk);
                    let thresholds = DisplayThresholds::new(terminal_width, depth);
                    let entry_ind = indent_string(bump_depth(depth, 1));
                    let mut body = render_map_body(
                        ps,
                        &path,
                        expansion,
                        diff,
                        &entry_ind,
                        thresholds.key,
                        thresholds.value,
                        bump_depth(depth, 2),
                        terminal_width,
                        collapse_threshold,
                    );
                    append_lines(&mut lines, &mut body);
                    let mut ct2 = ind;
                    ct2.append(")");
                    push_line(&mut lines, path, ct2, false, dk);
                    proof {
                        assert(lines_model(lines@) =~= spec_render_value(
                            name@,
                            *value,
                            pv,
                            cx,
                            depth as nat,
                        ));
                    }
                } else {
                    let mut t = ind;
                    t.append(ipre.as_str());
                    t.append("Map(");
                    t.append(usize_string(ps.len()).as_str());
                    t.append(" entries)");
                    push_line(&mut lines, path, t, true, dk);
                    proof {
                        assert(lines_model(lines@) =~= spec_render_value(
                            name@,
                            *value,
                            pv,
                            cx,
                            depth as nat,
                        ));
                    }
                }
            }
        },
        Value::SetOf(items) => {
            proof {
                assert(decreases_to!(*value => items@));
            }
            lines = render_collection(
                items,
                "Set(",
                ")",
                "Set(",
                " items)",
                false,
                name,
                path,
                expansion,
                diff,
                depth,
                terminal_width,
                collapse_threshold,
            );
            proof {
                assert(lines_model(lines@) =~= spec_render_value(name@, *value, pv, cx, depth as nat));
            }
        },
        Value::List(items) => {
            proof {
                assert(decreases_to!(*value => items@));
            }
            lines = render_collection(
                items,
                "[",
                "]",
                "List(",
                " items)",
                true,
                name,
                path,
                expansion,
                diff,
                depth,
                terminal_width,
                collapse_threshold,
            );
            proof {
                assert(lines_model(lines@) =~= spec_render_value(name@, *value, pv, cx, depth as nat));
            }
        },
        Value::Tuple(items) => {
            proof {
                assert(decreases_to!(*value => items@));
            }
            lines = render_collection(
                items,
                "(",
                ")",
                "Tuple(",
                " items)",
                true,
                name,
                path,
                expansion,
                diff,
                depth,
                terminal_width,
                collapse_threshold,
            );
            proof {
                assert(lines_model(lines@) =~= spec_render_value(name@, *value, pv, cx, depth as nat));
            }
        },
    }
    lines
}

/// Renders a set, list or tuple: the executable form of
/// `spec_render_collection`.
#[verifier::loop_isolation(false)]
fn render_collection(
    items: &Vec<Value>,
    open_b: &str,
    close_b: &str,
    head_word: &str,
    items_word: &str,
    labeled: bool,
    name: &str,
    path: NodePath,
    expansion: &ExpansionState,
    diff: &DiffResult,
    depth: usize,
    terminal_width: usize,
    collapse_threshold: usize,
) -> (lines: Vec<TreeLine>)
    ensures
        lines_model(lines@) == spec_render_collection(
            items@,
            open_b@,
            close_b@,
            head_word@,
            items_word@,
            labeled,
            name@,
            path.deep_view(),
            make_cx(*expansion, *diff, terminal_width as nat, collapse_threshold as nat),
            depth as nat,
        ),
    decreases items@, 3int, 0int, 0int,
{
    let ghost cx = make_cx(*expansion, *diff, terminal_width as nat, collapse_threshold as nat);
    let ghost pv = path.deep_view();
    let ind = indent_string(depth);
    let dk = diff.get(&path);
    let pre = name_prefix(name, dk);
    proof {
        assert(dk == (cx.dm)(pv));
    }
    let thresholds = DisplayThresholds::new(terminal_width, depth);
    let mut lines: Vec<TreeLine> = Vec::new();
    let inline = if crate::text::values_all_simple(items) {
        crate::text::format_collection_inline(items, open_b, close_b, thresholds.inline)
    } else {
        None
    };
    match inline {
        Some(t0) => {
            let mut t = ind;
            t.append(pre.as_str());
            t.append(t0.as_str());
            push_line(&mut lines, path, t, false, dk);
            proof {
                assert(lines_model(lines@) =~= spec_render_collection(
                    items@,
                    open_b@,
                    close_b@,
                    head_word@,
                    items_word@,
                    labeled,
                    name@,
                    pv,
                    cx,
                    depth as nat,
                ));
            }
        },
        None => {
            let ex = expansion.is_expanded(&path);
            let ipre = name_prefix_with_icon(expand_icon(ex), name, dk);
            if ex {
                let mut t = crate::value::clone_string(&ind);
                t.append(ipre.as_str());
                t.append(open_b);
                push_line(&mut lines, crate::value::clone_path(&path), t, true, dk);
                let mut body = render_items_body(
                    items,
                    &path,
                    expansion,
                    diff,
                    bump_depth(depth, 1),
                    labeled,
                    terminal_width,
                    collapse_threshold,
                );
                append_lines(&mut lines, &mut body);
                let mut ct2 = ind;
                ct2.append(close_b);
                push_line(&mut lines, path, ct2, false, dk);
                proof {
                    assert(lines_model(lines@) =~= spec_render_collection(
                        items@,
                        open_b@,
                        close_b@,
                        head_word@,
                        items_word@,
                        labeled,
                        name@,
                        pv,
                        cx,
                        depth as nat,
                    ));
                }
            } else {
                let mut t = ind;
                t.append(ipre.as_str());
                t.append(head_word);
                t.append(usize_string(items.len()).as_str());
                t.append(items_word);
                push_line(&mut lines, path, t, true, dk);
                proof {
                    assert(lines_model(lines@) =~= spec_render_collection(
                        items@,
                        open_b@,
                        close_b@,
                        head_word@,
                        items_word@,
                        labeled,
                        name@,
                        pv,
                        cx,
                        depth as nat,
                    ));
                }
            }
        },
    }
    lines
}

/// Renders a record's fields: the executable form of `spec_render_fields`.
#[verifier::loop_isolation(false)]
fn render_fields_lines(
    fs: &Vec<(String, Value)>,
    path: &NodePath,
    expansion: &ExpansionState,
    diff: &DiffResult,
    depth: usize,
    terminal_width: usize,
    collapse_threshold: usize,
) -> (lines: Vec<TreeLine>)
    ensures
        lines_model(lines@) == spec_render_fields(
            fs@,
            path.deep_view(),
            make_cx(*expansion, *diff, terminal_width as nat, collapse_threshold as nat),
            depth as nat,
            0,
        ),
    decreases fs@, 2int, 0int, 0int,
{
    let ghost cx = make_cx(*expansion, *diff, terminal_width as nat, collapse_threshold as nat);
    let ghost pv = path.deep_view();
    let mut lines: Vec<TreeLine> = Vec::new();
    let mut i: usize = 0;
    while i < fs.len()
        invariant
            i <= fs@.len(),
            lines_model(lines@) + spec_render_fields(fs@, pv, cx, depth as nat, i as int)
                =~= spec_render_fields(fs@, pv, cx, depth as nat, 0),
        decreases fs@.len() - i,
    {
        let child_path = path_push(path, &fs[i].0);
        proof {
            assert(decreases_to!(fs@ => fs@[i as int]));
            assert(decreases_to!(fs@[i as int] => fs@[i as int].1));
        }
        let mut kid = render_value(
            fs[i].0.as_str(),
            &fs[i].1,
            child_path,
            expansion,
            diff,
            depth,
            terminal_width,
            collapse_threshold,
        );
        append_lines(&mut lines, &mut kid);
        proof {
            assert(lines_model(lines@) + spec_render_fields(fs@, pv, cx, depth as nat, i + 1)
                =~= spec_render_fields(fs@, pv, cx, depth as nat, 0));
        }
        i += 1;
    }
    lines
}

/// Renders the grouped body of an item collection: the executable form of
/// `spec_render_items_groups`.
#[verifier::loop_isolation(false)]
fn render_items_body(
    items: &Vec<Value>,
    path: &NodePath,
    expansion: &ExpansionState,
    diff: &DiffResult,
    depth: usize,
    labeled: bool,
    terminal_width: usize,
    collapse_threshold: usize,
) -> (lines: Vec<TreeLine>)
    ensures
        lines_model(lines@) == spec_render_items_groups(
            items@,
            path.deep_view(),
            make_cx(*expansion, *diff, terminal_width as nat, collapse_threshold as nat),
            depth as nat,
            labeled,
            spec_runs(
                changed_flags(items@.len(), path.deep_view(), |q: Seq<Seq<char>>| diff.kind_of(q)),
                collapse_threshold as nat,
            ),
            0,
        ),
    decreases items@, 2int, 0int, 0int,
{
    let ghost cx = make_cx(*expansion, *diff, terminal_width as nat, collapse_threshold as nat);
    let ghost pv = path.deep_view();
    let flags = collection_flags(items.len(), path, diff);
    let groups = group_runs(&flags, collapse_threshold);
    let ghost gm = groups_model(groups@);
    proof {
        lemma_groups_cover_all(flags@, collapse_threshold as nat);
    }
    let mut lines: Vec<TreeLine> = Vec::new();
    let mut gi: usize = 0;
    while gi < groups.len()
        invariant
            gi <= groups@.len(),
            lines_model(lines@) + spec_render_items_groups(
                items@,
                pv,
                cx,
                depth as nat,
                labeled,
                gm,
                gi as int,
            ) =~= spec_render_items_groups(items@, pv, cx, depth as nat, labeled, gm, 0),
        decreases groups@.len() - gi,
    {
        let g = groups[gi];
        proof {
            assert(gm[gi as int] == (g.0 as int, g.1 as int, g.2));
            assert(gm[gi as int].0 < gm[gi as int].1 <= flags@.len());
        }
        let ghost before = lines_model(lines@);
        if g.2 {
            let seg = group_segment_string(g.0, g.1);
            let gpath = path_push(path, &seg);
            let gex = expansion.is_expanded(&gpath);
            let mut t = indent_string(depth);
            t.append(expand_icon(gex));
            t.append(" ");
            t.append(usize_string(g.1 - g.0).as_str());
            t.append(" unchanged");
            push_line(&mut lines, gpath, t, true, DiffKind::Unchanged);
            if gex {
                render_items_range(
                    &mut lines,
                    items,
                    path,
                    expansion,
                    diff,
                    depth,
                    labeled,
                    terminal_width,
                    collapse_threshold,
                    g.0,
                    g.1,
                );
            }
        } else {
            render_items_range(
                &mut lines,
                items,
                path,
                expansion,
                diff,
                depth,
                labeled,
                terminal_width,
                collapse_threshold,
                g.0,
                g.1,
            );
        }
        proof {
            assert(lines_model(lines@) + spec_render_items_groups(
                items@,
                pv,
                cx,
                depth as nat,
                labeled,
                gm,
                gi + 1,
            ) =~= spec_render_items_groups(items@, pv, cx, depth as nat, labeled, gm, 0));
        }
        gi += 1;
    }
    lines
}

/// Appends the lines of the items at indices `s` to `e`.
#[verifier::loop_isolation(false)]
fn render_items_range(
    lines: &mut Vec<TreeLine>,
    items: &Vec<Value>,
    path: &NodePath,
    expansion: &ExpansionState,
    diff: &DiffResult,
    depth: usize,
    labeled: bool,
    terminal_width: usize,
    collapse_threshold: usize,
    s: usize,
    e: usize,
)
    requires
        s < e <= items@.len(),
    ensures
        lines_model(final(lines)@) == lines_model(old(lines)@) + spec_render_items_range(
            items@,
            path.deep_view(),
            make_cx(*expansion, *diff, terminal_width as nat, collapse_threshold as nat),
            depth as nat,
            labeled,
            s as int,
            e as int,
        ),
    decreases items@, 1int, 0int, 0int,
{
    let ghost cx = make_cx(*expansion, *diff, terminal_width as nat, collapse_threshold as nat);
    let ghost pv = path.deep_view();
    let mut idx: usize = s;
    while idx < e
        invariant
            s <= idx <= e,
            lines_model(lines@) + spec_render_items_range(
                items@,
                pv,
                cx,
                depth as nat,
                labeled,
                idx as int,
                e as int,
            ) =~= lines_model(old(lines)@) + spec_render_items_range(
                items@,
                pv,
                cx,
                depth as nat,
                labeled,
                s as int,
                e as int,
            ),
        decreases e - idx,
    {
        let label = if labeled {
            let mut l = String::from_str("[");
            l.append(usize_string(idx).as_str());
            l.append("]");
            proof {
                assert(l@ =~= ("[")@ + dec_digits(idx as nat) + ("]")@);
            }
            l
        } else {
            let l = String::new();
            l
        };
        let seg = usize_string(idx);
        let child_path = path_push(path, &seg);
        proof {
            assert(decreases_to!(items@ => items@[idx as int]));
        }
        let mut kid = render_value(
            label.as_str(),
            &items[idx],
            child_path,
            expansion,
            diff,
            depth,
            terminal_width,
            collapse_threshold,
        );
        append_lines(lines, &mut kid);
        proof {
            assert(lines_model(lines@) + spec_render_items_range(
                items@,
                pv,
                cx,
                depth as nat,
                labeled,
                idx + 1,
                e as int,
            ) =~= lines_model(old(lines)@) + spec_render_items_range(
                items@,
                pv,
                cx,
                depth as nat,
                labeled,
                s as int,
                e as int,
            ));
        }
        idx += 1;
    }
}

/// Renders the grouped body of a mapping: the executable form of
/// `spec_render_map_groups`.
#[verifier::loop_isolation(false)]
fn render_map_body(
    pairs: &Vec<(Value, Value)>,
    path: &NodePath,
    expansion: &ExpansionState,
    diff: &DiffResult,
    entry_ind: &String,
    kb: usize,
    vb: usize,
    child_depth: usize,
    terminal_width: usize,
    collapse_threshold: usize,
) -> (lines: Vec<TreeLine>)
    ensures
        lines_model(lines@) == spec_render_map_groups(
            pairs@,
            path.deep_view(),
            make_cx(*expansion, *diff, terminal_width as nat, collapse_threshold as nat),
            entry_ind@,
            kb as nat,
            vb as nat,
            child_depth as nat,
            spec_runs(
                changed_flags(pairs@.len(), path.deep_view(), |q: Seq<Seq<char>>| diff.kind_of(q)),
                collapse_threshold as nat,
            ),
            0,
        ),
    decreases pairs@, 2int, 0int, 0int,
{
    let ghost cx = make_cx(*expansion, *diff, terminal_width as nat, collapse_threshold as nat);
    let ghost pv = path.deep_view();
    let flags = collection_flags(pairs.len(), path, diff);
    let groups = group_runs(&flags, collapse_threshold);
    let ghost gm = groups_model(groups@);
    proof {
        lemma_groups_cover_all(flags@, collapse_threshold as nat);
    }
    let mut lines: Vec<TreeLine> = Vec::new();
    let mut gi: usize = 0;
    while gi < groups.len()
        invariant
            gi <= groups@.len(),
            lines_model(lines@) + spec_render_map_groups(
                pairs@,
                pv,
                cx,
                entry_ind@,
                kb as nat,
                vb as nat,
                child_depth as nat,
                gm,
                gi as int,
            ) =~= spec_render_map_groups(
                pairs@,
                pv,
                cx,
                entry_ind@,
                kb as nat,
                vb as nat,
                child_depth as nat,
                gm,
                0,
            ),
        decreases groups@.len() - gi,
    {
        let g = groups[gi];
        proof {
            assert(gm[gi as int] == (g.0 as int, g.1 as int, g.2));
            assert(gm[gi as int].0 < gm[gi as int].1 <= flags@.len());
        }
        if g.2 {
            let seg = group_segment_string(g.0, g.1);
            let gpath = path_push(path, &seg);
            let gex = expansion.is_expanded(&gpath);
            let mut t = crate::value::clone_string(entry_ind);
            t.append(expand_icon(gex));
            t.append(" ");
            t.append(usize_string(g.1 - g.0).as_str());
            t.append(" unchanged");
            push_line(&mut lines, gpath, t, true, DiffKind::Unchanged);
            if gex {
                render_map_range(
                    &mut lines,
                    pairs,
                    path,
                    expansion,
                    diff,
                    entry_ind,
                    kb,
                    vb,
                    child_depth,
                    terminal_width,
                    collapse_threshold,
                    g.0,
                    g.1,
                );
            }
        } else {
            render_map_range(
                &mut lines,
                pairs,
                path,
                expansion,
                diff,
                entry_ind,
                kb,
                vb,
                child_depth,
                terminal_width,
                collapse_threshold,
                g.0,
                g.1,
            );
        }
        proof {
            assert(lines_model(lines@) + spec_render_map_groups(
                pairs@,
                pv,
                cx,
                entry_ind@,
                kb as nat,
                vb as nat,
                child_depth as nat,
                gm,
                gi + 1,
            ) =~= spec_render_map_groups(
                pairs@,
                pv,
                cx,
                entry_ind@,
                kb as nat,
                vb as nat,
                child_depth as nat,
                gm,
                0,
            ));
        }
        gi += 1;
    }
    lines
}

/// Appends the lines of the mapping entries at indices `s` to `e`.
#[verifier::loop_isolation(false)]
fn render_map_range(
    lines: &mut Vec<TreeLine>,
    pairs: &Vec<(Value, Value)>,
    path: &NodePath,
    expansion: &ExpansionState,
    diff: &DiffResult,
    entry_ind: &String,
    kb: usize,
    vb: usize,
    child_depth: usize,
    terminal_width: usize,
    collapse_threshold: usize,
    s: usize,
    e: usize,
)
    requires
        s < e <= pairs@.len(),
    ensures
        lines_model(final(lines)@) == lines_model(old(lines)@) + spec_render_map_range(
            pairs@,
            path.deep_view(),
            make_cx(*expansion, *diff, terminal_width as nat, collapse_threshold as nat),
            entry_ind@,
            kb as nat,
            vb as nat,
            child_depth as nat,
            s as int,
            e as int,
        ),
    decreases pairs@, 1int, 0int, 0int,
{
    let ghost cx = make_cx(*expansion, *diff, terminal_width as nat, collapse_threshold as nat);
    let ghost pv = path.deep_view();
    let mut idx: usize = s;
    while idx < e
        invariant
            s <= idx <= e,
            lines_model(lines@) + spec_render_map_range(
                pairs@,
                pv,
                cx,
                entry_ind@,
                kb as nat,
                vb as nat,
                child_depth as nat,
                idx as int,
                e as int,
            ) =~= lines_model(old(lines)@) + spec_render_map_range(
                pairs@,
                pv,
                cx,
                entry_ind@,
                kb as nat,
                vb as nat,
                child_depth as nat,
                s as int,
                e as int,
            ),
        decreases e - idx,
    {
        let seg = usize_string(idx);
        let child_path = path_push(path, &seg);
        let cd = diff.get(&child_path);
        proof {
            assert(cd == (cx.dm)(pv.push(dec_digits(idx as nat))));
        }
        let key_str = match crate::text::format_value_full(&pairs[idx].0, kb) {
            Some(k) => k,
            None => crate::text::format_value_short(&pairs[idx].0),
        };
        match crate::text::format_value_full(&pairs[idx].1, vb) {
            Some(fv) => {
                let mut t = crate::value::clone_string(entry_ind);
                t.append(diff_marker(cd));
                t.append(key_str.as_str());
                t.append(" -> ");
                t.append(fv.as_str());
                push_line(lines, child_path, t, false, cd);
                proof {
                    assert(lines_model(lines@) + spec_render_map_range(
                        pairs@,
                        pv,
                        cx,
                        entry_ind@,
                        kb as nat,
                        vb as nat,
                        child_depth as nat,
                        idx + 1,
                        e as int,
                    ) =~= lines_model(old(lines)@) + spec_render_map_range(
                        pairs@,
                        pv,
                        cx,
                        entry_ind@,
                        kb as nat,
                        vb as nat,
                        child_depth as nat,
                        s as int,
                        e as int,
                    ));
                }
            },
            None => {
                let ex = expansion.is_expanded(&child_path);
                let mut t = crate::value::clone_string(entry_ind);
                t.append(diff_marker(cd));
                t.append(expand_icon(ex));
                t.append(" ");
                t.append(key_str.as_str());
                t.append(" -> ");
                t.append(crate::text::format_value_short(&pairs[idx].1).as_str());
                push_line(lines, crate::value::clone_path(&child_path), t, true, cd);
                if ex {
                    proof {
                        assert(decreases_to!(pairs@ => pairs@[idx as int]));
                        assert(decreases_to!(pairs@[idx as int] => pairs@[idx as int].1));
                    }
                    let mut kids = render_value_children(
                        &pairs[idx].1,
                        child_path,
                        expansion,
                        diff,
                        child_depth,
                        terminal_width,
                        collapse_threshold,
                    );
                    append_lines(lines, &mut kids);
                }
                proof {
                    assert(lines_model(lines@) + spec_render_map_range(
                        pairs@,
                        pv,
                        cx,
                        entry_ind@,
                        kb as nat,
                        vb as nat,
                        child_depth as nat,
                        idx + 1,
                        e as int,
                    ) =~= lines_model(old(lines)@) + spec_render_map_range(
                        pairs@,
                        pv,
                        cx,
                        entry_ind@,
                        kb as nat,
                        vb as nat,
                        child_depth as nat,
                        s as int,
                        e as int,
                    ));
                }
            },
        }
        idx += 1;
    }
}

/// Renders a value's children alone, with no header line: the executable
/// form of `spec_render_children`.
#[verifier::loop_isolation(false)]
pub fn render_value_children(
    value: &Value,
    path: NodePath,
    expansion: &ExpansionState,
    diff: &DiffResult,
    depth: usize,
    terminal_width: usize,
    collapse_threshold: usize,
) -> (lines: Vec<TreeLine>)
    ensures
        lines_model(lines@) == spec_render_children(
            *value,
            path.deep_view(),
            make_cx(*expansion, *diff, terminal_width as nat, collapse_threshold as nat),
            depth as nat,
        ),
    decreases *value, 3int, 0int, 0int,
{
    let ghost cx = make_cx(*expansion, *diff, terminal_width as nat, collapse_threshold as nat);
    let ghost pv = path.deep_view();
    match value {
        Value::Record(fs) => {
            proof {
                assert(decreases_to!(*value => fs@));
            }
            let lines = render_fields_lines(
                fs,
                &path,
                expansion,
                diff,
                depth,
                terminal_width,
                collapse_threshold,
            );
            lines
        },
        Value::SetOf(items) => {
            proof {
                assert(decreases_to!(*value => items@));
            }
            render_items_body(
                items,
                &path,
                expansion,
                diff,
                depth,
                false,
                terminal_width,
                collapse_threshold,
            )
        },
        Value::List(items) => {
            proof {
                assert(decreases_to!(*value => items@));
            }
            render_items_body(
                items,
                &path,
                expansion,
                diff,
                depth,
                true,
                terminal_width,
                collapse_threshold,
            )
        },
        Value::Tuple(items) => {
            proof {
                assert(decreases_to!(*value => items@));
            }
            render_items_body(
                items,
                &path,
                expansion,
                diff,
                depth,
                true,
                terminal_width,
                collapse_threshold,
            )
        },
        Value::Mapping(ps) => {
            proof {
                assert(decreases_to!(*value => ps@));
            }
            let thresholds = DisplayThresholds::new(terminal_width, depth);
            let entry_ind = indent_string(depth);
            render_map_body(
                ps,
                &path,
                expansion,
                diff,
                &entry_ind,
                thresholds.key,
                thresholds.value,
                bump_depth(depth, 1),
                terminal_width,
                collapse_threshold,
            )
        },
        _ => {
            let lines: Vec<TreeLine> = Vec::new();
            proof {
                assert(lines_model(lines@) =~= spec_render_children(*value, pv, cx, depth as nat));
            }
            lines
        },
    }
}

/// The lines of a whole snapshot: each variable rendered at depth zero
/// under its one-segment path, in snapshot order.
pub open spec fn spec_render_state_from(
    values: Seq<(String, Value)>,
    cx: RenderCx,
    i: int,
) -> Seq<LineM>
    decreases values, 0int, values.len() - i, 0int,
{
    if i < 0 || i >= values.len() {
        Seq::empty()
    } else {
        spec_render_value(values[i].0@, values[i].1, seq![values[i].0@], cx, 0)
            + spec_render_state_from(values, cx, i + 1)
    }
}

/// The full rendering of a snapshot.
pub open spec fn spec_render_state(values: Seq<(String, Value)>, cx: RenderCx) -> Seq<LineM> {
    spec_render_state_from(values, cx, 0)
}

/// Renders a whole snapshot into tree lines.
#[verifier::loop_isolation(false)]
pub fn render_state(
    values: &Vec<(String, Value)>,
    expansion: &ExpansionState,
    diff: &DiffResult,
    terminal_width: usize,
    collapse_threshold: usize,
) -> (lines: Vec<TreeLine>)
    ensures
        lines_model(lines@) == spec_render_state(
            values@,
            make_cx(*expansion, *diff, terminal_width as nat, collapse_threshold as nat),
        ),
{
    let ghost cx = make_cx(*expansion, *diff, terminal_width as nat, collapse_threshold as nat);
    let mut lines: Vec<TreeLine> = Vec::new();
    let mut i: usize = 0;
    while i < values.len()
        invariant
            i <= values@.len(),
            lines_model(lines@) + spec_render_state_from(values@, cx, i as int)
                =~= spec_render_state(values@, cx),
        decreases values@.len() - i,
    {
        let mut p: NodePath = Vec::new();
        p.push(clone_string(&values[i].0));
        proof {
            assert(p.deep_view() =~= seq![values@[i as int].0@]);
        }
        let mut var_lines = render_value(
            values[i].0.as_str(),
            &values[i].1,
            p,
            expansion,
            diff,
            0,
            terminal_width,
            collapse_threshold,
        );
        append_lines(&mut lines, &mut var_lines);
        proof {
            assert(lines_model(lines@) + spec_render_state_from(values@, cx, i + 1)
                =~= spec_render_state(values@, cx));
        }
        i += 1;
    }
    lines
}

} // verus!
