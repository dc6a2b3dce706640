use trace_explorer::diff::{compute_diff, DiffKind, DiffResult};
use trace_explorer::expansion::ExpansionState;
use trace_explorer::render::{render_state, render_value, TreeLine};
use trace_explorer::value::Value;

fn num(n: i64) -> Value {
    Value::Number(n)
}

fn var(name: &str, v: Value) -> (String, Value) {
    (name.to_string(), v)
}

fn path(segs: &[&str]) -> Vec<String> {
    segs.iter().map(|s| s.to_string()).collect()
}

fn text_of(line: &TreeLine) -> String {
    let mut t = String::new();
    for s in line.spans.iter() {
        t.push_str(&s.text);
    }
    t
}

fn no_diff() -> DiffResult {
    DiffResult { changes: Vec::new() }
}

#[test]
fn atoms_render_on_one_line() {
    let es = ExpansionState::new();
    let d = no_diff();
    let lines = render_value("n", &num(42), path(&["n"]), &es, &d, 0, 80, 3);
    assert_eq!(lines.len(), 1);
    assert_eq!(text_of(&lines[0]), "n: 42");
    assert!(!lines[0].expandable);
    assert_eq!(lines[0].diff, DiffKind::Unchanged);

    let lines = render_value("b", &Value::Bool(false), path(&["b"]), &es, &d, 0, 80, 3);
    assert_eq!(text_of(&lines[0]), "b: false");
    let lines = render_value("t", &Value::Text("hi".to_string()), path(&["t"]), &es, &d, 0, 80, 3);
    assert_eq!(text_of(&lines[0]), "t: \"hi\"");
    let lines = render_value("g", &Value::BigInt("99".to_string()), path(&["g"]), &es, &d, 1, 80, 3);
    assert_eq!(text_of(&lines[0]), "  g: 99");
}

#[test]
fn added_nodes_carry_a_plus_marker() {
    let es = ExpansionState::new();
    let d = DiffResult { changes: vec![(path(&["n"]), DiffKind::Added)] };
    let lines = render_value("n", &num(42), path(&["n"]), &es, &d, 0, 80, 3);
    assert_eq!(text_of(&lines[0]), "+ n: 42");
    assert_eq!(lines[0].diff, DiffKind::Added);
}

#[test]
fn small_record_renders_inline() {
    let es = ExpansionState::new();
    let d = no_diff();
    let rec = Value::Record(vec![var("a", num(1))]);
    let lines = render_value("r", &rec, path(&["r"]), &es, &d, 0, 80, 3);
    assert_eq!(lines.len(), 1);
    assert_eq!(text_of(&lines[0]), "r: {a: 1}");
    assert!(!lines[0].expandable);
}

#[test]
fn wide_record_collapses_to_field_count_and_expands_per_field() {
    let mut es = ExpansionState::new();
    let d = no_diff();
    let rec = Value::Record(vec![var("alpha", num(1234567890)), var("beta", num(2))]);
    let lines = render_value("r", &rec, path(&["r"]), &es, &d, 0, 10, 3);
    assert_eq!(lines.len(), 1);
    assert_eq!(text_of(&lines[0]), "> r: {2 fields}");
    assert!(lines[0].expandable);

    es.toggle(&path(&["r"]));
    let lines = render_value("r", &rec, path(&["r"]), &es, &d, 0, 10, 3);
    assert_eq!(lines.len(), 4);
    assert_eq!(text_of(&lines[0]), "v r: {");
    assert_eq!(text_of(&lines[1]), "  alpha: 1234567890");
    assert_eq!(text_of(&lines[2]), "  beta: 2");
    assert_eq!(text_of(&lines[3]), "}");
    assert_eq!(lines[1].path, path(&["r", "alpha"]));
}

#[test]
fn sum_type_with_small_payload_renders_inline() {
    let es = ExpansionState::new();
    let d = no_diff();
    let v = Value::Record(vec![
        var("tag", Value::Text("Some".to_string())),
        var("value", Value::BigInt("40".to_string())),
    ]);
    let lines = render_value("v", &v, path(&["v"]), &es, &d, 0, 80, 3);
    assert_eq!(lines.len(), 1);
    assert_eq!(text_of(&lines[0]), "v: Some(40)");
    assert!(!lines[0].expandable);
}

#[test]
fn sum_type_with_unit_payload_renders_bare_tag() {
    let es = ExpansionState::new();
    let d = no_diff();
    let v = Value::Record(vec![
        var("tag", Value::Text("None".to_string())),
        var("value", Value::Tuple(vec![])),
    ]);
    let lines = render_value("v", &v, path(&["v"]), &es, &d, 0, 80, 3);
    assert_eq!(lines.len(), 1);
    assert_eq!(text_of(&lines[0]), "v: None");
    assert!(!lines[0].expandable);
}

#[test]
fn sum_type_with_wide_payload_expands_to_payload_children() {
    let mut es = ExpansionState::new();
    let d = no_diff();
    let payload = Value::Record(vec![var("alpha", num(1234567890)), var("beta", num(2))]);
    let v = Value::Record(vec![
        var("tag", Value::Text("Wrap".to_string())),
        var("value", payload),
    ]);
    let lines = render_value("v", &v, path(&["v"]), &es, &d, 0, 10, 3);
    assert_eq!(lines.len(), 1);
    assert!(lines[0].expandable);
    assert_eq!(text_of(&lines[0]), "> v: Wrap({...})");

    es.toggle(&path(&["v"]));
    let lines = render_value("v", &v, path(&["v"]), &es, &d, 0, 10, 3);
    assert_eq!(lines.len(), 3);
    assert_eq!(text_of(&lines[1]), "  alpha: 1234567890");
    assert_eq!(lines[1].path, path(&["v", "value", "alpha"]));
    assert_eq!(text_of(&lines[2]), "  beta: 2");
}

#[test]
fn empty_mapping_is_one_plain_line() {
    let es = ExpansionState::new();
    let d = no_diff();
    let lines = render_value("m", &Value::Mapping(vec![]), path(&["m"]), &es, &d, 0, 80, 3);
    assert_eq!(lines.len(), 1);
    assert_eq!(text_of(&lines[0]), "m: Map(empty)");
    assert!(!lines[0].expandable);
}

#[test]
fn mapping_header_and_entries() {
    let mut es = ExpansionState::new();
    let d = no_diff();
    let m = Value::Mapping(vec![(num(1), num(2))]);
    let lines = render_value("m", &m, path(&["m"]), &es, &d, 0, 80, 3);
    assert_eq!(lines.len(), 1);
    assert_eq!(text_of(&lines[0]), "> m: Map(1 entries)");
    assert!(lines[0].expandable);

    es.toggle(&path(&["m"]));
    let lines = render_value("m", &m, path(&["m"]), &es, &d, 0, 80, 3);
    assert_eq!(lines.len(), 3);
    assert_eq!(text_of(&lines[0]), "v m: Map(");
    assert_eq!(text_of(&lines[1]), "  1 -> 2");
    assert_eq!(lines[1].path, path(&["m", "0"]));
    assert!(!lines[1].expandable);
    assert_eq!(text_of(&lines[2]), ")");
}

#[test]
fn atomic_collections_render_inline_when_they_fit() {
    let es = ExpansionState::new();
    let d = no_diff();
    let s = Value::SetOf(vec![num(1), num(2)]);
    let lines = render_value("s", &s, path(&["s"]), &es, &d, 0, 80, 3);
    assert_eq!(text_of(&lines[0]), "s: Set(1, 2)");
    let l = Value::List(vec![num(1), num(2)]);
    let lines = render_value("l", &l, path(&["l"]), &es, &d, 0, 80, 3);
    assert_eq!(text_of(&lines[0]), "l: [1, 2]");
    let t = Value::Tuple(vec![num(1), num(2)]);
    let lines = render_value("t", &t, path(&["t"]), &es, &d, 0, 80, 3);
    assert_eq!(text_of(&lines[0]), "t: (1, 2)");
}

#[test]
fn expanded_list_labels_items_by_index() {
    let mut es = ExpansionState::new();
    let d = no_diff();
    let l = Value::List(vec![num(100), num(200), num(300), num(400)]);
    es.toggle(&path(&["l"]));
    let lines = render_value("l", &l, path(&["l"]), &es, &d, 0, 10, 3);
    assert_eq!(lines.len(), 6);
    assert_eq!(text_of(&lines[0]), "v l: [");
    assert_eq!(text_of(&lines[1]), "  [0]: 100");
    assert_eq!(text_of(&lines[4]), "  [3]: 400");
    assert_eq!(text_of(&lines[5]), "]");
    assert_eq!(lines[1].path, path(&["l", "0"]));
}

#[test]
fn unchanged_run_collapses_beside_a_change() {
    let mut es = ExpansionState::new();
    let prev = vec![var(
        "s",
        Value::SetOf((1..=8).map(num).collect()),
    )];
    let curr = {
        let mut items = vec![num(9)];
        items.extend((1..=7).map(num));
        vec![var("s", Value::SetOf(items))]
    };
    let d = compute_diff(&prev, &curr);
    assert_eq!(d.get(&path(&["s", "0"])), DiffKind::Added);
    es.auto_expand(&path(&["s"]));
    let lines = render_value("s", &curr[0].1, path(&["s"]), &es, &d, 0, 10, 3);
    assert_eq!(lines.len(), 4);
    assert_eq!(text_of(&lines[0]), "v s: Set(");
    assert_eq!(text_of(&lines[1]), "  + 9");
    assert_eq!(text_of(&lines[2]), "  > 7 unchanged");
    assert_eq!(lines[2].path, path(&["s", "__collapsed_1_8"]));
    assert!(lines[2].expandable);
    assert_eq!(text_of(&lines[3]), ")");

    es.toggle(&path(&["s", "__collapsed_1_8"]));
    let lines = render_value("s", &curr[0].1, path(&["s"]), &es, &d, 0, 10, 3);
    assert_eq!(lines.len(), 11);
    assert_eq!(text_of(&lines[2]), "  v 7 unchanged");
    assert_eq!(text_of(&lines[3]), "  1");
    assert_eq!(text_of(&lines[9]), "  7");
}

#[test]
fn no_collapsing_when_nothing_changed() {
    let mut es = ExpansionState::new();
    let d = no_diff();
    let mut items = vec![num(9)];
    items.extend((1..=7).map(num));
    let s = Value::SetOf(items);
    es.auto_expand(&path(&["s"]));
    let lines = render_value("s", &s, path(&["s"]), &es, &d, 0, 10, 3);
    assert_eq!(lines.len(), 10);
    for line in lines.iter() {
        assert!(!text_of(line).contains("unchanged"));
    }
}

#[test]
fn unserializable_renders_its_stored_form() {
    let es = ExpansionState::new();
    let d = no_diff();
    let u = Value::Unserializable("Int".to_string());
    let lines = render_value("u", &u, path(&["u"]), &es, &d, 0, 80, 3);
    assert_eq!(text_of(&lines[0]), "u: Int");
    assert!(!lines[0].expandable);
}

#[test]
fn state_rendering_walks_variables_in_order() {
    let es = ExpansionState::new();
    let d = no_diff();
    let values = vec![var("b", num(2)), var("a", num(1))];
    let lines = render_state(&values, &es, &d, 80, 3);
    assert_eq!(lines.len(), 2);
    assert_eq!(text_of(&lines[0]), "b: 2");
    assert_eq!(text_of(&lines[1]), "a: 1");
    assert_eq!(lines[0].path, path(&["b"]));
}
