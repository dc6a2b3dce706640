use trace_explorer::diff::{compute_diff, diff_states, DiffKind, DiffResult};
use trace_explorer::value::{values_equal, State, Trace, Value};

fn num(n: i64) -> Value {
    Value::Number(n)
}

fn var(name: &str, v: Value) -> (String, Value) {
    (name.to_string(), v)
}

fn path(segs: &[&str]) -> Vec<String> {
    segs.iter().map(|s| s.to_string()).collect()
}

#[test]
fn identical_states_yield_empty_diff() {
    let s = vec![
        var("x", num(1)),
        var("y", Value::Text("a".to_string())),
        var("z", Value::SetOf(vec![num(1), num(2)])),
    ];
    let d = compute_diff(&s, &s);
    assert_eq!(d.changes.len(), 0);
    assert_eq!(d.get(&path(&["x"])), DiffKind::Unchanged);
    assert_eq!(d.get(&path(&["z"])), DiffKind::Unchanged);
}

#[test]
fn record_field_change_marks_parent_and_field() {
    let prev = vec![var(
        "x",
        Value::Record(vec![var("a", num(1)), var("b", num(2))]),
    )];
    let curr = vec![var(
        "x",
        Value::Record(vec![var("a", num(1)), var("b", num(3))]),
    )];
    let d = compute_diff(&prev, &curr);
    assert_eq!(d.get(&path(&["x"])), DiffKind::Modified);
    assert_eq!(d.get(&path(&["x", "b"])), DiffKind::Modified);
    assert_eq!(d.get(&path(&["x", "a"])), DiffKind::Unchanged);
    assert_eq!(d.changes.len(), 2);
}

fn key(name: &str) -> Value {
    Value::Text(name.to_string())
}

#[test]
fn map_entry_added_at_current_index() {
    let prev = vec![var("m", Value::Mapping(vec![(key("k1"), num(1))]))];
    let curr = vec![var(
        "m",
        Value::Mapping(vec![(key("k1"), num(1)), (key("k2"), num(2))]),
    )];
    let d = compute_diff(&prev, &curr);
    assert_eq!(d.get(&path(&["m", "1"])), DiffKind::Added);
    assert_eq!(d.get(&path(&["m", "0"])), DiffKind::Unchanged);
    assert_eq!(d.get(&path(&["m"])), DiffKind::Modified);
}

#[test]
fn map_value_change_recurses_by_key() {
    let prev = vec![var("m", Value::Mapping(vec![(key("k1"), num(1))]))];
    let curr = vec![var("m", Value::Mapping(vec![(key("k1"), num(5))]))];
    let d = compute_diff(&prev, &curr);
    assert_eq!(d.get(&path(&["m"])), DiffKind::Modified);
    assert_eq!(d.get(&path(&["m", "0"])), DiffKind::Modified);
}

#[test]
fn map_with_equal_keys_matches_first_binding() {
    let prev = vec![var("m", Value::Mapping(vec![(key("k1"), num(1))]))];
    let curr = vec![var(
        "m",
        Value::Mapping(vec![(key("k1"), num(1)), (key("k1"), num(2))]),
    )];
    let d = compute_diff(&prev, &curr);
    assert_eq!(d.get(&path(&["m", "0"])), DiffKind::Unchanged);
    assert_eq!(d.get(&path(&["m", "1"])), DiffKind::Modified);
}

#[test]
fn set_element_added_at_current_index() {
    let prev = vec![var("s", Value::SetOf(vec![num(1), num(2)]))];
    let curr = vec![var("s", Value::SetOf(vec![num(1), num(2), num(3)]))];
    let d = compute_diff(&prev, &curr);
    assert_eq!(d.get(&path(&["s", "2"])), DiffKind::Added);
    assert_eq!(d.get(&path(&["s", "0"])), DiffKind::Unchanged);
    assert_eq!(d.get(&path(&["s", "1"])), DiffKind::Unchanged);
    assert_eq!(d.get(&path(&["s"])), DiffKind::Modified);
}

#[test]
fn variables_added_and_removed_at_top_level() {
    let prev = vec![var("gone", num(1)), var("stays", num(2))];
    let curr = vec![var("stays", num(2)), var("fresh", num(3))];
    let d = compute_diff(&prev, &curr);
    assert_eq!(d.get(&path(&["gone"])), DiffKind::Removed);
    assert_eq!(d.get(&path(&["fresh"])), DiffKind::Added);
    assert_eq!(d.get(&path(&["stays"])), DiffKind::Unchanged);
}

#[test]
fn type_change_is_atomic_modification() {
    let prev = vec![var("x", num(1))];
    let curr = vec![var("x", Value::Text("1".to_string()))];
    let d = compute_diff(&prev, &curr);
    assert_eq!(d.get(&path(&["x"])), DiffKind::Modified);
    assert_eq!(d.changes.len(), 1);
}

#[test]
fn lists_are_not_recursively_diffed() {
    let prev = vec![var("l", Value::List(vec![num(1), num(2)]))];
    let curr = vec![var("l", Value::List(vec![num(1), num(3)]))];
    let d = compute_diff(&prev, &curr);
    assert_eq!(d.get(&path(&["l"])), DiffKind::Modified);
    assert_eq!(d.get(&path(&["l", "1"])), DiffKind::Unchanged);
    assert_eq!(d.changes.len(), 1);
}

#[test]
fn deep_equality_distinguishes_nested_values() {
    let a = Value::Record(vec![var("x", Value::List(vec![num(1), num(2)]))]);
    let b = Value::Record(vec![var("x", Value::List(vec![num(1), num(2)]))]);
    let c = Value::Record(vec![var("x", Value::List(vec![num(1), num(3)]))]);
    assert!(values_equal(&a, &b));
    assert!(!values_equal(&a, &c));
    assert!(!values_equal(&a, &Value::Bool(true)));
}

#[test]
fn diff_states_handles_out_of_range_indices() {
    let trace = Trace {
        vars: vec!["x".to_string()],
        states: vec![
            State { values: vec![var("x", num(1))] },
            State { values: vec![var("x", num(2))] },
        ],
    };
    let d = diff_states(&trace, 0, 1);
    assert_eq!(d.get(&path(&["x"])), DiffKind::Modified);
    let empty = diff_states(&trace, 0, 7);
    assert_eq!(empty.changes.len(), 0);
}

#[test]
fn lookup_of_absent_path_is_unchanged() {
    let d = DiffResult { changes: Vec::new() };
    assert_eq!(d.get(&path(&["anything"])), DiffKind::Unchanged);
}
