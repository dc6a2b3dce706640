use trace_explorer::diff::compute_diff;
use trace_explorer::expansion::ExpansionState;
use trace_explorer::fit::{auto_adjust_expansion, expand_level};
use trace_explorer::render::render_state;
use trace_explorer::value::Value;

fn num(n: i64) -> Value {
    Value::Number(n)
}

fn var(name: &str, v: Value) -> (String, Value) {
    (name.to_string(), v)
}

fn path(segs: &[&str]) -> Vec<String> {
    segs.iter().map(|s| s.to_string()).collect()
}

fn wide_record(n_fields: usize) -> Value {
    let mut fields = Vec::new();
    for i in 0..n_fields {
        fields.push((format!("field{}", i), num(1234567890 + i as i64)));
    }
    Value::Record(fields)
}

#[test]
fn expand_level_opens_only_paths_of_the_target_depth() {
    let mut es = ExpansionState::new();
    let all = vec![path(&["a"]), path(&["b", "c"])];
    let changed = vec![path(&["a"])];
    let did = expand_level(&mut es, &all, &changed, 1);
    assert!(did);
    assert!(es.is_expanded(&path(&["a"])));
    assert!(!es.is_expanded(&path(&["b", "c"])));
    let did_again = expand_level(&mut es, &all, &changed, 1);
    assert!(!did_again);
    let did_two = expand_level(&mut es, &all, &changed, 2);
    assert!(did_two);
    assert!(es.is_expanded(&path(&["b", "c"])));
}

#[test]
fn expand_level_skips_manual_decisions() {
    let mut es = ExpansionState::new();
    let p = path(&["a"]);
    es.toggle(&p);
    es.toggle(&p);
    let did = expand_level(&mut es, &vec![p.clone()], &vec![], 1);
    assert!(!did);
    assert!(!es.is_expanded(&p));
}

#[test]
fn auto_fit_opens_changed_subtree_and_stays_within_viewport() {
    let prev = vec![var(
        "x",
        Value::Record(vec![var("alpha", num(1)), var("beta", num(2))]),
    )];
    let curr = vec![var(
        "x",
        Value::Record(vec![var("alpha", num(1)), var("beta", num(3))]),
    )];
    let d = compute_diff(&prev, &curr);
    let mut es = ExpansionState::new();
    auto_adjust_expansion(&mut es, &curr, &d, 10, 30, 3);
    assert!(es.is_expanded(&path(&["x"])));
    let lines = render_state(&curr, &es, &d, 10, 3);
    assert_eq!(lines.len(), 4);
    assert!(lines.len() <= 30);
}

#[test]
fn auto_fit_backs_out_an_expansion_that_overflows() {
    let prev = vec![var("x", wide_record(5))];
    let curr = {
        let mut w = wide_record(5);
        if let Value::Record(ref mut fields) = w {
            fields[0].1 = num(7);
        }
        vec![var("x", w)]
    };
    let d = compute_diff(&prev, &curr);
    let mut es = ExpansionState::new();
    auto_adjust_expansion(&mut es, &curr, &d, 10, 6, 3);
    assert!(!es.is_expanded(&path(&["x"])));
    let lines = render_state(&curr, &es, &d, 10, 3);
    assert_eq!(lines.len(), 1);
}

#[test]
fn auto_fit_leaves_an_already_full_viewport_alone() {
    let prev = vec![var("x", wide_record(2))];
    let curr = vec![var("x", wide_record(2))];
    let d = compute_diff(&prev, &curr);
    let mut es = ExpansionState::new();
    auto_adjust_expansion(&mut es, &curr, &d, 10, 3, 3);
    assert!(!es.is_expanded(&path(&["x"])));
}

#[test]
fn auto_fit_never_alters_manual_choices() {
    let prev = vec![var(
        "x",
        Value::Record(vec![var("alpha", num(1)), var("beta", num(2))]),
    )];
    let curr = vec![var(
        "x",
        Value::Record(vec![var("alpha", num(1)), var("beta", num(3))]),
    )];
    let d = compute_diff(&prev, &curr);
    let mut es = ExpansionState::new();
    let p = path(&["x"]);
    es.toggle(&p);
    es.toggle(&p);
    auto_adjust_expansion(&mut es, &curr, &d, 10, 30, 3);
    assert!(!es.is_expanded(&p));
    assert!(es.is_manual(&p));
}
