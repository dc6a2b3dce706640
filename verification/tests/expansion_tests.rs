use trace_explorer::expansion::ExpansionState;

fn path(segs: &[&str]) -> Vec<String> {
    segs.iter().map(|s| s.to_string()).collect()
}

#[test]
fn toggle_twice_restores_expansion_but_manual_sticks() {
    let mut es = ExpansionState::new();
    let p = path(&["a", "b"]);
    assert!(!es.is_expanded(&p));
    assert!(!es.is_manual(&p));
    es.toggle(&p);
    assert!(es.is_expanded(&p));
    assert!(es.is_manual(&p));
    es.toggle(&p);
    assert!(!es.is_expanded(&p));
    assert!(es.is_manual(&p));
}

#[test]
fn auto_expand_respects_manual_collapse() {
    let mut es = ExpansionState::new();
    let p = path(&["a"]);
    es.toggle(&p);
    es.toggle(&p);
    assert!(!es.is_expanded(&p));
    es.auto_expand(&p);
    assert!(!es.is_expanded(&p));
    let q = path(&["b"]);
    es.auto_expand(&q);
    assert!(es.is_expanded(&q));
    assert!(!es.is_manual(&q));
}

#[test]
fn expand_to_changes_opens_all_ancestors() {
    let mut es = ExpansionState::new();
    let changed = vec![path(&["a", "b", "c"])];
    es.expand_to_changes(&changed);
    assert!(es.is_expanded(&path(&["a"])));
    assert!(es.is_expanded(&path(&["a", "b"])));
    assert!(es.is_expanded(&path(&["a", "b", "c"])));
    assert!(!es.is_manual(&path(&["a"])));
    assert!(!es.is_expanded(&path(&["a", "b", "c", "d"])));
}

#[test]
fn expand_all_then_clear_is_initial_state() {
    let mut es = ExpansionState::new();
    let p1 = path(&["a"]);
    let p2 = path(&["b", "c"]);
    es.expand_all(&vec![p1.clone(), p2.clone()]);
    assert!(es.is_expanded(&p1));
    assert!(es.is_expanded(&p2));
    assert!(es.is_manual(&p1));
    assert!(es.is_manual(&p2));
    es.clear();
    assert!(!es.is_expanded(&p1));
    assert!(!es.is_expanded(&p2));
    assert!(!es.is_manual(&p1));
    assert!(!es.is_manual(&p2));
}

#[test]
fn restore_reverts_automatic_expansion_to_snapshot() {
    let mut es = ExpansionState::new();
    let auto1 = path(&["a"]);
    let auto2 = path(&["b"]);
    es.auto_expand(&auto1);
    let snap = es.snapshot();
    es.auto_expand(&auto2);
    assert!(es.is_expanded(&auto2));
    es.restore(&snap);
    assert!(es.is_expanded(&auto1));
    assert!(!es.is_expanded(&auto2));
}

#[test]
fn restore_never_closes_a_manual_expansion() {
    let mut es = ExpansionState::new();
    let snap = es.snapshot();
    let p = path(&["kept"]);
    es.toggle(&p);
    assert!(es.is_expanded(&p) && es.is_manual(&p));
    es.restore(&snap);
    assert!(es.is_expanded(&p));
}

#[test]
fn restore_leaves_manual_collapse_in_place() {
    let mut es = ExpansionState::new();
    let p = path(&["shut"]);
    es.auto_expand(&p);
    let snap = es.snapshot();
    es.toggle(&p);
    assert!(!es.is_expanded(&p) && es.is_manual(&p));
    es.restore(&snap);
    assert!(!es.is_expanded(&p));
}
