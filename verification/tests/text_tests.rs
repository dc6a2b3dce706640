use trace_explorer::render::DisplayThresholds;
use trace_explorer::text::{
    format_collection_inline, format_record_preview, format_value_full, format_value_short,
    i64_string, quote_string, u64_string, value_is_simple, values_all_simple,
};
use trace_explorer::value::Value;

fn num(n: i64) -> Value {
    Value::Number(n)
}

fn var(name: &str, v: Value) -> (String, Value) {
    (name.to_string(), v)
}

#[test]
fn decimal_strings_are_exact() {
    assert_eq!(u64_string(0), "0");
    assert_eq!(u64_string(90210), "90210");
    assert_eq!(i64_string(-123), "-123");
    assert_eq!(i64_string(7), "7");
    assert_eq!(i64_string(i64::MIN), "-9223372036854775808");
    assert_eq!(i64_string(i64::MAX), "9223372036854775807");
}

#[test]
fn quoting_wraps_in_double_quotes() {
    assert_eq!(quote_string(&"hi".to_string()), "\"hi\"");
    assert_eq!(quote_string(&"".to_string()), "\"\"");
}

#[test]
fn short_forms_per_variant() {
    assert_eq!(format_value_short(&Value::Bool(true)), "true");
    assert_eq!(format_value_short(&Value::Bool(false)), "false");
    assert_eq!(format_value_short(&num(-5)), "-5");
    assert_eq!(format_value_short(&Value::BigInt("123456789012345".to_string())), "123456789012345");
    assert_eq!(format_value_short(&Value::Text("x".to_string())), "\"x\"");
    assert_eq!(format_value_short(&Value::Record(vec![])), "{...}");
    assert_eq!(format_value_short(&Value::Mapping(vec![])), "Map(...)");
    assert_eq!(format_value_short(&Value::SetOf(vec![])), "{...}");
    assert_eq!(format_value_short(&Value::List(vec![])), "[...]");
    assert_eq!(format_value_short(&Value::Tuple(vec![])), "(...)");
    assert_eq!(format_value_short(&Value::Unserializable("Int".to_string())), "<?>");
}

#[test]
fn full_form_renders_nested_values_within_budget() {
    let rec = Value::Record(vec![var("a", num(1)), var("b", Value::Bool(true))]);
    assert_eq!(format_value_full(&rec, 40), Some("{a: 1, b: true}".to_string()));
    assert_eq!(format_value_full(&rec, 10), None);
    assert_eq!(format_value_full(&Value::Record(vec![]), 40), Some("{}".to_string()));
    assert_eq!(format_value_full(&Value::Mapping(vec![]), 40), Some("Map()".to_string()));
    let m = Value::Mapping(vec![(num(1), num(2))]);
    assert_eq!(format_value_full(&m, 40), Some("Map(1 -> 2)".to_string()));
    let l = Value::List(vec![num(1), num(2), num(3)]);
    assert_eq!(format_value_full(&l, 40), Some("[1, 2, 3]".to_string()));
    let t = Value::Tuple(vec![num(1), Value::Text("x".to_string())]);
    assert_eq!(format_value_full(&t, 40), Some("(1, \"x\")".to_string()));
    let s = Value::SetOf(vec![num(4)]);
    assert_eq!(format_value_full(&s, 40), Some("{4}".to_string()));
    assert_eq!(format_value_full(&Value::Unserializable("Int".to_string()), 40), None);
}

#[test]
fn full_form_fails_when_any_nested_part_fails() {
    let inner = Value::Unserializable("Int".to_string());
    let rec = Value::Record(vec![var("a", num(1)), var("u", inner)]);
    assert_eq!(format_value_full(&rec, 1000), None);
}

#[test]
fn record_preview_elides_after_budget() {
    let fields = vec![var("a", num(1)), var("b", num(2))];
    assert_eq!(format_record_preview(&fields, 8), "{a: 1, ...}");
    assert_eq!(format_record_preview(&fields, 40), "{a: 1, b: 2}");
    assert_eq!(format_record_preview(&vec![], 40), "{}");
}

#[test]
fn collection_inline_obeys_budget() {
    let items = vec![num(1), num(2), num(3)];
    assert_eq!(
        format_collection_inline(&items, "[", "]", 9),
        Some("[1, 2, 3]".to_string())
    );
    assert_eq!(format_collection_inline(&items, "[", "]", 6), None);
    assert_eq!(
        format_collection_inline(&vec![], "{", "}", 0),
        Some("{}".to_string())
    );
}

#[test]
fn simplicity_distinguishes_atoms_from_structures() {
    assert!(value_is_simple(&num(1)));
    assert!(value_is_simple(&Value::Text("a".to_string())));
    assert!(!value_is_simple(&Value::List(vec![])));
    assert!(values_all_simple(&vec![num(1), Value::Bool(false)]));
    assert!(!values_all_simple(&vec![num(1), Value::List(vec![])]));
}

#[test]
fn thresholds_follow_width_and_depth() {
    let t = DisplayThresholds::new(100, 2);
    assert_eq!(t.inline, 76);
    assert_eq!(t.key, 33);
    assert_eq!(t.value, 43);
    assert_eq!(t.preview, 67);
    let narrow = DisplayThresholds::new(10, 50);
    assert_eq!(narrow.inline, 16);
    assert_eq!(narrow.key, 7);
    assert_eq!(narrow.value, 9);
    assert_eq!(narrow.preview, 14);
}

#[test]
fn wide_characters_count_two_columns() {
    let t = Value::Text("\u{4f60}\u{597d}".to_string());
    assert_eq!(
        format_value_full(&t, 6),
        Some("\"\u{4f60}\u{597d}\"".to_string())
    );
    assert_eq!(format_value_full(&t, 5), None);
    let items = vec![Value::Text("\u{4f60}".to_string())];
    assert_eq!(
        format_collection_inline(&items, "[", "]", 4),
        Some("[\"\u{4f60}\"]".to_string())
    );
    assert_eq!(format_collection_inline(&items, "[", "]", 3), None);
}
