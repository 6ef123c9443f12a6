use profile_json_refs::util::json_value::JsonValue;
use profile_json_refs::value::exact_counter::{
    CountMethod, ExactCounter, GlobalExactBudget, ValueSource, approximate_value_bytes,
};

fn text(value: &str) -> JsonValue {
    JsonValue::String(value.to_string())
}

#[test]
fn categorical_field_below_threshold_materializes_exact_full_rows() {
    let mut counter = ExactCounter::new(8, 1024);

    counter.observe(&text("red"));
    counter.observe(&text("blue"));
    counter.observe(&text("red"));

    assert!(counter.is_enabled());
    assert_eq!(counter.distinct_count(), Some(2));

    let rows = counter.exact_full_rows("field-a", 64);
    assert_eq!(rows.len(), 2);
    assert!(
        rows.iter()
            .all(|row| row.value_source == ValueSource::ExactFull)
    );
    assert!(
        rows.iter()
            .all(|row| row.count_method == CountMethod::Exact)
    );
    assert!(rows.iter().all(|row| row.is_complete_distribution));

    let red = rows
        .iter()
        .find(|row| row.value_text.as_deref() == Some("red"))
        .unwrap();
    assert_eq!(red.count, Some(2));
}

#[test]
fn crossing_exact_distinct_threshold_disables_exact_full_rows() {
    let mut counter = ExactCounter::new(2, 1024);

    counter.observe(&text("a"));
    counter.observe(&text("b"));
    counter.observe(&text("c"));

    assert!(!counter.is_enabled());
    assert_eq!(counter.distinct_count(), None);
    assert!(counter.exact_full_rows("field-a", 64).is_empty());
}

#[test]
fn crossing_per_field_byte_budget_disables_exact_full_rows() {
    let mut counter = ExactCounter::new(10, 8);

    counter.observe(&text("abcdef"));
    counter.observe(&text("ghijkl"));

    assert!(!counter.is_enabled());
    assert_eq!(counter.distinct_count(), None);
    assert!(counter.exact_full_rows("field-a", 64).is_empty());
}

#[test]
fn exact_rows_are_ranked_by_count_and_carry_the_field_profile() {
    let mut counter = ExactCounter::new(8, 1024);
    for value in ["b", "a", "b", "c", "b", "a"] {
        counter.observe(&text(value));
    }
    let rows = counter.exact_full_rows("field-x", 64);
    let summary: Vec<(Option<String>, Option<u64>, Option<u32>)> =
        rows.iter().map(|row| (row.value_text.clone(), row.count, row.rank)).collect();
    assert_eq!(
        summary,
        vec![
            (Some("b".to_string()), Some(3), Some(1)),
            (Some("a".to_string()), Some(2), Some(2)),
            (Some("c".to_string()), Some(1), Some(3)),
        ]
    );
    assert!(rows.iter().all(|row| row.field_profile_id == "field-x"));
}

#[test]
fn approximate_value_bytes_counts_string_bytes() {
    assert_eq!(approximate_value_bytes(&text("abc")), 3);
    assert_eq!(approximate_value_bytes(&text("가")), 3);
}

#[test]
fn global_budget_refuses_what_does_not_fit() {
    let mut budget = GlobalExactBudget::new(10);
    assert!(budget.try_reserve(6));
    assert!(!budget.try_reserve(5));
    assert!(budget.try_reserve(4));
    assert!(!budget.try_reserve(1));
}

#[test]
fn exact_counter_stays_enabled_while_the_distinct_bytes_fit() {
    let mut counter = ExactCounter::new(10, 8);
    counter.observe(&text("abcd"));
    counter.observe(&text("efgh"));
    counter.observe(&text("abcd"));
    assert!(counter.is_enabled());
    assert_eq!(counter.distinct_count(), Some(2));
    counter.observe(&text("i"));
    assert!(!counter.is_enabled());
    assert_eq!(counter.distinct_count(), None);
    counter.observe(&text("abcd"));
    assert!(!counter.is_enabled());
}
