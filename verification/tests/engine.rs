//! The evaluator, the merge primitive, and the smaller form/display helpers,
//! exercised on concrete documents.

use cac_client::merge::{apply_overlay, parse_strategy};
use cac_client::text::{int_text, parse_i64, split_commas, value_to_text};
use cac_client::value::{map_clone, map_get, value_eq};
use cac_client::{eval_cac, eval_cac_with_reasoning, merge, Context, MergeStrategy, Value};

fn s(text: &str) -> String {
    text.to_string()
}

fn obj(entries: Vec<(&str, Value)>) -> Value {
    Value::Obj(entries.into_iter().map(|(k, v)| (s(k), v)).collect())
}

fn map(entries: Vec<(&str, Value)>) -> Vec<(String, Value)> {
    entries.into_iter().map(|(k, v)| (s(k), v)).collect()
}

fn var(name: &str) -> Value {
    obj(vec![("var", Value::Str(s(name)))])
}

fn eq_cond(name: &str, v: Value) -> Value {
    obj(vec![("==", Value::Arr(vec![var(name), v]))])
}

fn ctx(condition: Value, ids: Vec<&str>) -> Context {
    Context {
        condition,
        override_with_keys: ids.into_iter().map(s).collect(),
    }
}

fn assert_map_eq(actual: &Vec<(String, Value)>, expected: &Vec<(String, Value)>) {
    let a = Value::Obj(map_clone(actual));
    let b = Value::Obj(map_clone(expected));
    assert!(
        value_eq(&a, &b),
        "maps differ: {} vs {}",
        value_to_text(&a),
        value_to_text(&b)
    );
}

#[test]
fn defaults_only() {
    let defaults = map(vec![
        ("timeout_ms", Value::Num(500)),
        ("region", Value::Str(s("us"))),
    ]);
    let resolved = eval_cac(
        map_clone(&defaults),
        &vec![],
        &map(vec![]),
        &map(vec![]),
        MergeStrategy::MERGE,
    )
    .unwrap();
    assert_map_eq(&resolved, &defaults);
}

#[test]
fn single_matching_context_replace() {
    let defaults = map(vec![("timeout_ms", Value::Num(500))]);
    let overrides = map(vec![("o1", obj(vec![("timeout_ms", Value::Num(100))]))]);
    let contexts = vec![ctx(eq_cond("tier", Value::Str(s("gold"))), vec!["o1"])];

    let gold = map(vec![("tier", Value::Str(s("gold")))]);
    let resolved = eval_cac(
        map_clone(&defaults),
        &contexts,
        &overrides,
        &gold,
        MergeStrategy::REPLACE,
    )
    .unwrap();
    assert_map_eq(&resolved, &map(vec![("timeout_ms", Value::Num(100))]));

    let silver = map(vec![("tier", Value::Str(s("silver")))]);
    let resolved = eval_cac(
        map_clone(&defaults),
        &contexts,
        &overrides,
        &silver,
        MergeStrategy::REPLACE,
    )
    .unwrap();
    assert_map_eq(&resolved, &map(vec![("timeout_ms", Value::Num(500))]));
}

#[test]
fn ordering_later_context_wins() {
    let defaults = map(vec![("x", Value::Str(s("d")))]);
    let overrides = map(vec![
        ("a", obj(vec![("x", Value::Str(s("A")))])),
        ("b", obj(vec![("x", Value::Str(s("B")))])),
    ]);
    let contexts = vec![
        ctx(Value::Bool(true), vec!["a"]),
        ctx(Value::Bool(true), vec!["b"]),
    ];
    let resolved = eval_cac(
        defaults,
        &contexts,
        &overrides,
        &map(vec![]),
        MergeStrategy::MERGE,
    )
    .unwrap();
    assert_map_eq(&resolved, &map(vec![("x", Value::Str(s("B")))]));
}

#[test]
fn merge_vs_replace_on_nested_map() {
    let defaults = map(vec![(
        "flags",
        obj(vec![("a", Value::Num(1)), ("b", Value::Num(2))]),
    )]);
    let overrides = map(vec![(
        "o",
        obj(vec![(
            "flags",
            obj(vec![("b", Value::Num(20)), ("c", Value::Num(30))]),
        )]),
    )]);
    let contexts = vec![ctx(Value::Bool(true), vec!["o"])];

    let merged = eval_cac(
        map_clone(&defaults),
        &contexts,
        &overrides,
        &map(vec![]),
        MergeStrategy::MERGE,
    )
    .unwrap();
    assert_map_eq(
        &merged,
        &map(vec![(
            "flags",
            obj(vec![
                ("a", Value::Num(1)),
                ("b", Value::Num(20)),
                ("c", Value::Num(30)),
            ]),
        )]),
    );

    let replaced = eval_cac(
        defaults,
        &contexts,
        &overrides,
        &map(vec![]),
        MergeStrategy::REPLACE,
    )
    .unwrap();
    assert_map_eq(
        &replaced,
        &map(vec![(
            "flags",
            obj(vec![("b", Value::Num(20)), ("c", Value::Num(30))]),
        )]),
    );
}

#[test]
fn strategy_parse_is_case_insensitive_and_normalizes() {
    assert_eq!(parse_strategy("REPLACE").to_text(), "replace");
    assert_eq!(parse_strategy("Replace").to_text(), "replace");
    assert_eq!(parse_strategy("merge").to_text(), "merge");
    assert_eq!(parse_strategy("MeRgE").to_text(), "merge");
    // an unknown name falls back to the default
    assert_eq!(parse_strategy("sideways").to_text(), "merge");
    assert_eq!(MergeStrategy::from(s("REPLACE")).to_text(), "replace");
    assert_eq!(MergeStrategy::default().to_text(), "merge");
}

#[test]
fn empty_override_map_is_identity() {
    let base = map(vec![("k", Value::Num(7)), ("m", obj(vec![("x", Value::Num(1))]))]);
    for strategy in [MergeStrategy::MERGE, MergeStrategy::REPLACE] {
        let mut working = map_clone(&base);
        apply_overlay(&mut working, &map(vec![]), strategy);
        assert_map_eq(&working, &base);
    }
}

#[test]
fn merge_recurses_only_on_maps() {
    let base = obj(vec![("a", Value::Num(1)), ("b", Value::Num(2))]);
    let overlay = obj(vec![("b", Value::Num(20)), ("c", Value::Num(30))]);
    let merged = merge(&base, &overlay);
    assert!(value_eq(
        &merged,
        &obj(vec![
            ("a", Value::Num(1)),
            ("b", Value::Num(20)),
            ("c", Value::Num(30)),
        ])
    ));
    // non-map overlay replaces wholesale
    let replaced = merge(&base, &Value::Num(9));
    assert!(value_eq(&replaced, &Value::Num(9)));
}

#[test]
fn var_against_empty_query_is_false() {
    let cond = eq_cond("x", Value::Num(1));
    let r = cac_client::eval::eval_predicate(&cond, &map(vec![])).unwrap();
    assert!(value_eq(&r, &Value::Bool(false)));
}

#[test]
fn le_with_non_numeric_operand_is_false() {
    let cond = obj(vec![(
        "<=",
        Value::Arr(vec![Value::Num(1), var("x"), Value::Num(10)]),
    )]);
    let q = map(vec![("x", Value::Str(s("five")))]);
    let r = cac_client::eval::eval_predicate(&cond, &q).unwrap();
    assert!(value_eq(&r, &Value::Bool(false)));

    let q2 = map(vec![("x", Value::Num(5))]);
    let r2 = cac_client::eval::eval_predicate(&cond, &q2).unwrap();
    assert!(value_eq(&r2, &Value::Bool(true)));
}

#[test]
fn in_operator_membership_and_substring() {
    let member = obj(vec![(
        "in",
        Value::Arr(vec![
            var("t"),
            Value::Arr(vec![Value::Num(1), Value::Num(2), Value::Num(3)]),
        ]),
    )]);
    let q = map(vec![("t", Value::Num(2))]);
    let r = cac_client::eval::eval_predicate(&member, &q).unwrap();
    assert!(value_eq(&r, &Value::Bool(true)));

    let substring = obj(vec![(
        "in",
        Value::Arr(vec![var("t"), Value::Str(s("abcd"))]),
    )]);
    let q2 = map(vec![("t", Value::Str(s("bc")))]);
    let r2 = cac_client::eval::eval_predicate(&substring, &q2).unwrap();
    assert!(value_eq(&r2, &Value::Bool(true)));
    let q3 = map(vec![("t", Value::Str(s("ca")))]);
    let r3 = cac_client::eval::eval_predicate(&substring, &q3).unwrap();
    assert!(value_eq(&r3, &Value::Bool(false)));
}

#[test]
fn and_or_short_circuit() {
    let cond = obj(vec![(
        "and",
        Value::Arr(vec![
            eq_cond("a", Value::Num(1)),
            eq_cond("b", Value::Num(2)),
        ]),
    )]);
    let both = map(vec![("a", Value::Num(1)), ("b", Value::Num(2))]);
    let r = cac_client::eval::eval_predicate(&cond, &both).unwrap();
    assert!(value_eq(&r, &Value::Bool(true)));
    let one = map(vec![("a", Value::Num(1)), ("b", Value::Num(3))]);
    let r = cac_client::eval::eval_predicate(&cond, &one).unwrap();
    assert!(value_eq(&r, &Value::Bool(false)));

    let either = obj(vec![(
        "or",
        Value::Arr(vec![
            eq_cond("a", Value::Num(9)),
            eq_cond("b", Value::Num(2)),
        ]),
    )]);
    let r = cac_client::eval::eval_predicate(&either, &one).unwrap();
    assert!(value_eq(&r, &Value::Bool(false)));
    let r = cac_client::eval::eval_predicate(&either, &both).unwrap();
    assert!(value_eq(&r, &Value::Bool(true)));
}

#[test]
fn unknown_operator_is_a_document_error() {
    let cond = obj(vec![("xor", Value::Arr(vec![Value::Bool(true)]))]);
    assert!(cac_client::eval::eval_predicate(&cond, &map(vec![])).is_none());
    // and the surrounding context simply does not match
    let defaults = map(vec![("k", Value::Num(1))]);
    let overrides = map(vec![("o", obj(vec![("k", Value::Num(2))]))]);
    let contexts = vec![ctx(cond, vec!["o"])];
    let resolved = eval_cac(
        map_clone(&defaults),
        &contexts,
        &overrides,
        &map(vec![]),
        MergeStrategy::MERGE,
    )
    .unwrap();
    assert_map_eq(&resolved, &defaults);
}

#[test]
fn dangling_override_id_is_skipped() {
    let defaults = map(vec![("k", Value::Num(1))]);
    let overrides = map(vec![("present", obj(vec![("k", Value::Num(2))]))]);
    let contexts = vec![ctx(Value::Bool(true), vec!["missing", "present"])];
    let resolved = eval_cac(
        defaults,
        &contexts,
        &overrides,
        &map(vec![]),
        MergeStrategy::MERGE,
    )
    .unwrap();
    assert_map_eq(&resolved, &map(vec![("k", Value::Num(2))]));
}

#[test]
fn empty_override_id_list_has_no_effect() {
    let defaults = map(vec![("k", Value::Num(1))]);
    let overrides = map(vec![("o", obj(vec![("k", Value::Num(2))]))]);
    let contexts = vec![ctx(Value::Bool(true), vec![])];
    let resolved = eval_cac(
        map_clone(&defaults),
        &contexts,
        &overrides,
        &map(vec![]),
        MergeStrategy::MERGE,
    )
    .unwrap();
    assert_map_eq(&resolved, &defaults);
}

#[test]
fn reasoning_reports_final_writer() {
    let defaults = map(vec![("x", Value::Str(s("d")))]);
    let overrides = map(vec![
        ("a", obj(vec![("x", Value::Str(s("A")))])),
        ("b", obj(vec![("x", Value::Str(s("B"))), ("y", Value::Num(1))])),
    ]);
    let contexts = vec![
        ctx(Value::Bool(true), vec!["a"]),
        ctx(Value::Bool(true), vec!["b"]),
    ];
    let (resolved, reasoning) = eval_cac_with_reasoning(
        defaults,
        &contexts,
        &overrides,
        &map(vec![]),
        MergeStrategy::MERGE,
    )
    .unwrap();
    assert_map_eq(
        &resolved,
        &map(vec![("x", Value::Str(s("B"))), ("y", Value::Num(1))]),
    );
    assert_map_eq(
        &reasoning,
        &map(vec![("x", Value::Str(s("b"))), ("y", Value::Str(s("b")))]),
    );
}

#[test]
fn strategies_agree_without_map_values() {
    let defaults = map(vec![("k", Value::Num(1)), ("w", Value::Str(s("v")))]);
    let overrides = map(vec![(
        "o",
        obj(vec![("k", Value::Num(2)), ("z", Value::Arr(vec![Value::Num(3)]))]),
    )]);
    let contexts = vec![ctx(Value::Bool(true), vec!["o"])];
    let merged = eval_cac(
        map_clone(&defaults),
        &contexts,
        &overrides,
        &map(vec![]),
        MergeStrategy::MERGE,
    )
    .unwrap();
    let replaced = eval_cac(
        defaults,
        &contexts,
        &overrides,
        &map(vec![]),
        MergeStrategy::REPLACE,
    )
    .unwrap();
    assert_map_eq(&merged, &replaced);
}

#[test]
fn json_text_of_values() {
    assert_eq!(value_to_text(&Value::Null), "null");
    assert_eq!(value_to_text(&Value::Bool(true)), "true");
    assert_eq!(value_to_text(&Value::Num(-42)), "-42");
    assert_eq!(value_to_text(&Value::Num(0)), "0");
    assert_eq!(value_to_text(&Value::Str(s("a\"b\\c"))), "\"a\\\"b\\\\c\"");
    assert_eq!(value_to_text(&Value::Str(s("line\nbreak"))), "\"line\\nbreak\"");
    let nested = obj(vec![
        ("xs", Value::Arr(vec![Value::Num(1), Value::Num(2)])),
        ("o", obj(vec![("k", Value::Str(s("v")))])),
    ]);
    assert_eq!(value_to_text(&nested), "{\"xs\":[1,2],\"o\":{\"k\":\"v\"}}");
    assert_eq!(int_text(i64::MIN), "-9223372036854775808");
}

#[test]
fn integer_parsing() {
    assert_eq!(parse_i64("0"), Some(0));
    assert_eq!(parse_i64("-137"), Some(-137));
    assert_eq!(parse_i64("9223372036854775807"), Some(i64::MAX));
    assert_eq!(parse_i64("-9223372036854775808"), Some(i64::MIN));
    assert_eq!(parse_i64("9223372036854775808"), None);
    assert_eq!(parse_i64(""), None);
    assert_eq!(parse_i64("-"), None);
    assert_eq!(parse_i64("12x"), None);
}

#[test]
fn comma_splitting() {
    let pieces = split_commas("a,b,,c");
    let texts: Vec<&str> = pieces.iter().map(|p| p.as_str()).collect();
    assert_eq!(texts, vec!["a", "b", "", "c"]);
    let single = split_commas("alone");
    assert_eq!(single.len(), 1);
    assert_eq!(single[0], "alone");
}

#[test]
fn equal_objects_regardless_of_entry_order() {
    let a = obj(vec![("x", Value::Num(1)), ("y", Value::Num(2))]);
    let b = obj(vec![("y", Value::Num(2)), ("x", Value::Num(1))]);
    assert!(value_eq(&a, &b));
    let c = obj(vec![("x", Value::Num(1)), ("y", Value::Num(3))]);
    assert!(!value_eq(&a, &c));
}

#[test]
fn map_lookup_finds_first_binding() {
    let m = map(vec![("a", Value::Num(1)), ("b", Value::Num(2))]);
    assert!(value_eq(map_get(&m, &s("b")).unwrap(), &Value::Num(2)));
    assert!(map_get(&m, &s("zzz")).is_none());
}

#[test]
fn literal_nodes_evaluate_to_themselves() {
    // a two-key object is a literal, not an operator node
    let lit = obj(vec![("a", Value::Num(1)), ("b", Value::Num(2))]);
    let r = cac_client::eval::eval_predicate(&lit, &map(vec![])).unwrap();
    assert!(value_eq(&r, &lit));
    // scalars are literals too
    let r = cac_client::eval::eval_predicate(&Value::Num(7), &map(vec![])).unwrap();
    assert!(value_eq(&r, &Value::Num(7)));
}

#[test]
fn in_rejects_non_scalar_needles_and_wrong_shapes() {
    let cond = obj(vec![(
        "in",
        Value::Arr(vec![
            Value::Arr(vec![Value::Num(1)]),
            Value::Arr(vec![Value::Num(1), Value::Num(2)]),
        ]),
    )]);
    let r = cac_client::eval::eval_predicate(&cond, &map(vec![])).unwrap();
    assert!(value_eq(&r, &Value::Bool(false)));

    let cond = obj(vec![("in", Value::Arr(vec![Value::Num(1), Value::Num(2)]))]);
    let r = cac_client::eval::eval_predicate(&cond, &map(vec![])).unwrap();
    assert!(value_eq(&r, &Value::Bool(false)));
}

#[test]
fn conjunction_without_arguments_is_a_document_error() {
    let cond = obj(vec![("and", Value::Arr(vec![]))]);
    assert!(cac_client::eval::eval_predicate(&cond, &map(vec![])).is_none());
    let cond = obj(vec![("or", Value::Bool(true))]);
    assert!(cac_client::eval::eval_predicate(&cond, &map(vec![])).is_none());
}

#[test]
fn later_override_replaces_incompatible_shapes_under_merge() {
    let defaults = map(vec![("k", obj(vec![("x", Value::Num(1))]))]);
    let overrides = map(vec![
        ("a", obj(vec![("k", Value::Str(s("flat")))])),
        ("b", obj(vec![("k", obj(vec![("y", Value::Num(2))]))])),
    ]);
    let contexts = vec![
        ctx(Value::Bool(true), vec!["a"]),
        ctx(Value::Bool(true), vec!["b"]),
    ];
    let resolved = eval_cac(
        defaults,
        &contexts,
        &overrides,
        &map(vec![]),
        MergeStrategy::MERGE,
    )
    .unwrap();
    // the string wiped the map; the later map then replaced the string wholesale
    assert_map_eq(&resolved, &map(vec![("k", obj(vec![("y", Value::Num(2))]))]));
}
