//! The polling client and the registry, driven with concrete HTTP responses,
//! and the form/display helpers around the document.

use cac_client::client::RefreshOutcome;
use cac_client::experiments::ExperimentStatusType;
use cac_client::value::{map_clone, value_eq};
use cac_client::{Client, ClientFactory, Condition, Dimension, MergeStrategy, Value};

fn s(text: &str) -> String {
    text.to_string()
}

fn obj(entries: Vec<(&str, Value)>) -> Value {
    Value::Obj(entries.into_iter().map(|(k, v)| (s(k), v)).collect())
}

fn map(entries: Vec<(&str, Value)>) -> Vec<(String, Value)> {
    entries.into_iter().map(|(k, v)| (s(k), v)).collect()
}

const BODY_ONE: &str = r#"{
    "contexts": [
        { "condition": {"==": [{"var": "tier"}, "gold"]},
          "override_with_keys": ["o1"] }
    ],
    "overrides": { "o1": { "timeout_ms": 100 } },
    "default_configs": { "timeout_ms": 500, "region": "us" }
}"#;

const BODY_TWO: &str = r#"{
    "contexts": [],
    "overrides": {},
    "default_configs": { "timeout_ms": 900 }
}"#;

const STAMP_ONE: &str = "Wed, 21 Oct 2015 07:28:00 GMT";
const SECS_ONE: i64 = 1445412480;
const STAMP_TWO: &str = "Thu, 22 Oct 2015 07:28:00 GMT";
const SECS_TWO: i64 = SECS_ONE + 86400;

fn fresh_client() -> Client {
    Client::new(s("acme"), 1000, 200, BODY_ONE, Some(STAMP_ONE)).unwrap()
}

#[test]
fn construction_decodes_body_and_header() {
    let client = fresh_client();
    assert_eq!(client.get_last_modified().unwrap(), SECS_ONE);
    let resolved = client
        .eval(&map(vec![("tier", Value::Str(s("gold")))]), MergeStrategy::MERGE)
        .unwrap();
    assert!(value_eq(
        &Value::Obj(resolved),
        &obj(vec![("timeout_ms", Value::Num(100)), ("region", Value::Str(s("us")))])
    ));
}

#[test]
fn construction_without_header_uses_epoch() {
    let client = Client::new(s("acme"), 1000, 200, BODY_ONE, None).unwrap();
    assert_eq!(client.get_last_modified().unwrap(), 0);
    let client = Client::new(s("acme"), 1000, 200, BODY_ONE, Some("not a date")).unwrap();
    assert_eq!(client.get_last_modified().unwrap(), 0);
}

#[test]
fn construction_rejects_bad_status_and_bad_body() {
    assert!(Client::new(s("acme"), 1000, 500, BODY_ONE, None).is_err());
    assert!(Client::new(s("acme"), 1000, 200, "not json", None).is_err());
    assert!(Client::new(s("acme"), 1000, 200, "{\"contexts\": []}", None).is_err());
}

#[test]
fn refresh_sequence_honors_conditional_semantics() {
    let mut client = fresh_client();

    // a 304 leaves every observable piece of state alone
    let before_lm = client.get_last_modified().unwrap();
    let before_cfg = client.get_full_config_state().unwrap();
    let outcome = client.refresh(304, "", None);
    assert_eq!(outcome, RefreshOutcome::NotModified);
    assert_eq!(client.get_last_modified().unwrap(), before_lm);
    let after_cfg = client.get_full_config_state().unwrap();
    assert!(value_eq(
        &Value::Obj(map_clone(&before_cfg.default_configs)),
        &Value::Obj(map_clone(&after_cfg.default_configs))
    ));

    // a fresh 200 installs the new document and advances the timestamp
    let outcome = client.refresh(200, BODY_TWO, Some(STAMP_TWO));
    assert_eq!(outcome, RefreshOutcome::Updated);
    assert_eq!(client.get_last_modified().unwrap(), SECS_TWO);
    let cfg = client.get_full_config_state().unwrap();
    assert!(value_eq(
        &Value::Obj(map_clone(&cfg.default_configs)),
        &obj(vec![("timeout_ms", Value::Num(900))])
    ));
}

#[test]
fn refresh_failures_keep_the_snapshot() {
    let mut client = fresh_client();
    assert_eq!(client.refresh(502, "", None), RefreshOutcome::FetchFailed);
    assert_eq!(client.refresh(200, "{broken", Some(STAMP_TWO)), RefreshOutcome::DecodeFailed);
    assert_eq!(client.get_last_modified().unwrap(), SECS_ONE);
    let cfg = client.get_full_config_state().unwrap();
    assert!(value_eq(
        &Value::Obj(map_clone(&cfg.default_configs)),
        &obj(vec![("timeout_ms", Value::Num(500)), ("region", Value::Str(s("us")))])
    ));
}

#[test]
fn refresh_never_regresses_the_timestamp() {
    let mut client = fresh_client();
    let stale = "Mon, 01 Jan 2001 00:00:00 GMT";
    assert_eq!(client.refresh(200, BODY_TWO, Some(stale)), RefreshOutcome::Updated);
    assert_eq!(client.get_last_modified().unwrap(), SECS_ONE);
}

#[test]
fn if_modified_since_renders_the_snapshot_instant() {
    let client = fresh_client();
    assert_eq!(client.if_modified_since(), "Wed, 21 Oct 2015 07:28:00 +0000");
}

#[test]
fn resolved_config_filtering_is_a_projection() {
    let client = fresh_client();
    let query = map(vec![("tier", Value::Str(s("gold")))]);
    let keys = vec![s("region")];
    let filtered = client
        .get_resolved_config(&query, &keys, MergeStrategy::MERGE)
        .unwrap();
    assert!(value_eq(
        &Value::Obj(filtered),
        &obj(vec![("region", Value::Str(s("us")))])
    ));
    let all = client
        .get_resolved_config(&query, &vec![], MergeStrategy::MERGE)
        .unwrap();
    let full = client.eval(&query, MergeStrategy::MERGE).unwrap();
    assert!(value_eq(&Value::Obj(all), &Value::Obj(full)));
}

#[test]
fn default_config_filtering() {
    let client = fresh_client();
    let only = client.get_default_config(&vec![s("timeout_ms")]).unwrap();
    assert!(value_eq(
        &Value::Obj(only),
        &obj(vec![("timeout_ms", Value::Num(500))])
    ));
    let all = client.get_default_config(&vec![]).unwrap();
    assert!(value_eq(
        &Value::Obj(all),
        &obj(vec![("timeout_ms", Value::Num(500)), ("region", Value::Str(s("us")))])
    ));
}

#[test]
fn factory_first_creator_wins() {
    let mut factory = ClientFactory::new();
    assert!(factory.get_client(&s("acme")).is_err());

    let first = Client::new(s("acme"), 1000, 200, BODY_ONE, Some(STAMP_ONE)).unwrap();
    let lm = factory.create_client(s("acme"), first).get_last_modified().unwrap();
    assert_eq!(lm, SECS_ONE);

    // a later creator's freshly built client is discarded
    let second = Client::new(s("acme"), 9999, 200, BODY_TWO, Some(STAMP_TWO)).unwrap();
    let winner = factory.create_client(s("acme"), second);
    assert_eq!(winner.get_last_modified().unwrap(), SECS_ONE);

    let got = factory.get_client(&s("acme")).unwrap();
    assert_eq!(got.get_last_modified().unwrap(), SECS_ONE);
}

#[test]
fn condition_pills_read_predicates_back() {
    let is_cond = obj(vec![(
        "==",
        Value::Arr(vec![obj(vec![("var", Value::Str(s("tier")))]), Value::Str(s("gold"))]),
    )]);
    let c = Condition::try_from_value(&is_cond).unwrap();
    assert_eq!(c.left_operand, "tier");
    assert_eq!(c.operator.to_text(), "is");
    assert_eq!(c.right_operand, "gold");
    assert_eq!(c.to_text(), "tier is gold");

    let between = obj(vec![(
        "<=",
        Value::Arr(vec![
            Value::Num(2),
            obj(vec![("var", Value::Str(s("age")))]),
            Value::Num(10),
        ]),
    )]);
    let c = Condition::try_from_value(&between).unwrap();
    assert_eq!(c.operator.to_text(), "between");
    assert_eq!(c.left_operand, "age");
    assert_eq!(c.right_operand, "2,10");

    let has = obj(vec![(
        "in",
        Value::Arr(vec![
            Value::Str(s("bc")),
            obj(vec![("var", Value::Str(s("name")))]),
        ]),
    )]);
    let c = Condition::try_from_value(&has).unwrap();
    assert_eq!(c.operator.to_text(), "has");

    let other = obj(vec![("xor", Value::Arr(vec![Value::Num(1), Value::Num(2)]))]);
    let c = Condition::try_from_value(&other).unwrap();
    assert_eq!(c.operator.to_text(), "xor");
    assert_eq!(c.right_operand, "1,2");

    assert!(Condition::try_from_value(&Value::Num(3)).is_err());
}

#[test]
fn conditions_of_a_conjoined_context() {
    let condition = obj(vec![(
        "and",
        Value::Arr(vec![
            obj(vec![(
                "==",
                Value::Arr(vec![
                    obj(vec![("var", Value::Str(s("a")))]),
                    Value::Num(1),
                ]),
            )]),
            obj(vec![(
                "==",
                Value::Arr(vec![
                    obj(vec![("var", Value::Str(s("b")))]),
                    Value::Num(2),
                ]),
            )]),
        ]),
    )]);
    let context = cac_client::Context {
        condition,
        override_with_keys: vec![s("o")],
    };
    let cs = cac_client::condition::conditions_of_context(&context).unwrap();
    assert_eq!(cs.len(), 2);
    assert_eq!(cs[0].to_text(), "a is 1");
    assert_eq!(cs[1].to_text(), "b is 2");
}

#[test]
fn condition_schema_construction() {
    let dims: Vec<Dimension> = vec![];
    let le = cac_client::get_condition_schema("age", "<=", "2, 10", &dims).unwrap();
    assert_eq!(
        cac_client::text::value_to_text(&le),
        "{\"<=\":[2,{\"var\":\"age\"},10]}"
    );
    let eq = cac_client::get_condition_schema("tier", "==", "\"gold\"", &dims).unwrap();
    assert_eq!(
        cac_client::text::value_to_text(&eq),
        "{\"==\":[{\"var\":\"tier\"},\"gold\"]}"
    );
    // a bare word that is not JSON is kept as a string
    let eqs = cac_client::get_condition_schema("tier", "==", "gold", &dims).unwrap();
    assert_eq!(
        cac_client::text::value_to_text(&eqs),
        "{\"==\":[{\"var\":\"tier\"},\"gold\"]}"
    );
    assert!(cac_client::get_condition_schema("age", "<=", "2", &dims).is_err());
    assert!(cac_client::get_condition_schema("age", "<=", "x, 10", &dims).is_err());

    let rows = vec![(s("a"), s("=="), s("1")), (s("b"), s("=="), s("2"))];
    let ctx = cac_client::construct_context(&rows, &dims).unwrap();
    assert_eq!(
        cac_client::text::value_to_text(&ctx),
        "{\"and\":[{\"==\":[{\"var\":\"a\"},1]},{\"==\":[{\"var\":\"b\"},2]}]}"
    );

    let one = vec![(s("a"), s("=="), s("1"))];
    let overrides = map(vec![("k", Value::Num(5))]);
    let payload = cac_client::construct_request_payload(overrides, &one, &dims).unwrap();
    assert_eq!(
        cac_client::text::value_to_text(&payload),
        "{\"override\":{\"k\":5},\"context\":{\"==\":[{\"var\":\"a\"},1]}}"
    );
}

#[test]
fn create_context_response_mapping() {
    assert_eq!(
        cac_client::context_form::interpret_create_context_response(200, s("stored")).unwrap(),
        "stored"
    );
    assert_eq!(
        cac_client::context_form::interpret_create_context_response(400, s("")).unwrap_err(),
        "Schema Validation Failed"
    );
    assert_eq!(
        cac_client::context_form::interpret_create_context_response(503, s("")).unwrap_err(),
        "Internal Server Error"
    );
}

#[test]
fn stringified_status_lists() {
    let statuses = cac_client::deserialize_stringified_list("CREATED,CONCLUDED").unwrap();
    assert_eq!(
        statuses,
        vec![ExperimentStatusType::CREATED, ExperimentStatusType::CONCLUDED]
    );
    assert!(cac_client::deserialize_stringified_list("CREATED,NONSENSE").is_err());
}

#[test]
fn dimension_table_skips_uncompilable_schemas() {
    let rows = vec![
        Dimension {
            dimension: s("tier"),
            schema: obj(vec![("type", Value::Str(s("string")))]),
            priority: 1,
        },
        Dimension {
            dimension: s("broken"),
            schema: obj(vec![("type", Value::Num(5))]),
            priority: 2,
        },
    ];
    let table = cac_client::get_all_dimension_schema_map(rows);
    assert_eq!(table.len(), 1);
    assert_eq!(table[0].0, "tier");
    assert_eq!(table[0].2, 1);
}

#[test]
fn default_config_payloads() {
    let p = cac_client::default_config::build_default_config_payload("number", "", "42").unwrap();
    assert!(value_eq(&p.value, &Value::Num(42)));
    assert_eq!(cac_client::text::value_to_text(&p.schema), "{\"type\":\"number\"}");

    let p = cac_client::default_config::build_default_config_payload(
        "enum",
        "[\"android\", \"web\"]",
        "android",
    )
    .unwrap();
    assert_eq!(
        cac_client::text::value_to_text(&p.schema),
        "{\"type\":\"string\",\"enum\":[\"android\",\"web\"]}"
    );
    assert!(value_eq(&p.value, &Value::Str(s("android"))));

    let p = cac_client::default_config::build_default_config_payload("pattern", ".*", "x").unwrap();
    assert_eq!(
        cac_client::text::value_to_text(&p.schema),
        "{\"type\":\"string\",\"pattern\":\".*\"}"
    );

    let p = cac_client::default_config::build_default_config_payload("other", "free", "x").unwrap();
    assert!(value_eq(&p.schema, &Value::Str(s("free"))));

    assert!(cac_client::default_config::build_default_config_payload("number", "", "ten").is_err());
    assert!(cac_client::default_config::build_default_config_payload("enum", "not json", "x").is_err());
}

#[test]
fn trimming() {
    assert_eq!(cac_client::context_form::trim_text("  a b \t"), "a b");
    assert_eq!(cac_client::context_form::trim_text(""), "");
    assert_eq!(cac_client::context_form::trim_text(" \n "), "");
}
