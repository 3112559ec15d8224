//! Building a default-configuration entry from the pieces an authoring form
//! collects: a type selector, a pattern text, and a value text.

use vstd::prelude::*;

use crate::codec::{json_parsed, parse_json};
use crate::text::{parse_i64, spec_parse_int};
use crate::value::{group_sval, sval_entries, SpecValue, Value};

verus! {

/// The payload that creates one default-configuration key: the value and the
/// schema that future values of the key must satisfy.
pub struct DefaultConfigCreateReq {
    pub schema: Value,
    pub value: Value,
}

/// The value a form submits: a number field parses as a decimal integer,
/// every other field is the raw text.
pub open spec fn spec_form_value(config_type: Seq<char>, config_value: Seq<char>) -> Option<
    SpecValue,
> {
    if config_type == "number"@ {
        match spec_parse_int(config_value) {
            Some(n) => Some(SpecValue::Num(n)),
            None => None,
        }
    } else {
        Some(SpecValue::Str(config_value))
    }
}

/// The schema a form submits: numbers get `{"type":"number"}`; an enum field
/// gets `{"type":"string","enum": <the pattern read as JSON>}`; a pattern
/// field gets `{"type":"string","pattern": <the pattern>}`; anything else
/// stores the pattern text itself as the schema.
pub open spec fn spec_form_schema(config_type: Seq<char>, config_pattern: Seq<char>) -> Option<
    SpecValue,
> {
    if config_type == "number"@ {
        Some(SpecValue::Obj(seq![("type"@, SpecValue::Str("number"@))]))
    } else if config_type == "enum"@ {
        match json_parsed(config_pattern) {
            Some(SpecValue::Arr(items)) => Some(
                SpecValue::Obj(
                    seq![
                        ("type"@, SpecValue::Str("string"@)),
                        ("enum"@, SpecValue::Arr(items)),
                    ],
                ),
            ),
            _ => None,
        }
    } else if config_type == "pattern"@ {
        Some(
            SpecValue::Obj(
                seq![
                    ("type"@, SpecValue::Str("string"@)),
                    ("pattern"@, SpecValue::Str(config_pattern)),
                ],
            ),
        )
    } else {
        Some(SpecValue::Str(config_pattern))
    }
}

/// Build the creation payload from the form fields. Fails on a number field
/// whose value is not a decimal integer in `i64`, and on an enum field whose
/// pattern is not a JSON array.
pub fn build_default_config_payload(
    config_type: &str,
    config_pattern: &str,
    config_value: &str,
) -> (r: Result<DefaultConfigCreateReq, String>)
    ensures
        r matches Ok(p) ==> {
            &&& spec_form_value(config_type@, config_value@) == Some(p.value@)
            &&& spec_form_schema(config_type@, config_pattern@) == Some(p.schema@)
        },
        r is Err ==> spec_form_value(config_type@, config_value@) is None || spec_form_schema(
            config_type@,
            config_pattern@,
        ) is None || (spec_parse_int(config_value@) matches Some(n) && (n > i64::MAX || n
            < i64::MIN)),
{
    broadcast use group_sval;

    let value: Value = if crate::eval::str_eq(config_type, "number") {
        match parse_i64(config_value) {
            Some(n) => Value::Num(n),
            None => {
                return Err("value is not an integer".to_owned());
            },
        }
    } else {
        Value::Str(config_value.to_owned())
    };
    let schema: Value = if crate::eval::str_eq(config_type, "number") {
        let mut entries: Vec<(String, Value)> = Vec::new();
        entries.push(("type".to_owned(), Value::Str("number".to_owned())));
        proof {
            assert(sval_entries(entries@) =~= seq![("type"@, SpecValue::Str("number"@))]);
        }
        Value::Obj(entries)
    } else if crate::eval::str_eq(config_type, "enum") {
        let items = match parse_json(config_pattern) {
            Some(Value::Arr(items)) => items,
            _ => {
                return Err("enum pattern is not a JSON array".to_owned());
            },
        };
        let ghost itemsv = crate::value::sval_seq(items@);
        let mut entries: Vec<(String, Value)> = Vec::new();
        entries.push(("type".to_owned(), Value::Str("string".to_owned())));
        entries.push(("enum".to_owned(), Value::Arr(items)));
        proof {
            assert(sval_entries(entries@) =~= seq![
                ("type"@, SpecValue::Str("string"@)),
                ("enum"@, SpecValue::Arr(itemsv)),
            ]);
        }
        Value::Obj(entries)
    } else if crate::eval::str_eq(config_type, "pattern") {
        let mut entries: Vec<(String, Value)> = Vec::new();
        entries.push(("type".to_owned(), Value::Str("string".to_owned())));
        entries.push(("pattern".to_owned(), Value::Str(config_pattern.to_owned())));
        proof {
            assert(sval_entries(entries@) =~= seq![
                ("type"@, SpecValue::Str("string"@)),
                ("pattern"@, SpecValue::Str(config_pattern@)),
            ]);
        }
        Value::Obj(entries)
    } else {
        Value::Str(config_pattern.to_owned())
    };
    Ok(DefaultConfigCreateReq { schema, value })
}

} // verus!
