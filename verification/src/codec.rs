//! Reading JSON text into the library's values. Parsing itself is done by
//! serde_json and trusted; everything after the parse is verified.

use vstd::prelude::*;

use serde_json::Value as JsonTree;

use crate::value::{wf_spec_value, SpecValue, Value};

verus! {

#[verifier::external_type_specification]
#[verifier::external_body]
pub struct ExJsonValue(JsonTree);

/// The value a JSON text parses to, if any: a function of the text alone.
/// A text that is not valid JSON, or whose numbers do not all fit in `i64`,
/// parses to nothing.
pub uninterp spec fn json_parsed(s: Seq<char>) -> Option<SpecValue>;

/// Convert serde_json's tree into the library's [`Value`], one constructor
/// for one constructor; a number outside `i64` fails the conversion. Called
/// only by [`parse_json`] below, on what serde_json just parsed.
#[verifier::external_body]
fn to_value(v: JsonTree) -> (r: Option<Value>) {
    match v {
        JsonTree::Null => Some(Value::Null),
        JsonTree::Bool(b) => Some(Value::Bool(b)),
        JsonTree::Number(n) => n.as_i64().map(Value::Num),
        JsonTree::String(s) => Some(Value::Str(s)),
        JsonTree::Array(items) => items.into_iter().map(to_value).collect::<
            Option<Vec<Value>>,
        >().map(Value::Arr),
        JsonTree::Object(entries) => entries.into_iter().map(
            |(k, x)| to_value(x).map(|y| (k, y)),
        ).collect::<Option<Vec<(String, Value)>>>().map(Value::Obj),
    }
}

/// Relies on serde_json::from_str: a JSON text parses to exactly one value
/// tree, determined by the text alone, and the keys inside any one parsed
/// object are distinct (serde_json's maps are maps).
#[verifier::external_body]
pub fn parse_json(s: &str) -> (r: Option<Value>)
    ensures
        match r {
            Some(v) => json_parsed(s@) == Some(v@) && wf_spec_value(v@),
            None => json_parsed(s@) is None,
        },
{
    match serde_json::from_str::<JsonTree>(s) {
        Ok(v) => to_value(v),
        Err(_) => None,
    }
}

} // verus!
