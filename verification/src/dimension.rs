//! Dimensions: named query facets, each carrying a JSON Schema that values
//! of the dimension must satisfy and a priority. Schema compilation is done
//! by the jsonschema crate and trusted; assembling the dimension table is
//! verified.

use vstd::prelude::*;

use serde_json::Value as JsonTree;

use crate::value::Value;

verus! {

/// A compiled Draft 7 schema validator. The validator type itself carries a
/// representation parameter Verus cannot declare, so it is held whole inside
/// this opaque wrapper.
#[verifier::external_body]
pub struct CompiledSchema {
    validator: jsonschema::Validator,
}

/// One dimension row: its name, its schema as a value tree, its priority.
pub struct Dimension {
    pub dimension: String,
    pub schema: Value,
    pub priority: i32,
}

/// Relies on the `From` conversions of serde_json's value type: rebuilds the
/// library's value tree as serde_json's, one constructor for one constructor.
#[verifier::external_body]
fn value_to_json(v: &Value) -> (r: JsonTree) {
    match v {
        Value::Null => JsonTree::Null,
        Value::Bool(b) => JsonTree::Bool(*b),
        Value::Num(n) => JsonTree::from(*n),
        Value::Str(s) => JsonTree::String(s.clone()),
        Value::Arr(items) => JsonTree::Array(items.iter().map(value_to_json).collect()),
        Value::Obj(entries) => JsonTree::Object(
            entries.iter().map(|p| (p.0.clone(), value_to_json(&p.1))).collect(),
        ),
    }
}

/// Relies on jsonschema's `draft7::new`: compiles a schema document into a
/// validator, succeeding exactly when the crate accepts the schema.
#[verifier::external_body]
fn compile_draft7(schema: &JsonTree) -> (r: Option<CompiledSchema>) {
    jsonschema::draft7::new(schema).ok().map(|validator| CompiledSchema { validator })
}

/// Compile one dimension's schema under Draft 7.
fn compile_dimension_schema(schema: &Value) -> (r: Option<CompiledSchema>) {
    let tree = value_to_json(schema);
    compile_draft7(&tree)
}

/// The entry carries the name and priority of one of the rows.
pub open spec fn entry_from_rows(e: (String, CompiledSchema, i32), rows: Seq<Dimension>) -> bool {
    exists|j: int|
        0 <= j < rows.len() && e.0@ == (#[trigger] rows[j]).dimension@ && e.2 == rows[j].priority
}

/// Build the dimension table: for every row whose schema compiles, an entry
/// with the row's name, its compiled validator and its priority, in row
/// order; rows whose schemas do not compile are skipped.
#[verifier::loop_isolation(false)]
pub fn get_all_dimension_schema_map(dimensions_vec: Vec<Dimension>) -> (r: Vec<
    (String, CompiledSchema, i32),
>)
    ensures
        r@.len() <= dimensions_vec@.len(),
        forall|k: int| 0 <= k < r@.len() ==> entry_from_rows(#[trigger] r@[k], dimensions_vec@),
{
    let mut out: Vec<(String, CompiledSchema, i32)> = Vec::new();
    let mut i: usize = 0;
    while i < dimensions_vec.len()
        invariant
            i <= dimensions_vec@.len(),
            out@.len() <= i,
            forall|k: int| 0 <= k < out@.len() ==> entry_from_rows(#[trigger] out@[k], dimensions_vec@),
        decreases dimensions_vec.len() - i,
    {
        let row = &dimensions_vec[i];
        let ghost prev = out@;
        match compile_dimension_schema(&row.schema) {
            Some(compiled) => {
                out.push((row.dimension.clone(), compiled, row.priority));
                proof {
                    assert forall|k: int|
                        0 <= k < out@.len() implies entry_from_rows(
                        #[trigger] out@[k],
                        dimensions_vec@,
                    ) by {
                        if k < prev.len() {
                            assert(out@[k] == prev[k]);
                        } else {
                            assert(out@[k].0@ == (dimensions_vec@[i as int]).dimension@ && out@[k].2
                                == dimensions_vec@[i as int].priority);
                        }
                    }
                }
            },
            None => {},
        }
        i += 1;
    }
    out
}

} // verus!
