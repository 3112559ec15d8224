//! Experiment request and response records, and the reading of a stringified
//! status-list query parameter.

use vstd::prelude::*;

use crate::text::{comma_free, spec_join, split_commas};
use crate::value::Value;

verus! {

/// Whether a variant is the control or an experimental arm.
#[derive(Clone, Copy, PartialEq, Eq, Structural, Debug)]
pub enum VariantType {
    CONTROL,
    EXPERIMENTAL,
}

/// One arm of an experiment: its id, its role, and the overrides it applies.
pub struct Variant {
    pub id: String,
    pub variant_type: VariantType,
    pub overrides: Value,
}

/// The request that creates an experiment.
pub struct ExperimentCreateRequest {
    pub name: String,
    pub override_keys: Vec<String>,
    pub traffic_percentage: i32,
    pub context: Value,
    pub variants: Vec<Variant>,
}

/// The answer to a creation request: a message and the stored experiment
/// record as a value tree.
pub struct ExperimentCreateResponse {
    pub message: String,
    pub data: Value,
}

/// The lifecycle state of an experiment.
#[derive(Clone, Copy, PartialEq, Eq, Structural, Debug)]
pub enum ExperimentStatusType {
    CREATED,
    INPROGRESS,
    CONCLUDED,
}

/// The filters of a listing request. Timestamps are whole seconds since the
/// Unix epoch.
pub struct ListFilters {
    pub status: Vec<ExperimentStatusType>,
    pub from_date: i64,
    pub to_date: i64,
    pub page: i64,
    pub count: i64,
}

/// The status a name denotes, if any.
pub open spec fn spec_status_of(s: Seq<char>) -> Option<ExperimentStatusType> {
    if s == "CREATED"@ {
        Some(ExperimentStatusType::CREATED)
    } else if s == "INPROGRESS"@ {
        Some(ExperimentStatusType::INPROGRESS)
    } else if s == "CONCLUDED"@ {
        Some(ExperimentStatusType::CONCLUDED)
    } else {
        None
    }
}

/// Parse one status name.
pub fn parse_status(s: &str) -> (r: Option<ExperimentStatusType>)
    ensures
        r == spec_status_of(s@),
{
    if crate::eval::str_eq(s, "CREATED") {
        Some(ExperimentStatusType::CREATED)
    } else if crate::eval::str_eq(s, "INPROGRESS") {
        Some(ExperimentStatusType::INPROGRESS)
    } else if crate::eval::str_eq(s, "CONCLUDED") {
        Some(ExperimentStatusType::CONCLUDED)
    } else {
        None
    }
}

/// Read a comma-separated list of status names. On success the pieces of the
/// input — comma-free, and giving the input back when joined with commas —
/// each name one returned status, in order; any piece that names no status
/// fails the whole read.
#[verifier::loop_isolation(false)]
pub fn deserialize_stringified_list(s: &str) -> (r: Result<Vec<ExperimentStatusType>, String>)
    ensures
        r matches Ok(v) ==> exists|pieces: Seq<Seq<char>>|
            #![auto]
            {
                &&& spec_join(pieces) == s@
                &&& comma_free(pieces)
                &&& pieces.len() == v@.len()
                &&& forall|i: int|
                    0 <= i < pieces.len() ==> spec_status_of(pieces[i]) == Some(v@[i])
            },
{
    let pieces = split_commas(s);
    let ghost pv = pieces@.map_values(|p: String| p@);
    let mut out: Vec<ExperimentStatusType> = Vec::new();
    let mut i: usize = 0;
    while i < pieces.len()
        invariant
            i <= pieces.len(),
            out@.len() == i,
            forall|j: int| 0 <= j < i ==> spec_status_of(pv[j]) == Some(out@[j]),
        decreases pieces.len() - i,
    {
        match parse_status(pieces[i].as_str()) {
            Some(st) => {
                out.push(st);
            },
            None => {
                return Err("unknown status in list".to_owned());
            },
        }
        i += 1;
    }
    proof {
        assert(spec_join(pv) == s@ && comma_free(pv) && pv.len() == out@.len() && forall|j: int|
            0 <= j < pv.len() ==> spec_status_of(pv[j]) == Some(out@[j]));
    }
    Ok(out)
}

} // verus!
