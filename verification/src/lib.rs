//! A context-aware configuration engine and polling-client core. A tenant's
//! configuration document holds default key/value pairs, predicate-guarded
//! contexts carrying overrides, and an overrides table; the evaluator
//! resolves, for any query, the fully merged configuration. The client keeps
//! one tenant's snapshot current from conditional HTTP responses the host
//! feeds it, and the factory shares one client per tenant.

pub mod client;
pub mod codec;
pub mod condition;
pub mod context_form;
pub mod default_config;
pub mod dimension;
pub mod eval;
pub mod experiments;
pub mod factory;
pub mod laws;
pub mod merge;
pub mod resolve;
pub mod text;
pub mod timefmt;
pub mod value;

pub use client::{Client, Config, RefreshOutcome};
pub use condition::{Condition, ConditionOperator};
pub use context_form::{construct_context, construct_request_payload, get_condition_schema};
pub use dimension::{get_all_dimension_schema_map, Dimension};
pub use experiments::{
    deserialize_stringified_list, ExperimentCreateRequest, ExperimentCreateResponse, ListFilters,
    Variant, VariantType,
};
pub use factory::ClientFactory;
pub use merge::{merge, MergeStrategy};
pub use resolve::{eval_cac, eval_cac_with_reasoning, Context};
pub use value::Value;
