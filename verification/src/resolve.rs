//! The context resolver: starting from the defaults, walk the contexts in
//! document order, and for each context whose predicate matches the query
//! apply its override maps onto the running result under the chosen merge
//! strategy. A context that names a missing override id, or an override
//! entry that is not a map, is skipped; evaluation always completes.

use vstd::prelude::*;

use crate::eval::{eval_predicate, spec_matches};
use crate::merge::{apply_overlay, no_map_values, spec_apply, MergeStrategy};
use crate::value::{
    group_sval, map_clone, map_get, map_view, om_contains, om_get, sval, sval_entries,
    SpecEntries, SpecValue, Value,
};

verus! {

/// One predicate-guarded set of overrides. `override_with_keys` names, in
/// application order, the override maps of the document that the context
/// applies when its condition matches.
pub struct Context {
    pub condition: Value,
    pub override_with_keys: Vec<String>,
}

/// The mathematical model of a [`Context`].
pub struct SpecContext {
    pub condition: SpecValue,
    pub override_with_keys: Seq<Seq<char>>,
}

impl View for Context {
    type V = SpecContext;

    open spec fn view(&self) -> SpecContext {
        SpecContext {
            condition: self.condition@,
            override_with_keys: self.override_with_keys@.map_values(|s: String| s@),
        }
    }
}

/// The model of a context list.
pub open spec fn ctxs_view(s: Seq<Context>) -> Seq<SpecContext> {
    s.map_values(|c: Context| c@)
}

/// Apply one override id: look the id up in the overrides table and apply
/// the map found there. A missing id or a non-map value is skipped.
pub open spec fn spec_apply_id(
    acc: SpecEntries,
    id: Seq<char>,
    ovr: SpecEntries,
    strategy: MergeStrategy,
) -> SpecEntries {
    match om_get(ovr, id) {
        Some(SpecValue::Obj(os)) => spec_apply(acc, os, strategy),
        _ => acc,
    }
}

/// Apply a context's override ids in listed order.
pub open spec fn spec_apply_ids(
    acc: SpecEntries,
    ids: Seq<Seq<char>>,
    ovr: SpecEntries,
    strategy: MergeStrategy,
) -> SpecEntries
    decreases ids.len(),
{
    if ids.len() == 0 {
        acc
    } else {
        spec_apply_ids(spec_apply_id(acc, ids[0], ovr, strategy), ids.drop_first(), ovr, strategy)
    }
}

/// Apply one context: nothing unless its predicate matches the query.
pub open spec fn spec_apply_context(
    acc: SpecEntries,
    c: SpecContext,
    ovr: SpecEntries,
    q: SpecEntries,
    strategy: MergeStrategy,
) -> SpecEntries {
    if spec_matches(c.condition, q) {
        spec_apply_ids(acc, c.override_with_keys, ovr, strategy)
    } else {
        acc
    }
}

/// Fold the context list over the accumulator, in document order.
pub open spec fn spec_resolve(
    acc: SpecEntries,
    ctxs: Seq<SpecContext>,
    ovr: SpecEntries,
    q: SpecEntries,
    strategy: MergeStrategy,
) -> SpecEntries
    decreases ctxs.len(),
{
    if ctxs.len() == 0 {
        acc
    } else {
        spec_resolve(
            spec_apply_context(acc, ctxs[0], ovr, q, strategy),
            ctxs.drop_first(),
            ovr,
            q,
            strategy,
        )
    }
}

/// The resolved configuration: the defaults with every matching context's
/// overrides applied in document order.
pub open spec fn spec_eval_cac(
    defaults: SpecEntries,
    ctxs: Seq<SpecContext>,
    ovr: SpecEntries,
    q: SpecEntries,
    strategy: MergeStrategy,
) -> SpecEntries {
    spec_resolve(defaults, ctxs, ovr, q, strategy)
}

pub proof fn lemma_apply_ids_push(
    acc: SpecEntries,
    ids: Seq<Seq<char>>,
    e: Seq<char>,
    ovr: SpecEntries,
    strategy: MergeStrategy,
)
    ensures
        spec_apply_ids(acc, ids.push(e), ovr, strategy) == spec_apply_id(
            spec_apply_ids(acc, ids, ovr, strategy),
            e,
            ovr,
            strategy,
        ),
    decreases ids.len(),
{
    reveal_with_fuel(spec_apply_ids, 3);
    let t = ids.push(e);
    if ids.len() == 0 {
        assert(t[0] == e);
        assert(t.drop_first() =~= Seq::<Seq<char>>::empty());
    } else {
        assert(t[0] == ids[0]);
        assert(t.drop_first() =~= ids.drop_first().push(e));
        lemma_apply_ids_push(
            spec_apply_id(acc, ids[0], ovr, strategy),
            ids.drop_first(),
            e,
            ovr,
            strategy,
        );
    }
}

pub proof fn lemma_resolve_push(
    acc: SpecEntries,
    ctxs: Seq<SpecContext>,
    c: SpecContext,
    ovr: SpecEntries,
    q: SpecEntries,
    strategy: MergeStrategy,
)
    ensures
        spec_resolve(acc, ctxs.push(c), ovr, q, strategy) == spec_apply_context(
            spec_resolve(acc, ctxs, ovr, q, strategy),
            c,
            ovr,
            q,
            strategy,
        ),
    decreases ctxs.len(),
{
    reveal_with_fuel(spec_resolve, 3);
    let t = ctxs.push(c);
    if ctxs.len() == 0 {
        assert(t[0] == c);
        assert(t.drop_first() =~= Seq::<SpecContext>::empty());
    } else {
        assert(t[0] == ctxs[0]);
        assert(t.drop_first() =~= ctxs.drop_first().push(c));
        lemma_resolve_push(
            spec_apply_context(acc, ctxs[0], ovr, q, strategy),
            ctxs.drop_first(),
            c,
            ovr,
            q,
            strategy,
        );
    }
}

/// Apply the override ids of one context onto the accumulator.
#[verifier::loop_isolation(false)]
fn apply_context_ids(
    resolved: &mut Vec<(String, Value)>,
    ids: &Vec<String>,
    overrides: &Vec<(String, Value)>,
    strategy: MergeStrategy,
)
    ensures
        map_view(*final(resolved)) == spec_apply_ids(
            map_view(*old(resolved)),
            ids@.map_values(|s: String| s@),
            map_view(*overrides),
            strategy,
        ),
{
    broadcast use group_sval;

    let ghost acc0 = map_view(*old(resolved));
    let ghost idv = ids@.map_values(|s: String| s@);
    let ghost ovr = map_view(*overrides);
    let mut j: usize = 0;
    while j < ids.len()
        invariant
            j <= ids.len(),
            map_view(*resolved) == spec_apply_ids(acc0, idv.take(j as int), ovr, strategy),
        decreases ids.len() - j,
    {
        let id = &ids[j];
        let ghost before = map_view(*resolved);
        match map_get(overrides, id) {
            Some(ov) => {
                match ov {
                    Value::Obj(os) => {
                        apply_overlay(resolved, os, strategy);
                    },
                    _ => {},
                }
            },
            None => {},
        }
        proof {
            assert(map_view(*resolved) == spec_apply_id(before, idv[j as int], ovr, strategy));
            lemma_apply_ids_push(acc0, idv.take(j as int), idv[j as int], ovr, strategy);
            assert(idv.take(j as int).push(idv[j as int]) =~= idv.take(j as int + 1));
        }
        j += 1;
    }
    proof {
        assert(idv.take(ids@.len() as int) =~= idv);
    }
}

/// Resolve a configuration: apply onto `default_configs` the overrides of
/// every context whose predicate matches `query_data`, in document order,
/// under `merge_strategy`. Contexts that do not match, missing override ids
/// and non-map override entries are skipped; resolution never fails.
#[verifier::loop_isolation(false)]
pub fn eval_cac(
    default_configs: Vec<(String, Value)>,
    contexts: &Vec<Context>,
    overrides: &Vec<(String, Value)>,
    query_data: &Vec<(String, Value)>,
    merge_strategy: MergeStrategy,
) -> (r: Result<Vec<(String, Value)>, String>)
    ensures
        r is Ok,
        map_view(r->Ok_0) == spec_eval_cac(
            map_view(default_configs),
            ctxs_view(contexts@),
            map_view(*overrides),
            map_view(*query_data),
            merge_strategy,
        ),
{
    broadcast use group_sval;

    let ghost d0 = map_view(default_configs);
    let ghost cv = ctxs_view(contexts@);
    let ghost ovr = map_view(*overrides);
    let ghost qv = map_view(*query_data);
    let mut resolved = default_configs;
    let mut i: usize = 0;
    while i < contexts.len()
        invariant
            i <= contexts.len(),
            map_view(resolved) == spec_resolve(d0, cv.take(i as int), ovr, qv, merge_strategy),
        decreases contexts.len() - i,
    {
        let c = &contexts[i];
        let ghost before = map_view(resolved);
        let matched = match eval_predicate(&c.condition, query_data) {
            Some(v) => v.truthy(),
            None => false,
        };
        if matched {
            apply_context_ids(&mut resolved, &c.override_with_keys, overrides, merge_strategy);
        }
        proof {
            assert(map_view(resolved) == spec_apply_context(
                before,
                cv[i as int],
                ovr,
                qv,
                merge_strategy,
            ));
            lemma_resolve_push(d0, cv.take(i as int), cv[i as int], ovr, qv, merge_strategy);
            assert(cv.take(i as int).push(cv[i as int]) =~= cv.take(i as int + 1));
        }
        i += 1;
    }
    proof {
        assert(cv.take(contexts@.len() as int) =~= cv);
    }
    Ok(resolved)
}

/// The reasoning entries of one override map: each of its keys marked with
/// the override id that supplied the key's value.
pub open spec fn spec_marked(os: SpecEntries, id: Seq<char>) -> SpecEntries {
    os.map_values(|p: (Seq<char>, SpecValue)| (p.0, SpecValue::Str(id)))
}

/// Record attribution for one override id.
pub open spec fn spec_reason_id(reason: SpecEntries, id: Seq<char>, ovr: SpecEntries) -> SpecEntries {
    match om_get(ovr, id) {
        Some(SpecValue::Obj(os)) => spec_apply(reason, spec_marked(os, id), MergeStrategy::REPLACE),
        _ => reason,
    }
}

pub open spec fn spec_reason_ids(reason: SpecEntries, ids: Seq<Seq<char>>, ovr: SpecEntries) -> SpecEntries
    decreases ids.len(),
{
    if ids.len() == 0 {
        reason
    } else {
        spec_reason_ids(spec_reason_id(reason, ids[0], ovr), ids.drop_first(), ovr)
    }
}

pub open spec fn spec_reason_context(
    reason: SpecEntries,
    c: SpecContext,
    ovr: SpecEntries,
    q: SpecEntries,
) -> SpecEntries {
    if spec_matches(c.condition, q) {
        spec_reason_ids(reason, c.override_with_keys, ovr)
    } else {
        reason
    }
}

/// The reasoning trace: each resolved key mapped to the id of the override
/// that last wrote it (final-writer wins), walking the matching contexts in
/// document order.
pub open spec fn spec_reasoning(
    reason: SpecEntries,
    ctxs: Seq<SpecContext>,
    ovr: SpecEntries,
    q: SpecEntries,
) -> SpecEntries
    decreases ctxs.len(),
{
    if ctxs.len() == 0 {
        reason
    } else {
        spec_reasoning(spec_reason_context(reason, ctxs[0], ovr, q), ctxs.drop_first(), ovr, q)
    }
}

pub proof fn lemma_reason_ids_push(
    reason: SpecEntries,
    ids: Seq<Seq<char>>,
    e: Seq<char>,
    ovr: SpecEntries,
)
    ensures
        spec_reason_ids(reason, ids.push(e), ovr) == spec_reason_id(
            spec_reason_ids(reason, ids, ovr),
            e,
            ovr,
        ),
    decreases ids.len(),
{
    reveal_with_fuel(spec_reason_ids, 3);
    let t = ids.push(e);
    if ids.len() == 0 {
        assert(t[0] == e);
        assert(t.drop_first() =~= Seq::<Seq<char>>::empty());
    } else {
        assert(t[0] == ids[0]);
        assert(t.drop_first() =~= ids.drop_first().push(e));
        lemma_reason_ids_push(spec_reason_id(reason, ids[0], ovr), ids.drop_first(), e, ovr);
    }
}

pub proof fn lemma_reasoning_push(
    reason: SpecEntries,
    ctxs: Seq<SpecContext>,
    c: SpecContext,
    ovr: SpecEntries,
    q: SpecEntries,
)
    ensures
        spec_reasoning(reason, ctxs.push(c), ovr, q) == spec_reason_context(
            spec_reasoning(reason, ctxs, ovr, q),
            c,
            ovr,
            q,
        ),
    decreases ctxs.len(),
{
    reveal_with_fuel(spec_reasoning, 3);
    let t = ctxs.push(c);
    if ctxs.len() == 0 {
        assert(t[0] == c);
        assert(t.drop_first() =~= Seq::<SpecContext>::empty());
    } else {
        assert(t[0] == ctxs[0]);
        assert(t.drop_first() =~= ctxs.drop_first().push(c));
        lemma_reasoning_push(spec_reason_context(reason, ctxs[0], ovr, q), ctxs.drop_first(), c, ovr, q);
    }
}

/// Build the marked reasoning overlay for one override map.
#[verifier::loop_isolation(false)]
fn marked_overlay(os: &Vec<(String, Value)>, id: &String) -> (r: Vec<(String, Value)>)
    ensures
        map_view(r) == spec_marked(map_view(*os), id@),
{
    broadcast use group_sval;

    let mut out: Vec<(String, Value)> = Vec::new();
    let ghost osv = map_view(*os);
    proof {
        crate::value::lemma_sval_entries_len(os@);
    }
    let mut i: usize = 0;
    while i < os.len()
        invariant
            i <= os.len(),
            out@.len() == i,
            forall|j: int|
                0 <= j < i ==> (#[trigger] out@[j]).0@ == osv[j].0 && sval(out@[j].1)
                    == SpecValue::Str(id@),
        decreases os.len() - i,
    {
        proof {
            crate::value::lemma_sval_entries_index(os@, i as int);
        }
        out.push((os[i].0.clone(), Value::Str(id.clone())));
        i += 1;
    }
    proof {
        assert(map_view(out) =~= spec_marked(osv, id@));
    }
    out
}

/// Record attribution for the override ids of one matching context.
#[verifier::loop_isolation(false)]
fn reason_context_ids(
    reason: &mut Vec<(String, Value)>,
    ids: &Vec<String>,
    overrides: &Vec<(String, Value)>,
)
    ensures
        map_view(*final(reason)) == spec_reason_ids(
            map_view(*old(reason)),
            ids@.map_values(|s: String| s@),
            map_view(*overrides),
        ),
{
    broadcast use group_sval;

    let ghost r0 = map_view(*old(reason));
    let ghost idv = ids@.map_values(|s: String| s@);
    let ghost ovr = map_view(*overrides);
    let mut j: usize = 0;
    while j < ids.len()
        invariant
            j <= ids.len(),
            map_view(*reason) == spec_reason_ids(r0, idv.take(j as int), ovr),
        decreases ids.len() - j,
    {
        let id = &ids[j];
        let ghost before = map_view(*reason);
        match map_get(overrides, id) {
            Some(ov) => {
                match ov {
                    Value::Obj(os) => {
                        let marked = marked_overlay(os, id);
                        apply_overlay(reason, &marked, MergeStrategy::REPLACE);
                    },
                    _ => {},
                }
            },
            None => {},
        }
        proof {
            assert(map_view(*reason) == spec_reason_id(before, idv[j as int], ovr));
            lemma_reason_ids_push(r0, idv.take(j as int), idv[j as int], ovr);
            assert(idv.take(j as int).push(idv[j as int]) =~= idv.take(j as int + 1));
        }
        j += 1;
    }
    proof {
        assert(idv.take(ids@.len() as int) =~= idv);
    }
}

/// Resolve a configuration and also report, for each key that some applied
/// override supplied, the id of the override map that wrote its final value.
#[verifier::loop_isolation(false)]
pub fn eval_cac_with_reasoning(
    default_configs: Vec<(String, Value)>,
    contexts: &Vec<Context>,
    overrides: &Vec<(String, Value)>,
    query_data: &Vec<(String, Value)>,
    merge_strategy: MergeStrategy,
) -> (r: Result<(Vec<(String, Value)>, Vec<(String, Value)>), String>)
    ensures
        r is Ok,
        map_view(r->Ok_0.0) == spec_eval_cac(
            map_view(default_configs),
            ctxs_view(contexts@),
            map_view(*overrides),
            map_view(*query_data),
            merge_strategy,
        ),
        map_view(r->Ok_0.1) == spec_reasoning(
            Seq::<(Seq<char>, SpecValue)>::empty(),
            ctxs_view(contexts@),
            map_view(*overrides),
            map_view(*query_data),
        ),
{
    broadcast use group_sval;

    let ghost d0 = map_view(default_configs);
    let ghost cv = ctxs_view(contexts@);
    let ghost ovr = map_view(*overrides);
    let ghost qv = map_view(*query_data);
    let mut resolved = default_configs;
    let mut reason: Vec<(String, Value)> = Vec::new();
    let mut i: usize = 0;
    while i < contexts.len()
        invariant
            i <= contexts.len(),
            map_view(resolved) == spec_resolve(d0, cv.take(i as int), ovr, qv, merge_strategy),
            map_view(reason) == spec_reasoning(
                Seq::<(Seq<char>, SpecValue)>::empty(),
                cv.take(i as int),
                ovr,
                qv,
            ),
        decreases contexts.len() - i,
    {
        let c = &contexts[i];
        let ghost before = map_view(resolved);
        let ghost rbefore = map_view(reason);
        let matched = match eval_predicate(&c.condition, query_data) {
            Some(v) => v.truthy(),
            None => false,
        };
        if matched {
            apply_context_ids(&mut resolved, &c.override_with_keys, overrides, merge_strategy);
            reason_context_ids(&mut reason, &c.override_with_keys, overrides);
        }
        proof {
            assert(map_view(resolved) == spec_apply_context(
                before,
                cv[i as int],
                ovr,
                qv,
                merge_strategy,
            ));
            assert(map_view(reason) == spec_reason_context(rbefore, cv[i as int], ovr, qv));
            lemma_resolve_push(d0, cv.take(i as int), cv[i as int], ovr, qv, merge_strategy);
            lemma_reasoning_push(
                Seq::<(Seq<char>, SpecValue)>::empty(),
                cv.take(i as int),
                cv[i as int],
                ovr,
                qv,
            );
            assert(cv.take(i as int).push(cv[i as int]) =~= cv.take(i as int + 1));
        }
        i += 1;
    }
    proof {
        assert(cv.take(contexts@.len() as int) =~= cv);
    }
    Ok((resolved, reason))
}

} // verus!
