//! Laws of the evaluator and the merge primitive, stated and proved over the
//! same spec functions that the executable functions' contracts use.

use vstd::prelude::*;

use crate::eval::{spec_eval_node, spec_eval_pred, spec_le_op, spec_matches};
use crate::merge::{
    ci_word_eq, lemma_apply_strategies_agree, no_map_values, spec_apply, spec_combine,
    spec_parse_strategy, MergeStrategy,
};
use crate::resolve::{
    spec_apply_context, spec_apply_id, spec_apply_ids, spec_eval_cac, spec_resolve, SpecContext,
};
use crate::value::{
    lemma_om_set_get, om_contains, om_get, om_set, om_wf, SpecEntries, SpecValue,
};

verus! {

/// Applying an overlay never removes a key: whatever the base binds is still
/// bound afterwards.
pub proof fn lemma_apply_preserves_contains(
    bs: SpecEntries,
    os: SpecEntries,
    strategy: MergeStrategy,
    k: Seq<char>,
)
    requires
        om_contains(bs, k),
    ensures
        om_contains(spec_apply(bs, os, strategy), k),
    decreases os.len(),
{
    if os.len() > 0 {
        let bs1 = om_set(bs, os[0].0, spec_combine(om_get(bs, os[0].0), os[0].1, strategy));
        lemma_om_set_get(bs, os[0].0, spec_combine(om_get(bs, os[0].0), os[0].1, strategy), k);
        lemma_apply_preserves_contains(bs1, os.drop_first(), strategy, k);
    }
}

pub proof fn lemma_apply_ids_preserves_contains(
    acc: SpecEntries,
    ids: Seq<Seq<char>>,
    ovr: SpecEntries,
    strategy: MergeStrategy,
    k: Seq<char>,
)
    requires
        om_contains(acc, k),
    ensures
        om_contains(spec_apply_ids(acc, ids, ovr, strategy), k),
    decreases ids.len(),
{
    if ids.len() > 0 {
        let acc1 = spec_apply_id(acc, ids[0], ovr, strategy);
        assert(om_contains(acc1, k)) by {
            match om_get(ovr, ids[0]) {
                Some(SpecValue::Obj(os)) => {
                    lemma_apply_preserves_contains(acc, os, strategy, k);
                },
                _ => {},
            }
        }
        lemma_apply_ids_preserves_contains(acc1, ids.drop_first(), ovr, strategy, k);
    }
}

pub proof fn lemma_resolve_preserves_contains(
    acc: SpecEntries,
    ctxs: Seq<SpecContext>,
    ovr: SpecEntries,
    q: SpecEntries,
    strategy: MergeStrategy,
    k: Seq<char>,
)
    requires
        om_contains(acc, k),
    ensures
        om_contains(spec_resolve(acc, ctxs, ovr, q, strategy), k),
    decreases ctxs.len(),
{
    if ctxs.len() > 0 {
        let acc1 = spec_apply_context(acc, ctxs[0], ovr, q, strategy);
        assert(om_contains(acc1, k)) by {
            if spec_matches(ctxs[0].condition, q) {
                lemma_apply_ids_preserves_contains(
                    acc,
                    ctxs[0].override_with_keys,
                    ovr,
                    strategy,
                    k,
                );
            }
        }
        lemma_resolve_preserves_contains(acc1, ctxs.drop_first(), ovr, q, strategy, k);
    }
}

/// Some override map of the table binds the key.
pub open spec fn overrides_bind(ovr: SpecEntries, k: Seq<char>) -> bool {
    exists|i: int|
        0 <= i < ovr.len() && (#[trigger] ovr[i]).1 is Obj && om_contains(ovr[i].1->Obj_0, k)
}

/// An overlay that does not bind a key leaves that key's value alone.
pub proof fn lemma_apply_untouched(
    bs: SpecEntries,
    os: SpecEntries,
    strategy: MergeStrategy,
    k: Seq<char>,
)
    requires
        !om_contains(os, k),
    ensures
        om_get(spec_apply(bs, os, strategy), k) == om_get(bs, k),
    decreases os.len(),
{
    if os.len() > 0 {
        let bs1 = om_set(bs, os[0].0, spec_combine(om_get(bs, os[0].0), os[0].1, strategy));
        lemma_om_set_get(bs, os[0].0, spec_combine(om_get(bs, os[0].0), os[0].1, strategy), k);
        lemma_apply_untouched(bs1, os.drop_first(), strategy, k);
    }
}

pub proof fn lemma_apply_ids_value_source(
    acc: SpecEntries,
    ids: Seq<Seq<char>>,
    ovr: SpecEntries,
    strategy: MergeStrategy,
    k: Seq<char>,
)
    ensures
        om_get(spec_apply_ids(acc, ids, ovr, strategy), k) == om_get(acc, k) || overrides_bind(
            ovr,
            k,
        ),
    decreases ids.len(),
{
    if ids.len() > 0 {
        let acc1 = spec_apply_id(acc, ids[0], ovr, strategy);
        assert(om_get(acc1, k) == om_get(acc, k) || overrides_bind(ovr, k)) by {
            match om_get(ovr, ids[0]) {
                Some(SpecValue::Obj(os)) => {
                    if om_contains(os, k) {
                        crate::merge::lemma_om_get_is_value(ovr, ids[0]);
                    } else {
                        lemma_apply_untouched(acc, os, strategy, k);
                    }
                },
                _ => {},
            }
        }
        lemma_apply_ids_value_source(acc1, ids.drop_first(), ovr, strategy, k);
    }
}

pub proof fn lemma_resolve_value_source(
    acc: SpecEntries,
    ctxs: Seq<SpecContext>,
    ovr: SpecEntries,
    q: SpecEntries,
    strategy: MergeStrategy,
    k: Seq<char>,
)
    ensures
        om_get(spec_resolve(acc, ctxs, ovr, q, strategy), k) == om_get(acc, k) || overrides_bind(
            ovr,
            k,
        ),
    decreases ctxs.len(),
{
    if ctxs.len() > 0 {
        let acc1 = spec_apply_context(acc, ctxs[0], ovr, q, strategy);
        assert(om_get(acc1, k) == om_get(acc, k) || overrides_bind(ovr, k)) by {
            if spec_matches(ctxs[0].condition, q) {
                lemma_apply_ids_value_source(acc, ctxs[0].override_with_keys, ovr, strategy, k);
            }
        }
        lemma_resolve_value_source(acc1, ctxs.drop_first(), ovr, q, strategy, k);
    }
}

/// Default inclusion: for every query, every key of the defaults is bound in
/// the resolved configuration — with its default value, unless some override
/// map of the table binds the key too.
pub proof fn lemma_default_inclusion(
    defaults: SpecEntries,
    ctxs: Seq<SpecContext>,
    ovr: SpecEntries,
    q: SpecEntries,
    strategy: MergeStrategy,
    k: Seq<char>,
)
    requires
        om_contains(defaults, k),
    ensures
        om_contains(spec_eval_cac(defaults, ctxs, ovr, q, strategy), k),
        om_get(spec_eval_cac(defaults, ctxs, ovr, q, strategy), k) == om_get(defaults, k)
            || overrides_bind(ovr, k),
{
    lemma_resolve_preserves_contains(defaults, ctxs, ovr, q, strategy, k);
    lemma_resolve_value_source(defaults, ctxs, ovr, q, strategy, k);
}

/// No-match stability: when no context's predicate matches the query, the
/// resolved configuration is exactly the defaults.
pub proof fn lemma_no_match_stability(
    defaults: SpecEntries,
    ctxs: Seq<SpecContext>,
    ovr: SpecEntries,
    q: SpecEntries,
    strategy: MergeStrategy,
)
    requires
        forall|i: int| 0 <= i < ctxs.len() ==> !spec_matches((#[trigger] ctxs[i]).condition, q),
    ensures
        spec_eval_cac(defaults, ctxs, ovr, q, strategy) == defaults,
    decreases ctxs.len(),
{
    if ctxs.len() > 0 {
        assert(spec_apply_context(defaults, ctxs[0], ovr, q, strategy) == defaults);
        assert(forall|i: int|
            0 <= i < ctxs.drop_first().len() ==> !spec_matches(
                (#[trigger] ctxs.drop_first()[i]).condition,
                q,
            )) by {
            assert(forall|i: int|
                0 <= i < ctxs.drop_first().len() ==> ctxs.drop_first()[i] == ctxs[i + 1]);
        }
        lemma_no_match_stability(defaults, ctxs.drop_first(), ovr, q, strategy);
    }
}

/// An empty context list resolves to the defaults, for every query and
/// strategy.
pub proof fn lemma_empty_contexts(
    defaults: SpecEntries,
    ovr: SpecEntries,
    q: SpecEntries,
    strategy: MergeStrategy,
)
    ensures
        spec_eval_cac(defaults, Seq::<SpecContext>::empty(), ovr, q, strategy) == defaults,
{
}

/// A context with an empty `override_with_keys` list has no effect on the
/// resolved configuration, whether or not it matches.
pub proof fn lemma_empty_override_ids(
    acc: SpecEntries,
    c: SpecContext,
    ovr: SpecEntries,
    q: SpecEntries,
    strategy: MergeStrategy,
)
    requires
        c.override_with_keys.len() == 0,
    ensures
        spec_apply_context(acc, c, ovr, q, strategy) == acc,
{
}

/// Every override map of the table has only non-map values.
pub open spec fn flat_overrides(ovr: SpecEntries) -> bool {
    forall|i: int|
        0 <= i < ovr.len() ==> ((#[trigger] ovr[i]).1 is Obj ==> no_map_values(ovr[i].1->Obj_0))
}

pub proof fn lemma_apply_ids_strategies_agree(
    acc: SpecEntries,
    ids: Seq<Seq<char>>,
    ovr: SpecEntries,
)
    requires
        no_map_values(acc),
        flat_overrides(ovr),
    ensures
        spec_apply_ids(acc, ids, ovr, MergeStrategy::MERGE) == spec_apply_ids(
            acc,
            ids,
            ovr,
            MergeStrategy::REPLACE,
        ),
        no_map_values(spec_apply_ids(acc, ids, ovr, MergeStrategy::REPLACE)),
    decreases ids.len(),
{
    if ids.len() > 0 {
        let acc1 = spec_apply_id(acc, ids[0], ovr, MergeStrategy::REPLACE);
        assert(spec_apply_id(acc, ids[0], ovr, MergeStrategy::MERGE) == acc1 && no_map_values(
            acc1,
        )) by {
            match om_get(ovr, ids[0]) {
                Some(SpecValue::Obj(os)) => {
                    crate::merge::lemma_om_get_is_value(ovr, ids[0]);
                    let w = choose|i: int|
                        0 <= i < ovr.len() && #[trigger] ovr[i].1 == om_get(ovr, ids[0])->Some_0;
                    assert(no_map_values(os));
                    lemma_apply_strategies_agree(acc, os);
                },
                _ => {},
            }
        }
        lemma_apply_ids_strategies_agree(acc1, ids.drop_first(), ovr);
    }
}

pub proof fn lemma_resolve_strategies_agree(
    acc: SpecEntries,
    ctxs: Seq<SpecContext>,
    ovr: SpecEntries,
    q: SpecEntries,
)
    requires
        no_map_values(acc),
        flat_overrides(ovr),
    ensures
        spec_resolve(acc, ctxs, ovr, q, MergeStrategy::MERGE) == spec_resolve(
            acc,
            ctxs,
            ovr,
            q,
            MergeStrategy::REPLACE,
        ),
        no_map_values(spec_resolve(acc, ctxs, ovr, q, MergeStrategy::REPLACE)),
    decreases ctxs.len(),
{
    if ctxs.len() > 0 {
        let acc1 = spec_apply_context(acc, ctxs[0], ovr, q, MergeStrategy::REPLACE);
        assert(spec_apply_context(acc, ctxs[0], ovr, q, MergeStrategy::MERGE) == acc1
            && no_map_values(acc1)) by {
            if spec_matches(ctxs[0].condition, q) {
                lemma_apply_ids_strategies_agree(acc, ctxs[0].override_with_keys, ovr);
            }
        }
        lemma_resolve_strategies_agree(acc1, ctxs.drop_first(), ovr, q);
    }
}

/// Strategy subsumption on non-map values: when neither the defaults nor any
/// override map holds a map value, MERGE and REPLACE resolve identically.
pub proof fn lemma_strategy_subsumption(
    defaults: SpecEntries,
    ctxs: Seq<SpecContext>,
    ovr: SpecEntries,
    q: SpecEntries,
)
    requires
        no_map_values(defaults),
        flat_overrides(ovr),
    ensures
        spec_eval_cac(defaults, ctxs, ovr, q, MergeStrategy::MERGE) == spec_eval_cac(
            defaults,
            ctxs,
            ovr,
            q,
            MergeStrategy::REPLACE,
        ),
{
    lemma_resolve_strategies_agree(defaults, ctxs, ovr, q);
}

/// Parsing the canonical name of a strategy yields that strategy back.
pub proof fn lemma_strategy_text_parses(strategy: MergeStrategy)
    ensures
        spec_parse_strategy(strategy.spec_text()) == strategy,
{
    reveal_strlit("merge");
    reveal_strlit("replace");
    assert("merge"@.len() == 5);
    assert("replace"@.len() == 7);
}

/// Parsing a strategy name and re-serializing it normalizes the casing:
/// any spelling of `replace` serializes to `"replace"`, any spelling of
/// `merge` to `"merge"`.
pub proof fn lemma_strategy_parse_normalizes(s: Seq<char>)
    ensures
        ci_word_eq(s, "replace"@) ==> spec_parse_strategy(s).spec_text() == "replace"@,
        ci_word_eq(s, "merge"@) ==> spec_parse_strategy(s).spec_text() == "merge"@,
{
    reveal_strlit("merge");
    reveal_strlit("replace");
    assert("merge"@.len() == 5);
    assert("replace"@.len() == 7);
}

/// A range test over three evaluated operands of which any one is not a
/// number evaluates to exactly `false` (not an error).
pub proof fn lemma_le_non_numeric_false(
    args: Seq<SpecValue>,
    q: SpecEntries,
    lo: SpecValue,
    x: SpecValue,
    hi: SpecValue,
)
    requires
        args.len() == 3,
        spec_eval_pred(args[0], q) == Some(lo),
        spec_eval_pred(args[1], q) == Some(x),
        spec_eval_pred(args[2], q) == Some(hi),
        !(lo is Num) || !(x is Num) || !(hi is Num),
    ensures
        spec_eval_node("<="@, SpecValue::Arr(args), q) == Some(SpecValue::Bool(false)),
{
    reveal_strlit("var");
    reveal_strlit("==");
    reveal_strlit("and");
    reveal_strlit("or");
    reveal_strlit("<=");
    assert("<="@.len() == 2 && "var"@.len() == 3 && "and"@.len() == 3 && "or"@.len() == 2);
    assert("<="@ != "var"@ && "<="@ != "and"@);
    assert("<="@[0] == '<' && "=="@[0] == '=' && "or"@[0] == 'o');
    assert("<="@ != "=="@ && "<="@ != "or"@);
    assert(!spec_le_op(lo, x, hi));
}

/// Applying an overlay keeps keys pairwise distinct.
pub proof fn lemma_apply_wf(bs: SpecEntries, os: SpecEntries, strategy: MergeStrategy)
    requires
        om_wf(bs),
    ensures
        om_wf(spec_apply(bs, os, strategy)),
    decreases os.len(),
{
    if os.len() > 0 {
        let v = spec_combine(om_get(bs, os[0].0), os[0].1, strategy);
        crate::value::lemma_om_set_wf(bs, os[0].0, v);
        lemma_apply_wf(om_set(bs, os[0].0, v), os.drop_first(), strategy);
    }
}

pub proof fn lemma_apply_ids_wf(
    acc: SpecEntries,
    ids: Seq<Seq<char>>,
    ovr: SpecEntries,
    strategy: MergeStrategy,
)
    requires
        om_wf(acc),
    ensures
        om_wf(spec_apply_ids(acc, ids, ovr, strategy)),
    decreases ids.len(),
{
    if ids.len() > 0 {
        let acc1 = spec_apply_id(acc, ids[0], ovr, strategy);
        assert(om_wf(acc1)) by {
            match om_get(ovr, ids[0]) {
                Some(SpecValue::Obj(os)) => {
                    lemma_apply_wf(acc, os, strategy);
                },
                _ => {},
            }
        }
        lemma_apply_ids_wf(acc1, ids.drop_first(), ovr, strategy);
    }
}

/// The resolver never repeats a key: when the defaults bind each key once,
/// so does the resolved configuration, for every query and strategy.
pub proof fn lemma_resolve_wf(
    defaults: SpecEntries,
    ctxs: Seq<SpecContext>,
    ovr: SpecEntries,
    q: SpecEntries,
    strategy: MergeStrategy,
)
    requires
        om_wf(defaults),
    ensures
        om_wf(spec_eval_cac(defaults, ctxs, ovr, q, strategy)),
    decreases ctxs.len(),
{
    if ctxs.len() > 0 {
        let acc1 = spec_apply_context(defaults, ctxs[0], ovr, q, strategy);
        assert(om_wf(acc1)) by {
            if spec_matches(ctxs[0].condition, q) {
                lemma_apply_ids_wf(defaults, ctxs[0].override_with_keys, ovr, strategy);
            }
        }
        lemma_resolve_wf(acc1, ctxs.drop_first(), ovr, q, strategy);
    }
}

} // verus!
