//! The merge primitive: combine an overlay map into a base map under one of
//! two strategies. REPLACE writes every overlay value wholesale; MERGE
//! recurses where both sides hold an object and replaces otherwise.

use vstd::prelude::*;

use crate::value::{
    map_clone, map_get, map_insert, map_view, om_get, om_set, sval, sval_entries,
    lemma_om_set_get, group_sval, SpecEntries, SpecValue, Value,
};

verus! {

/// How an overlay value is combined with the value already in place.
#[derive(Clone, Copy, PartialEq, Eq, Structural, Debug)]
pub enum MergeStrategy {
    MERGE,
    REPLACE,
}

impl Default for MergeStrategy {
    /// The default strategy is MERGE.
    fn default() -> (r: Self)
        ensures
            r == MergeStrategy::MERGE,
    {
        MergeStrategy::MERGE
    }
}

/// Case-insensitive equality of one character against a lower-case ASCII
/// reference character.
pub open spec fn ci_char_eq(c: char, w: char) -> bool {
    c == w || (65 <= c as u32 <= 90 && c as u32 + 32 == w as u32)
}

/// Case-insensitive equality of a string against a lower-case ASCII word.
pub open spec fn ci_word_eq(s: Seq<char>, w: Seq<char>) -> bool {
    s.len() == w.len() && forall|i: int| 0 <= i < s.len() ==> ci_char_eq(s[i], #[trigger] w[i])
}

/// Decide [`ci_word_eq`] on string slices.
pub fn str_eq_ignore_ascii_case(s: &str, w: &str) -> (r: bool)
    ensures
        r == ci_word_eq(s@, w@),
{
    let n = s.unicode_len();
    if n != w.unicode_len() {
        return false;
    }
    let mut i: usize = 0;
    while i < n
        invariant
            i <= n,
            n == s@.len(),
            s@.len() == w@.len(),
            forall|j: int| 0 <= j < i ==> ci_char_eq(s@[j], #[trigger] w@[j]),
        decreases n - i,
    {
        let c = s.get_char(i);
        let ref_c = w.get_char(i);
        let cu = c as u32;
        if !(c == ref_c || (65 <= cu && cu <= 90 && cu + 32 == ref_c as u32)) {
            return false;
        }
        i += 1;
    }
    true
}

/// The strategy named by a string: `"replace"` (in any casing) is REPLACE,
/// `"merge"` is MERGE, and any other string falls back to the default, MERGE.
pub open spec fn spec_parse_strategy(s: Seq<char>) -> MergeStrategy {
    if ci_word_eq(s, "replace"@) {
        MergeStrategy::REPLACE
    } else {
        MergeStrategy::MERGE
    }
}

/// Parse a strategy name, case-insensitively; unknown names fall back to MERGE.
pub fn parse_strategy(s: &str) -> (r: MergeStrategy)
    ensures
        r == spec_parse_strategy(s@),
{
    if str_eq_ignore_ascii_case(s, "replace") {
        MergeStrategy::REPLACE
    } else {
        MergeStrategy::MERGE
    }
}

impl From<String> for MergeStrategy {
    fn from(value: String) -> (r: Self) {
        parse_strategy(value.as_str())
    }
}

impl vstd::std_specs::convert::FromSpecImpl<String> for MergeStrategy {
    open spec fn obeys_from_spec() -> bool {
        true
    }

    open spec fn from_spec(s: String) -> Self {
        spec_parse_strategy(s@)
    }
}

impl MergeStrategy {
    /// The canonical lower-case name of the strategy.
    pub open spec fn spec_text(&self) -> Seq<char> {
        match self {
            MergeStrategy::MERGE => "merge"@,
            MergeStrategy::REPLACE => "replace"@,
        }
    }

    /// Render the strategy as its canonical lower-case name.
    pub fn to_text(&self) -> (r: String)
        ensures
            r@ == self.spec_text(),
    {
        match self {
            MergeStrategy::MERGE => "merge".to_owned(),
            MergeStrategy::REPLACE => "replace".to_owned(),
        }
    }
}

/// How one overlay value lands on what the base already binds.
pub open spec fn spec_combine(
    below: Option<SpecValue>,
    over: SpecValue,
    strategy: MergeStrategy,
) -> SpecValue
    decreases over, 1int,
{
    match strategy {
        MergeStrategy::MERGE => match below {
            Some(b) => spec_merge_value(b, over),
            None => over,
        },
        MergeStrategy::REPLACE => over,
    }
}

/// MERGE at the value level: recurse where both sides are objects,
/// otherwise the overlay replaces the base wholesale.
pub open spec fn spec_merge_value(b: SpecValue, o: SpecValue) -> SpecValue
    decreases o, 0int,
{
    match (b, o) {
        (SpecValue::Obj(bs), SpecValue::Obj(os)) => SpecValue::Obj(
            spec_apply(bs, os, MergeStrategy::MERGE),
        ),
        _ => o,
    }
}

/// Apply every overlay entry onto the base, in overlay order.
pub open spec fn spec_apply(
    bs: SpecEntries,
    os: SpecEntries,
    strategy: MergeStrategy,
) -> SpecEntries
    decreases os, 2int,
{
    if os.len() == 0 {
        bs
    } else {
        spec_apply(
            om_set(bs, os[0].0, spec_combine(om_get(bs, os[0].0), os[0].1, strategy)),
            os.drop_first(),
            strategy,
        )
    }
}

/// A left fold can be peeled at the back: applying `os.push(e)` is applying
/// `os` and then the one entry `e`.
pub proof fn lemma_apply_push(bs: SpecEntries, os: SpecEntries, e: (Seq<char>, SpecValue), strategy: MergeStrategy)
    ensures
        spec_apply(bs, os.push(e), strategy) == om_set(
            spec_apply(bs, os, strategy),
            e.0,
            spec_combine(om_get(spec_apply(bs, os, strategy), e.0), e.1, strategy),
        ),
    decreases os.len(),
{
    reveal_with_fuel(spec_apply, 3);
    let t = os.push(e);
    if os.len() == 0 {
        assert(t[0] == e);
        assert(t.drop_first() =~= Seq::<(Seq<char>, SpecValue)>::empty());
    } else {
        assert(t[0] == os[0]);
        assert(t.drop_first() =~= os.drop_first().push(e));
        lemma_apply_push(
            om_set(bs, os[0].0, spec_combine(om_get(bs, os[0].0), os[0].1, strategy)),
            os.drop_first(),
            e,
            strategy,
        );
    }
}

/// Combine an overlay value into a base map under one strategy.
/// The base is changed in place.
#[verifier::loop_isolation(false)]
pub fn apply_overlay(
    base: &mut Vec<(String, Value)>,
    overlay: &Vec<(String, Value)>,
    strategy: MergeStrategy,
)
    ensures
        map_view(*final(base)) == spec_apply(map_view(*old(base)), map_view(*overlay), strategy),
    decreases overlay,
{
    broadcast use group_sval;

    let ghost os = map_view(*overlay);
    let ghost bs0 = map_view(*old(base));
    proof {
        crate::value::lemma_sval_entries_len(overlay@);
    }
    let mut i: usize = 0;
    while i < overlay.len()
        invariant
            i <= overlay.len(),
            map_view(*base) == spec_apply(bs0, os.take(i as int), strategy),
        decreases overlay.len() - i,
    {
        proof {
            crate::value::lemma_sval_entries_index(overlay@, i as int);
            assert(decreases_to!(*overlay => overlay@[i as int]));
            assert(decreases_to!(overlay@[i as int] => overlay@[i as int].1));
        }
        let p = &overlay[i];
        let combined: Value = match strategy {
            MergeStrategy::MERGE => {
                match map_get(base, &p.0) {
                    Some(b) => merge(b, &p.1),
                    None => p.1.deep_clone(),
                }
            },
            MergeStrategy::REPLACE => p.1.deep_clone(),
        };
        map_insert(base, p.0.clone(), combined);
        proof {
            lemma_apply_push(bs0, os.take(i as int), os[i as int], strategy);
            assert(os.take(i as int).push(os[i as int]) =~= os.take(i as int + 1));
        }
        i += 1;
    }
    proof {
        assert(os.take(overlay.len() as int) =~= os);
    }
}

/// MERGE two values: where both are objects the overlay's entries are merged
/// in, key by key; everywhere else the overlay wins wholesale.
pub fn merge(base: &Value, overlay: &Value) -> (r: Value)
    ensures
        r@ == spec_merge_value(base@, overlay@),
    decreases overlay,
{
    broadcast use group_sval;

    match (base, overlay) {
        (Value::Obj(bs), Value::Obj(os)) => {
            let mut acc = map_clone(bs);
            proof {
                assert(decreases_to!(*overlay => *os));
            }
            apply_overlay(&mut acc, os, MergeStrategy::MERGE);
            Value::Obj(acc)
        },
        _ => overlay.deep_clone(),
    }
}

/// Applying an empty overlay changes nothing, under either strategy.
pub proof fn lemma_apply_empty(bs: SpecEntries, strategy: MergeStrategy)
    ensures
        spec_apply(bs, Seq::<(Seq<char>, SpecValue)>::empty(), strategy) == bs,
{
}

/// No value in the base or the overlay is an object.
pub open spec fn no_map_values(s: SpecEntries) -> bool {
    forall|i: int| 0 <= i < s.len() ==> !((#[trigger] s[i]).1 is Obj)
}

/// When neither the base nor the overlay holds an object value, MERGE and
/// REPLACE agree.
pub proof fn lemma_apply_strategies_agree(bs: SpecEntries, os: SpecEntries)
    requires
        no_map_values(bs),
        no_map_values(os),
    ensures
        spec_apply(bs, os, MergeStrategy::MERGE) == spec_apply(bs, os, MergeStrategy::REPLACE),
        no_map_values(spec_apply(bs, os, MergeStrategy::REPLACE)),
    decreases os.len(),
{
    reveal_with_fuel(spec_apply, 2);
    if os.len() > 0 {
        let k = os[0].0;
        let v = os[0].1;
        let cm = spec_combine(om_get(bs, k), v, MergeStrategy::MERGE);
        assert(cm == v) by {
            if om_get(bs, k) is Some {
                lemma_om_get_is_value(bs, k);
            }
        }
        let bs1 = om_set(bs, k, v);
        assert(no_map_values(bs1)) by {
            assert forall|i: int| 0 <= i < bs1.len() implies !((#[trigger] bs1[i]).1 is Obj) by {
                lemma_om_set_value_source(bs, k, v, i);
            }
        }
        assert(no_map_values(os.drop_first()));
        lemma_apply_strategies_agree(bs1, os.drop_first());
    }
}

/// A successful lookup returns one of the stored values.
pub proof fn lemma_om_get_is_value(s: SpecEntries, k: Seq<char>)
    requires
        om_get(s, k) is Some,
    ensures
        exists|i: int| 0 <= i < s.len() && #[trigger] s[i].1 == om_get(s, k)->Some_0,
    decreases s.len(),
{
    if s.len() > 0 && s[0].0 != k {
        lemma_om_get_is_value(s.drop_first(), k);
        let i = choose|i: int|
            0 <= i < s.drop_first().len() && #[trigger] s.drop_first()[i].1 == om_get(
                s.drop_first(),
                k,
            )->Some_0;
        assert(s[i + 1].1 == om_get(s, k)->Some_0);
    }
}

/// Every value of `om_set(s, k, v)` is `v` or a value of `s`.
pub proof fn lemma_om_set_value_source(s: SpecEntries, k: Seq<char>, v: SpecValue, i: int)
    requires
        0 <= i < om_set(s, k, v).len(),
    ensures
        om_set(s, k, v)[i].1 == v || exists|j: int|
            0 <= j < s.len() && #[trigger] s[j].1 == om_set(s, k, v)[i].1,
    decreases s.len(),
{
    if s.len() > 0 && s[0].0 != k && i > 0 {
        let t = om_set(s, k, v);
        assert(t.drop_first() =~= om_set(s.drop_first(), k, v));
        lemma_om_set_value_source(s.drop_first(), k, v, i - 1);
        if om_set(s.drop_first(), k, v)[i - 1].1 != v {
            let j = choose|j: int|
                0 <= j < s.drop_first().len() && #[trigger] s.drop_first()[j].1 == om_set(
                    s.drop_first(),
                    k,
                    v,
                )[i - 1].1;
            assert(s[j + 1].1 == t[i].1);
        }
    }
}

} // verus!
