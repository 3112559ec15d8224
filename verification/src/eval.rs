//! The predicate language and its evaluator. A predicate is a `Value` tree:
//! a `{"var": name}` leaf resolves against the query, a single-key object
//! whose key is one of the fixed operators applies that operator to its
//! arguments, and every other value is a literal that evaluates to itself.
//! A malformed node or an unknown operator is a document error: evaluation
//! yields no value and the surrounding context counts as non-matching.

use vstd::prelude::*;

use crate::value::{
    group_sval, map_get, map_view, om_get, spec_truthy, sval, sval_seq, val_eq, value_eq,
    SpecEntries, SpecValue, Value,
};

verus! {

/// What a `{"var": name}` leaf denotes: the query's binding, or null.
pub open spec fn spec_var_lookup(q: SpecEntries, name: Seq<char>) -> SpecValue {
    match om_get(q, name) {
        Some(v) => v,
        None => SpecValue::Null,
    }
}

/// `needle` occurs contiguously inside `hay`.
pub open spec fn spec_str_contains(hay: Seq<char>, needle: Seq<char>) -> bool {
    exists|i: int|
        0 <= i <= hay.len() - needle.len() && #[trigger] hay.subrange(i, i + needle.len())
            == needle
}

/// Some element of `items` is JSON-equal to `x`.
pub open spec fn spec_in_array(x: SpecValue, items: Seq<SpecValue>) -> bool {
    exists|j: int| 0 <= j < items.len() && val_eq(x, #[trigger] items[j])
}

/// A scalar for the purposes of the `in` operator.
pub open spec fn spec_is_scalar(v: SpecValue) -> bool {
    !(v is Arr) && !(v is Obj)
}

/// The membership operator on two evaluated operands: scalar-in-array
/// membership, string-in-string substring, and false on any other shapes.
pub open spec fn spec_in_op(a: SpecValue, b: SpecValue) -> bool {
    match b {
        SpecValue::Arr(items) => spec_is_scalar(a) && spec_in_array(a, items),
        SpecValue::Str(hay) => match a {
            SpecValue::Str(needle) => spec_str_contains(hay, needle),
            _ => false,
        },
        _ => false,
    }
}

/// The range operator on three evaluated operands: all must be numbers,
/// otherwise the test is false.
pub open spec fn spec_le_op(lo: SpecValue, x: SpecValue, hi: SpecValue) -> bool {
    match (lo, x, hi) {
        (SpecValue::Num(a), SpecValue::Num(b), SpecValue::Num(c)) => a <= b && b <= c,
        _ => false,
    }
}

/// Evaluate a predicate against a query. `None` is a document error
/// (malformed node or unknown operator).
pub open spec fn spec_eval_pred(c: SpecValue, q: SpecEntries) -> Option<SpecValue>
    decreases c, 3int,
{
    match c {
        SpecValue::Obj(entries) => {
            if entries.len() == 1 {
                spec_eval_node(entries[0].0, entries[0].1, q)
            } else {
                Some(c)
            }
        },
        _ => Some(c),
    }
}

/// Evaluate a single-key object node: a variable leaf, one of the fixed
/// operators, or an unknown key (a document error).
pub open spec fn spec_eval_node(key: Seq<char>, arg: SpecValue, q: SpecEntries) -> Option<
    SpecValue,
>
    decreases arg, 2int,
{
    if key == "var"@ {
        match arg {
            SpecValue::Str(name) => Some(spec_var_lookup(q, name)),
            _ => None,
        }
    } else if key == "=="@ {
        match arg {
            SpecValue::Arr(args) => {
                if args.len() == 2 {
                    match (spec_eval_pred(args[0], q), spec_eval_pred(args[1], q)) {
                        (Some(a), Some(b)) => Some(SpecValue::Bool(val_eq(a, b))),
                        _ => None,
                    }
                } else {
                    None
                }
            },
            _ => None,
        }
    } else if key == "and"@ || key == "or"@ {
        match arg {
            SpecValue::Arr(args) => {
                if args.len() >= 1 {
                    spec_eval_conj(args, q, key == "and"@)
                } else {
                    None
                }
            },
            _ => None,
        }
    } else if key == "<="@ {
        match arg {
            SpecValue::Arr(args) => {
                if args.len() == 3 {
                    match (spec_eval_pred(args[0], q), spec_eval_pred(args[1], q), spec_eval_pred(
                        args[2],
                        q,
                    )) {
                        (Some(lo), Some(x), Some(hi)) => Some(
                            SpecValue::Bool(spec_le_op(lo, x, hi)),
                        ),
                        _ => None,
                    }
                } else {
                    None
                }
            },
            _ => None,
        }
    } else if key == "in"@ {
        match arg {
            SpecValue::Arr(args) => {
                if args.len() == 2 {
                    match (spec_eval_pred(args[0], q), spec_eval_pred(args[1], q)) {
                        (Some(a), Some(b)) => Some(SpecValue::Bool(spec_in_op(a, b))),
                        _ => None,
                    }
                } else {
                    None
                }
            },
            _ => None,
        }
    } else {
        None
    }
}

/// Short-circuit conjunction (`is_and`) or disjunction (`!is_and`) over the
/// arguments, in order: an argument that fails to evaluate fails the node;
/// the first decisive argument decides.
pub open spec fn spec_eval_conj(args: Seq<SpecValue>, q: SpecEntries, is_and: bool) -> Option<
    SpecValue,
>
    decreases args, 1int,
{
    if args.len() == 0 {
        Some(SpecValue::Bool(is_and))
    } else {
        match spec_eval_pred(args[0], q) {
            None => None,
            Some(v) => {
                if is_and && !spec_truthy(v) {
                    Some(SpecValue::Bool(false))
                } else if !is_and && spec_truthy(v) {
                    Some(SpecValue::Bool(true))
                } else {
                    spec_eval_conj(args.drop_first(), q, is_and)
                }
            },
        }
    }
}

/// Whether a predicate matches a query: it evaluates to a truthy value.
/// A document error counts as not matching.
pub open spec fn spec_matches(c: SpecValue, q: SpecEntries) -> bool {
    match spec_eval_pred(c, q) {
        Some(v) => spec_truthy(v),
        None => false,
    }
}

/// Decide whether two string slices are equal.
pub fn str_eq(a: &str, b: &str) -> (r: bool)
    ensures
        r == (a@ == b@),
{
    let n = a.unicode_len();
    if n != b.unicode_len() {
        return false;
    }
    let mut i: usize = 0;
    while i < n
        invariant
            i <= n,
            n == a@.len(),
            a@.len() == b@.len(),
            forall|j: int| 0 <= j < i ==> a@[j] == b@[j],
        decreases n - i,
    {
        if a.get_char(i) != b.get_char(i) {
            return false;
        }
        i += 1;
    }
    proof {
        assert(a@ =~= b@);
    }
    true
}

/// Decide whether `needle` occurs contiguously inside `hay`.
#[verifier::loop_isolation(false)]
pub fn str_contains(hay: &str, needle: &str) -> (r: bool)
    ensures
        r == spec_str_contains(hay@, needle@),
{
    let n = hay.unicode_len();
    let m = needle.unicode_len();
    if m > n {
        assert(!spec_str_contains(hay@, needle@));
        return false;
    }
    if m == 0 {
        proof {
            assert(hay@.subrange(0, 0 + needle@.len() as int) =~= needle@);
            assert(spec_str_contains(hay@, needle@));
        }
        return true;
    }
    let mut i: usize = 0;
    while i <= n - m
        invariant
            1 <= m <= n,
            i <= n - m + 1,
            forall|p: int| 0 <= p < i ==> #[trigger] hay@.subrange(p, p + m) != needle@,
        decreases n - i,
    {
        let mut j: usize = 0;
        let mut mismatch = false;
        while j < m
            invariant
                j <= m,
                i + m <= n,
                !mismatch ==> forall|t: int| 0 <= t < j ==> hay@[i + t] == needle@[t],
                mismatch ==> hay@.subrange(i as int, i + m) != needle@,
            decreases m - j,
        {
            if hay.get_char(i + j) != needle.get_char(j) {
                proof {
                    assert(hay@.subrange(i as int, i + m)[j as int] != needle@[j as int]);
                }
                mismatch = true;
                j = m;
            } else {
                j += 1;
            }
        }
        if !mismatch {
            proof {
                assert(hay@.subrange(i as int, i + m) =~= needle@);
            }
            return true;
        }
        i += 1;
    }
    false
}

/// Decide whether some element of `items` is JSON-equal to `x`.
#[verifier::loop_isolation(false)]
pub fn in_array(x: &Value, items: &Vec<Value>) -> (r: bool)
    ensures
        r == spec_in_array(x@, sval_seq(items@)),
{
    broadcast use group_sval;

    let ghost vs = sval_seq(items@);
    let mut i: usize = 0;
    while i < items.len()
        invariant
            i <= items.len(),
            forall|j: int| 0 <= j < i ==> !val_eq(x@, #[trigger] vs[j]),
        decreases items.len() - i,
    {
        if value_eq(x, &items[i]) {
            proof {
                crate::value::lemma_sval_seq_index(items@, i as int);
                assert(val_eq(x@, vs[i as int]));
            }
            return true;
        }
        i += 1;
    }
    false
}

/// Evaluate a predicate against a query map. `None` reports a document
/// error: a malformed node or an operator outside the fixed vocabulary.
#[verifier::loop_isolation(false)]
pub fn eval_predicate(cond: &Value, query: &Vec<(String, Value)>) -> (r: Option<Value>)
    ensures
        match r {
            Some(v) => spec_eval_pred(cond@, map_view(*query)) == Some(v@),
            None => spec_eval_pred(cond@, map_view(*query)) is None,
        },
    decreases cond, 3int,
{
    broadcast use group_sval;

    match cond {
        Value::Obj(entries) => {
            proof {
                crate::value::lemma_sval_entries_len(entries@);
            }
            if entries.len() == 1 {
                proof {
                    assert(decreases_to!(*entries => entries@[0]));
                    assert(decreases_to!(entries@[0] => entries@[0].1));
                    crate::value::lemma_sval_entries_index(entries@, 0);
                }
                let p = &entries[0];
                eval_node(&p.0, &p.1, query)
            } else {
                Some(cond.deep_clone())
            }
        },
        _ => Some(cond.deep_clone()),
    }
}

/// Evaluate one single-key node.
#[verifier::loop_isolation(false)]
fn eval_node(key: &String, arg: &Value, query: &Vec<(String, Value)>) -> (r: Option<Value>)
    ensures
        match r {
            Some(v) => spec_eval_node(key@, arg@, map_view(*query)) == Some(v@),
            None => spec_eval_node(key@, arg@, map_view(*query)) is None,
        },
    decreases arg, 2int,
{
    broadcast use group_sval;

    if str_eq(key.as_str(), "var") {
        match arg {
            Value::Str(name) => match map_get(query, name) {
                Some(v) => Some(v.deep_clone()),
                None => Some(Value::Null),
            },
            _ => None,
        }
    } else if str_eq(key.as_str(), "==") {
        match arg {
            Value::Arr(args) => {
                if args.len() == 2 {
                    proof {
                        assert(decreases_to!(*args => args@[0]));
                        assert(decreases_to!(*args => args@[1]));
                    }
                    proof {
                        crate::value::lemma_sval_seq_len(args@);
                        assert(forall|j: int|
                            0 <= j < args@.len() ==> sval_seq(args@)[j] == sval(
                                #[trigger] args@[j],
                            ));
                    }
                    let a = match eval_predicate(&args[0], query) {
                        Some(v) => v,
                        None => {
                            return None;
                        },
                    };
                    let b = match eval_predicate(&args[1], query) {
                        Some(v) => v,
                        None => {
                            return None;
                        },
                    };
                    Some(Value::Bool(value_eq(&a, &b)))
                } else {
                    None
                }
            },
            _ => None,
        }
    } else if str_eq(key.as_str(), "and") || str_eq(key.as_str(), "or") {
        let is_and = str_eq(key.as_str(), "and");
        match arg {
            Value::Arr(args) => {
                if args.len() >= 1 {
                    match eval_conj(args, query, is_and) {
                        Some(bb) => Some(Value::Bool(bb)),
                        None => None,
                    }
                } else {
                    None
                }
            },
            _ => None,
        }
    } else if str_eq(key.as_str(), "<=") {
        match arg {
            Value::Arr(args) => {
                if args.len() == 3 {
                    proof {
                        assert(decreases_to!(*args => args@[0]));
                        assert(decreases_to!(*args => args@[1]));
                        assert(decreases_to!(*args => args@[2]));
                    }
                    proof {
                        crate::value::lemma_sval_seq_len(args@);
                        assert(forall|j: int|
                            0 <= j < args@.len() ==> sval_seq(args@)[j] == sval(
                                #[trigger] args@[j],
                            ));
                    }
                    let lo = match eval_predicate(&args[0], query) {
                        Some(v) => v,
                        None => {
                            return None;
                        },
                    };
                    let x = match eval_predicate(&args[1], query) {
                        Some(v) => v,
                        None => {
                            return None;
                        },
                    };
                    let hi = match eval_predicate(&args[2], query) {
                        Some(v) => v,
                        None => {
                            return None;
                        },
                    };
                    let ok = match (&lo, &x, &hi) {
                        (Value::Num(a), Value::Num(b), Value::Num(c)) => *a <= *b && *b <= *c,
                        _ => false,
                    };
                    Some(Value::Bool(ok))
                } else {
                    None
                }
            },
            _ => None,
        }
    } else if str_eq(key.as_str(), "in") {
        match arg {
            Value::Arr(args) => {
                if args.len() == 2 {
                    proof {
                        assert(decreases_to!(*args => args@[0]));
                        assert(decreases_to!(*args => args@[1]));
                    }
                    proof {
                        crate::value::lemma_sval_seq_len(args@);
                        assert(forall|j: int|
                            0 <= j < args@.len() ==> sval_seq(args@)[j] == sval(
                                #[trigger] args@[j],
                            ));
                    }
                    let a = match eval_predicate(&args[0], query) {
                        Some(v) => v,
                        None => {
                            return None;
                        },
                    };
                    let b = match eval_predicate(&args[1], query) {
                        Some(v) => v,
                        None => {
                            return None;
                        },
                    };
                    let ok = match &b {
                        Value::Arr(items) => {
                            let scalar = match &a {
                                Value::Arr(_) => false,
                                Value::Obj(_) => false,
                                _ => true,
                            };
                            scalar && in_array(&a, items)
                        },
                        Value::Str(hay) => match &a {
                            Value::Str(needle) => str_contains(hay.as_str(), needle.as_str()),
                            _ => false,
                        },
                        _ => false,
                    };
                    Some(Value::Bool(ok))
                } else {
                    None
                }
            },
            _ => None,
        }
    } else {
        None
    }
}

/// Short-circuit evaluation of `and` / `or` over the argument list.
#[verifier::loop_isolation(false)]
fn eval_conj(args: &Vec<Value>, query: &Vec<(String, Value)>, is_and: bool) -> (r: Option<bool>)
    ensures
        match r {
            Some(bb) => spec_eval_conj(sval_seq(args@), map_view(*query), is_and) == Some(
                SpecValue::Bool(bb),
            ),
            None => spec_eval_conj(sval_seq(args@), map_view(*query), is_and) is None,
        },
    decreases args, 1int,
{
    broadcast use group_sval;

    let ghost avs = sval_seq(args@);
    let ghost qv = map_view(*query);
    proof {
        crate::value::lemma_sval_seq_len(args@);
        assert(avs.skip(0) =~= avs);
        assert(forall|j: int|
            0 <= j < args@.len() ==> sval_seq(args@)[j] == sval(#[trigger] args@[j]));
    }
    let mut i: usize = 0;
    while i < args.len()
        invariant
            i <= args.len(),
            spec_eval_conj(avs.skip(i as int), qv, is_and) == spec_eval_conj(avs, qv, is_and),
        decreases args.len() - i,
    {
        proof {
            assert(decreases_to!(*args => args@[i as int]));
            assert(avs.skip(i as int)[0] == avs[i as int]);
        }
        match eval_predicate(&args[i], query) {
            None => {
                return None;
            },
            Some(v) => {
                let t = v.truthy();
                if is_and && !t {
                    return Some(false);
                }
                if !is_and && t {
                    return Some(true);
                }
                proof {
                    assert(avs.skip(i as int).drop_first() =~= avs.skip(i as int + 1));
                }
            },
        }
        i += 1;
    }
    proof {
        assert(avs.skip(args@.len() as int) =~= Seq::<SpecValue>::empty());
    }
    Some(is_and)
}

} // verus!
