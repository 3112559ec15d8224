//! The JSON-like value model: configuration documents, queries, overrides and
//! predicates are all trees of `Value`. Objects keep their entries in
//! insertion order; key identity is exact string equality.

use vstd::prelude::*;

verus! {

/// A JSON-like value. Numbers are modelled as signed 64-bit integers.
/// An object is an ordered list of key/value entries; a well-formed object
/// (see [`wf_value`]) never repeats a key.
pub enum Value {
    Null,
    Bool(bool),
    Num(i64),
    Str(String),
    Arr(Vec<Value>),
    Obj(Vec<(String, Value)>),
}

/// The mathematical model of a [`Value`].
pub enum SpecValue {
    Null,
    Bool(bool),
    Num(int),
    Str(Seq<char>),
    Arr(Seq<SpecValue>),
    Obj(Seq<(Seq<char>, SpecValue)>),
}

/// The model of a value: the same tree over `int`, `Seq<char>` and `Seq`.
pub open spec fn sval(v: Value) -> SpecValue
    decreases v,
{
    match v {
        Value::Null => SpecValue::Null,
        Value::Bool(b) => SpecValue::Bool(b),
        Value::Num(n) => SpecValue::Num(n as int),
        Value::Str(s) => SpecValue::Str(s@),
        Value::Arr(items) => SpecValue::Arr(sval_seq(items@)),
        Value::Obj(entries) => SpecValue::Obj(sval_entries(entries@)),
    }
}

pub open spec fn sval_seq(s: Seq<Value>) -> Seq<SpecValue>
    decreases s,
{
    if s.len() == 0 {
        Seq::empty()
    } else {
        seq![sval(s[0])] + sval_seq(s.drop_first())
    }
}

pub open spec fn sval_entries(s: Seq<(String, Value)>) -> Seq<(Seq<char>, SpecValue)>
    decreases s,
{
    if s.len() == 0 {
        Seq::empty()
    } else {
        seq![(s[0].0@, sval(s[0].1))] + sval_entries(s.drop_first())
    }
}

impl View for Value {
    type V = SpecValue;

    open spec fn view(&self) -> SpecValue {
        sval(*self)
    }
}

pub broadcast proof fn lemma_sval_seq_len(s: Seq<Value>)
    ensures
        #[trigger] sval_seq(s).len() == s.len(),
    decreases s,
{
    if s.len() > 0 {
        lemma_sval_seq_len(s.drop_first());
    }
}

pub broadcast proof fn lemma_sval_seq_index(s: Seq<Value>, i: int)
    requires
        0 <= i < s.len(),
    ensures
        #[trigger] sval_seq(s)[i] == sval(s[i]),
    decreases s,
{
    lemma_sval_seq_len(s);
    if i > 0 {
        lemma_sval_seq_index(s.drop_first(), i - 1);
    }
}

pub broadcast proof fn lemma_sval_entries_len(s: Seq<(String, Value)>)
    ensures
        #[trigger] sval_entries(s).len() == s.len(),
    decreases s,
{
    if s.len() > 0 {
        lemma_sval_entries_len(s.drop_first());
    }
}

pub broadcast proof fn lemma_sval_entries_index(s: Seq<(String, Value)>, i: int)
    requires
        0 <= i < s.len(),
    ensures
        #[trigger] sval_entries(s)[i] == (s[i].0@, sval(s[i].1)),
    decreases s,
{
    lemma_sval_entries_len(s);
    if i > 0 {
        lemma_sval_entries_index(s.drop_first(), i - 1);
    }
}

pub broadcast group group_sval {
    lemma_sval_seq_len,
    lemma_sval_seq_index,
    lemma_sval_entries_len,
    lemma_sval_entries_index,
}

/// An ordered object model: entries in insertion order.
pub type SpecEntries = Seq<(Seq<char>, SpecValue)>;

/// The value bound to the first entry whose key is `k`, if any.
pub open spec fn om_get(s: SpecEntries, k: Seq<char>) -> Option<SpecValue>
    decreases s.len(),
{
    if s.len() == 0 {
        None
    } else if s[0].0 == k {
        Some(s[0].1)
    } else {
        om_get(s.drop_first(), k)
    }
}

pub open spec fn om_contains(s: SpecEntries, k: Seq<char>) -> bool {
    om_get(s, k) is Some
}

/// Bind `k` to `v`: replace the value in place if `k` is present,
/// else append the new entry at the end.
pub open spec fn om_set(s: SpecEntries, k: Seq<char>, v: SpecValue) -> SpecEntries
    decreases s.len(),
{
    if s.len() == 0 {
        seq![(k, v)]
    } else if s[0].0 == k {
        seq![(k, v)] + s.drop_first()
    } else {
        seq![s[0]] + om_set(s.drop_first(), k, v)
    }
}

/// No key occurs twice.
pub open spec fn om_wf(s: SpecEntries) -> bool {
    forall|i: int, j: int| 0 <= i < j < s.len() ==> s[i].0 != s[j].0
}

/// Every object in the tree has pairwise distinct keys.
pub open spec fn wf_spec_value(v: SpecValue) -> bool
    decreases v,
{
    match v {
        SpecValue::Arr(items) => forall|i: int|
            0 <= i < items.len() ==> wf_spec_value(#[trigger] items[i]),
        SpecValue::Obj(entries) => om_wf(entries) && forall|i: int|
            0 <= i < entries.len() ==> wf_spec_value(#[trigger] entries[i].1),
        _ => true,
    }
}

/// JSON-level equality: arrays elementwise, objects by key regardless of
/// entry order, scalars by value.
pub open spec fn val_eq(a: SpecValue, b: SpecValue) -> bool
    decreases a,
{
    match (a, b) {
        (SpecValue::Null, SpecValue::Null) => true,
        (SpecValue::Bool(x), SpecValue::Bool(y)) => x == y,
        (SpecValue::Num(x), SpecValue::Num(y)) => x == y,
        (SpecValue::Str(x), SpecValue::Str(y)) => x == y,
        (SpecValue::Arr(x), SpecValue::Arr(y)) => x.len() == y.len() && (forall|i: int|
            0 <= i < x.len() ==> val_eq(#[trigger] x[i], y[i])),
        (SpecValue::Obj(x), SpecValue::Obj(y)) => x.len() == y.len() && (forall|i: int|
            0 <= i < x.len() ==> match om_get(y, (#[trigger] x[i]).0) {
                Some(w) => val_eq(x[i].1, w),
                None => false,
            }),
        _ => false,
    }
}

/// Truthiness: `false`, null, `0`, the empty string, the empty array and the
/// empty object are falsy; everything else is truthy.
pub open spec fn spec_truthy(v: SpecValue) -> bool {
    match v {
        SpecValue::Null => false,
        SpecValue::Bool(b) => b,
        SpecValue::Num(n) => n != 0,
        SpecValue::Str(s) => s.len() != 0,
        SpecValue::Arr(items) => items.len() != 0,
        SpecValue::Obj(entries) => entries.len() != 0,
    }
}

impl Value {
    /// Whether this value counts as true when a predicate result is tested.
    pub fn truthy(&self) -> (r: bool)
        ensures
            r == spec_truthy(self@),
    {
        broadcast use group_sval;

        match self {
            Value::Null => false,
            Value::Bool(b) => *b,
            Value::Num(n) => *n != 0,
            Value::Str(s) => s.as_str().unicode_len() != 0,
            Value::Arr(items) => items.len() != 0,
            Value::Obj(entries) => entries.len() != 0,
        }
    }
}

/// If no key among the first `i` entries is `k`, the lookup is decided by the
/// rest of the sequence.
pub proof fn lemma_om_get_skip(s: SpecEntries, k: Seq<char>, i: int)
    requires
        0 <= i <= s.len(),
        forall|j: int| 0 <= j < i ==> s[j].0 != k,
    ensures
        om_get(s, k) == om_get(s.skip(i), k),
    decreases i,
{
    if i == 0 {
        assert(s.skip(0) =~= s);
    } else {
        assert(forall|j: int| 0 <= j < i - 1 ==> #[trigger] s.drop_first()[j].0 != k) by {
            assert(forall|j: int| 0 <= j < i - 1 ==> s.drop_first()[j] == s[j + 1]);
        }
        lemma_om_get_skip(s.drop_first(), k, i - 1);
        assert(s.drop_first().skip(i - 1) =~= s.skip(i));
    }
}

/// A lookup that succeeds names the value at the first index bearing the key.
pub proof fn lemma_om_get_present(s: SpecEntries, k: Seq<char>, i: int)
    requires
        0 <= i < s.len(),
        s[i].0 == k,
        forall|j: int| 0 <= j < i ==> s[j].0 != k,
    ensures
        om_get(s, k) == Some(s[i].1),
    decreases i,
{
    if i == 0 {
    } else {
        lemma_om_get_present(s.drop_first(), k, i - 1);
    }
}

/// A lookup finds something exactly when some entry bears the key.
pub proof fn lemma_om_get_exists(s: SpecEntries, k: Seq<char>)
    ensures
        om_contains(s, k) <==> exists|i: int| 0 <= i < s.len() && s[i].0 == k,
    decreases s.len(),
{
    if s.len() > 0 {
        lemma_om_get_exists(s.drop_first(), k);
        if om_contains(s, k) && s[0].0 != k {
            let i = choose|i: int| 0 <= i < s.drop_first().len() && s.drop_first()[i].0 == k;
            assert(s[i + 1].0 == k);
        }
        if exists|i: int| 0 <= i < s.len() && s[i].0 == k {
            let i = choose|i: int| 0 <= i < s.len() && s[i].0 == k;
            if s[0].0 != k {
                assert(s.drop_first()[i - 1].0 == k);
            }
        }
    }
}

/// If the key is present at `i` (and nowhere earlier), `om_set` updates index `i`.
pub proof fn lemma_om_set_update(s: SpecEntries, k: Seq<char>, v: SpecValue, i: int)
    requires
        0 <= i < s.len(),
        s[i].0 == k,
        forall|j: int| 0 <= j < i ==> s[j].0 != k,
    ensures
        om_set(s, k, v) == s.update(i, (k, v)),
    decreases i,
{
    if i == 0 {
        assert(om_set(s, k, v) =~= s.update(0, (k, v)));
    } else {
        lemma_om_set_update(s.drop_first(), k, v, i - 1);
        assert(om_set(s, k, v) =~= s.update(i, (k, v)));
    }
}

/// If the key is absent, `om_set` appends the entry.
pub proof fn lemma_om_set_push(s: SpecEntries, k: Seq<char>, v: SpecValue)
    requires
        forall|j: int| 0 <= j < s.len() ==> s[j].0 != k,
    ensures
        om_set(s, k, v) == s.push((k, v)),
    decreases s.len(),
{
    if s.len() == 0 {
        assert(om_set(s, k, v) =~= s.push((k, v)));
    } else {
        lemma_om_set_push(s.drop_first(), k, v);
        assert(om_set(s, k, v) =~= s.push((k, v)));
    }
}

/// What `om_set` does to lookups: the written key now binds to `v`,
/// every other key is untouched.
pub proof fn lemma_om_set_get(s: SpecEntries, k: Seq<char>, v: SpecValue, k2: Seq<char>)
    ensures
        om_get(om_set(s, k, v), k2) == if k2 == k {
            Some(v)
        } else {
            om_get(s, k2)
        },
    decreases s.len(),
{
    reveal_with_fuel(om_get, 3);
    if s.len() == 0 {
        let t = om_set(s, k, v);
        assert(t.drop_first() =~= Seq::<(Seq<char>, SpecValue)>::empty());
        assert(om_get(t, k2) == if k2 == k {
            Some(v)
        } else {
            om_get(s, k2)
        });
    } else {
        if s[0].0 == k {
            let t = om_set(s, k, v);
            assert(t[0] == (k, v));
            assert(t.drop_first() =~= s.drop_first());
            assert(om_get(t, k2) == if k2 == k {
                Some(v)
            } else {
                om_get(s, k2)
            });
        } else {
            lemma_om_set_get(s.drop_first(), k, v, k2);
            let t = om_set(s, k, v);
            assert(t[0] == s[0]);
            assert(t.drop_first() =~= om_set(s.drop_first(), k, v));
            assert(om_get(t, k2) == if k2 == k {
                Some(v)
            } else {
                om_get(s, k2)
            });
        }
    }
}

/// `om_set` keeps keys distinct.
pub proof fn lemma_om_set_wf(s: SpecEntries, k: Seq<char>, v: SpecValue)
    requires
        om_wf(s),
    ensures
        om_wf(om_set(s, k, v)),
        om_set(s, k, v).len() <= s.len() + 1,
    decreases s.len(),
{
    if s.len() > 0 {
        if s[0].0 == k {
            let t = om_set(s, k, v);
            assert(t.drop_first() =~= s.drop_first());
            assert(om_wf(t)) by {
                assert forall|i: int, j: int| 0 <= i < j < t.len() implies t[i].0 != t[j].0 by {
                    if i > 0 {
                        assert(t[i] == s[i] && t[j] == s[j]);
                    } else {
                        assert(t[j] == s[j]);
                    }
                }
            }
        } else {
            lemma_om_set_wf(s.drop_first(), k, v);
            let t0 = om_set(s.drop_first(), k, v);
            let t = om_set(s, k, v);
            assert(t.drop_first() =~= t0);
            assert(om_wf(t)) by {
                assert forall|i: int, j: int| 0 <= i < j < t.len() implies t[i].0 != t[j].0 by {
                    if i > 0 {
                        assert(t0[i - 1].0 != t0[j - 1].0);
                    } else {
                        // the head key differs from every key that om_set can place
                        assert(t[j] == t0[j - 1]);
                        lemma_om_set_key_source(s.drop_first(), k, v, j - 1);
                    }
                }
            }
        }
    }
}

/// Every key of `om_set(s, k, v)` is `k` or a key of `s`.
pub proof fn lemma_om_set_key_source(s: SpecEntries, k: Seq<char>, v: SpecValue, i: int)
    requires
        0 <= i < om_set(s, k, v).len(),
    ensures
        om_set(s, k, v)[i].0 == k || exists|j: int|
            0 <= j < s.len() && s[j].0 == #[trigger] om_set(s, k, v)[i].0,
    decreases s.len(),
{
    if s.len() > 0 && s[0].0 != k && i > 0 {
        let t = om_set(s, k, v);
        assert(t.drop_first() =~= om_set(s.drop_first(), k, v));
        lemma_om_set_key_source(s.drop_first(), k, v, i - 1);
        if om_set(s.drop_first(), k, v)[i - 1].0 != k {
            let j = choose|j: int|
                0 <= j < s.drop_first().len() && s.drop_first()[j].0 == om_set(
                    s.drop_first(),
                    k,
                    v,
                )[i - 1].0;
            assert(s[j + 1].0 == t[i].0);
        }
    }
}

/// Whatever was reachable before an `om_set` is still reachable after it.
pub proof fn lemma_om_set_preserves_contains(
    s: SpecEntries,
    k: Seq<char>,
    v: SpecValue,
    k2: Seq<char>,
)
    requires
        om_contains(s, k2),
    ensures
        om_contains(om_set(s, k, v), k2),
{
    lemma_om_set_get(s, k, v, k2);
}

pub proof fn lemma_sval_entries_update(s: Seq<(String, Value)>, i: int, p: (String, Value))
    requires
        0 <= i < s.len(),
    ensures
        sval_entries(s.update(i, p)) == sval_entries(s).update(i, (p.0@, sval(p.1))),
{
    broadcast use group_sval;

    assert(sval_entries(s.update(i, p)) =~= sval_entries(s).update(i, (p.0@, sval(p.1))));
}

pub proof fn lemma_sval_entries_push(s: Seq<(String, Value)>, p: (String, Value))
    ensures
        sval_entries(s.push(p)) == sval_entries(s).push((p.0@, sval(p.1))),
{
    broadcast use group_sval;

    assert(sval_entries(s.push(p)) =~= sval_entries(s).push((p.0@, sval(p.1))));
}

/// The model of an executable configuration map.
pub open spec fn map_view(m: Vec<(String, Value)>) -> SpecEntries {
    sval_entries(m@)
}

/// Look a key up in a configuration map: the value of the first entry whose
/// key equals `k`, if any.
pub fn map_get<'a>(m: &'a Vec<(String, Value)>, k: &String) -> (r: Option<&'a Value>)
    ensures
        match r {
            Some(v) => om_get(map_view(*m), k@) == Some(v@),
            None => om_get(map_view(*m), k@) is None,
        },
{
    broadcast use group_sval;

    let ghost s = map_view(*m);
    proof {
        lemma_sval_entries_len(m@);
    }
    let mut i: usize = 0;
    while i < m.len()
        invariant
            i <= m.len(),
            s == map_view(*m),
            s.len() == m@.len(),
            forall|j: int| 0 <= j < i ==> s[j].0 != k@,
        decreases m.len() - i,
    {
        proof {
            lemma_sval_entries_index(m@, i as int);
        }
        if m[i].0.eq(k) {
            proof {
                lemma_om_get_present(s, k@, i as int);
            }
            return Some(&m[i].1);
        }
        i += 1;
    }
    proof {
        lemma_om_get_skip(s, k@, s.len() as int);
        assert(s.skip(s.len() as int) =~= Seq::<(Seq<char>, SpecValue)>::empty());
    }
    None
}

/// Whether a configuration map binds the key.
pub fn map_contains(m: &Vec<(String, Value)>, k: &String) -> (r: bool)
    ensures
        r == om_contains(map_view(*m), k@),
{
    map_get(m, k).is_some()
}

/// Bind `k` to `v` in a configuration map: in place if present, appended if new.
pub fn map_insert(m: &mut Vec<(String, Value)>, k: String, v: Value)
    ensures
        map_view(*final(m)) == om_set(map_view(*old(m)), k@, v@),
{
    broadcast use group_sval;

    let ghost s = map_view(*m);
    proof {
        lemma_sval_entries_len(m@);
    }
    let mut i: usize = 0;
    while i < m.len()
        invariant
            i <= m.len(),
            *m == *old(m),
            s == map_view(*m),
            s.len() == m@.len(),
            forall|j: int| 0 <= j < i ==> s[j].0 != k@,
        decreases m.len() - i,
    {
        proof {
            lemma_sval_entries_index(m@, i as int);
        }
        if m[i].0.eq(&k) {
            proof {
                lemma_om_set_update(s, k@, v@, i as int);
                lemma_sval_entries_update(m@, i as int, (k, v));
            }
            m[i] = (k, v);
            return ;
        }
        i += 1;
    }
    proof {
        lemma_om_set_push(s, k@, v@);
        lemma_sval_entries_push(m@, (k, v));
    }
    m.push((k, v));
}

impl Value {
    /// A deep copy: the model of the copy is the model of the original.
    #[verifier::loop_isolation(false)]
    pub fn deep_clone(&self) -> (r: Value)
        ensures
            r@ == self@,
        decreases self,
    {
        broadcast use group_sval;

        match self {
            Value::Null => Value::Null,
            Value::Bool(b) => Value::Bool(*b),
            Value::Num(n) => Value::Num(*n),
            Value::Str(s) => Value::Str(s.clone()),
            Value::Arr(items) => {
                let mut out: Vec<Value> = Vec::new();
                let mut i: usize = 0;
                while i < items.len()
                    invariant
                        i <= items.len(),
                        out@.len() == i,
                        forall|j: int| 0 <= j < i ==> sval(#[trigger] out@[j]) == sval(items@[j]),
                    decreases items.len() - i,
                {
                    proof {
                        assert(decreases_to!(*items => items@[i as int]));
                    }
                    out.push(items[i].deep_clone());
                    i += 1;
                }
                proof {
                    assert(sval_seq(out@) =~= sval_seq(items@));
                }
                Value::Arr(out)
            },
            Value::Obj(entries) => {
                let mut out: Vec<(String, Value)> = Vec::new();
                let mut i: usize = 0;
                while i < entries.len()
                    invariant
                        i <= entries.len(),
                        out@.len() == i,
                        forall|j: int|
                            0 <= j < i ==> (#[trigger] out@[j]).0@ == entries@[j].0@ && sval(
                                out@[j].1,
                            ) == sval(entries@[j].1),
                    decreases entries.len() - i,
                {
                    let p = &entries[i];
                    proof {
                        assert(decreases_to!(*entries => entries@[i as int]));
                        assert(decreases_to!(entries@[i as int] => entries@[i as int].1));
                    }
                    out.push((p.0.clone(), p.1.deep_clone()));
                    i += 1;
                }
                proof {
                    assert(sval_entries(out@) =~= sval_entries(entries@));
                }
                Value::Obj(out)
            },
        }
    }
}

/// A deep copy of a configuration map.
pub fn map_clone(m: &Vec<(String, Value)>) -> (r: Vec<(String, Value)>)
    ensures
        map_view(r) == map_view(*m),
{
    broadcast use group_sval;

    let mut out: Vec<(String, Value)> = Vec::new();
    let mut i: usize = 0;
    while i < m.len()
        invariant
            i <= m.len(),
            out@.len() == i,
            forall|j: int|
                0 <= j < i ==> (#[trigger] out@[j]).0@ == m@[j].0@ && sval(out@[j].1) == sval(
                    m@[j].1,
                ),
        decreases m.len() - i,
    {
        let p = &m[i];
        out.push((p.0.clone(), p.1.deep_clone()));
        i += 1;
    }
    proof {
        assert(sval_entries(out@) =~= sval_entries(m@));
    }
    out
}

/// Decide JSON-level equality of two values.
#[verifier::loop_isolation(false)]
pub fn value_eq(a: &Value, b: &Value) -> (r: bool)
    ensures
        r == val_eq(a@, b@),
    decreases a,
{
    broadcast use group_sval;

    match (a, b) {
        (Value::Null, Value::Null) => true,
        (Value::Bool(x), Value::Bool(y)) => *x == *y,
        (Value::Num(x), Value::Num(y)) => *x == *y,
        (Value::Str(x), Value::Str(y)) => *x == *y,
        (Value::Arr(x), Value::Arr(y)) => {
            let ghost xs = sval_seq(x@);
            let ghost ys = sval_seq(y@);
            proof {
                lemma_sval_seq_len(x@);
                lemma_sval_seq_len(y@);
                assert(a@ == SpecValue::Arr(xs));
                assert(b@ == SpecValue::Arr(ys));
            }
            if x.len() != y.len() {
                return false;
            }
            let mut i: usize = 0;
            while i < x.len()
                invariant
                    i <= x.len(),
                    x@.len() == y@.len(),
                    forall|j: int| 0 <= j < i ==> val_eq(#[trigger] xs[j], ys[j]),
                decreases x.len() - i,
            {
                proof {
                    lemma_sval_seq_index(x@, i as int);
                    lemma_sval_seq_index(y@, i as int);
                }
                if !value_eq(&x[i], &y[i]) {
                    return false;
                }
                i += 1;
            }
            true
        },
        (Value::Obj(x), Value::Obj(y)) => {
            let ghost xs = sval_entries(x@);
            let ghost ys = sval_entries(y@);
            proof {
                lemma_sval_entries_len(x@);
                lemma_sval_entries_len(y@);
                assert(a@ == SpecValue::Obj(xs));
                assert(b@ == SpecValue::Obj(ys));
            }
            if x.len() != y.len() {
                return false;
            }
            let mut i: usize = 0;
            while i < x.len()
                invariant
                    i <= x.len(),
                    x@.len() == y@.len(),
                    forall|j: int|
                        0 <= j < i ==> match om_get(ys, (#[trigger] xs[j]).0) {
                            Some(w) => val_eq(xs[j].1, w),
                            None => false,
                        },
                decreases x.len() - i,
            {
                proof {
                    lemma_sval_entries_index(x@, i as int);
                }
                let p = &x[i];
                match map_get(y, &p.0) {
                    Some(w) => {
                        if !value_eq(&p.1, w) {
                            return false;
                        }
                    },
                    None => {
                        return false;
                    },
                }
                i += 1;
            }
            true
        },
        _ => false,
    }
}

/// The keys of a list of key strings, as character sequences.
pub open spec fn keys_view(ks: Seq<String>) -> Seq<Seq<char>> {
    ks.map_values(|s: String| s@)
}

/// Keep, in order, exactly the entries whose key is named in `ks`.
pub open spec fn om_project(s: SpecEntries, ks: Seq<Seq<char>>) -> SpecEntries
    decreases s.len(),
{
    if s.len() == 0 {
        s
    } else {
        om_project(s.drop_last(), ks) + if ks.contains(s.last().0) {
            seq![s.last()]
        } else {
            Seq::<(Seq<char>, SpecValue)>::empty()
        }
    }
}

/// Whether one of the key strings equals `k`.
pub fn keys_contain(keys: &Vec<String>, k: &String) -> (r: bool)
    ensures
        r == keys_view(keys@).contains(k@),
{
    let mut i: usize = 0;
    while i < keys.len()
        invariant
            i <= keys.len(),
            forall|j: int| 0 <= j < i ==> keys_view(keys@)[j] != k@,
        decreases keys.len() - i,
    {
        if keys[i].eq(k) {
            assert(keys_view(keys@)[i as int] == k@);
            return true;
        }
        i += 1;
    }
    proof {
        if keys_view(keys@).contains(k@) {
            let j = choose|j: int| 0 <= j < keys_view(keys@).len() && keys_view(keys@)[j] == k@;
            assert(keys_view(keys@)[j] != k@);
        }
    }
    false
}

/// Filter a configuration map down to the named keys, keeping entry order.
#[verifier::loop_isolation(false)]
pub fn project_map(m: &Vec<(String, Value)>, keys: &Vec<String>) -> (r: Vec<(String, Value)>)
    ensures
        map_view(r) == om_project(map_view(*m), keys_view(keys@)),
{
    broadcast use group_sval;

    let ghost s = map_view(*m);
    let ghost ks = keys_view(keys@);
    proof {
        lemma_sval_entries_len(m@);
    }
    let mut out: Vec<(String, Value)> = Vec::new();
    let mut i: usize = 0;
    while i < m.len()
        invariant
            i <= m.len(),
            map_view(out) == om_project(s.take(i as int), ks),
        decreases m.len() - i,
    {
        proof {
            lemma_sval_entries_index(m@, i as int);
            assert(s.take(i as int + 1).drop_last() =~= s.take(i as int));
            assert(s.take(i as int + 1).last() == s[i as int]);
        }
        let p = &m[i];
        if keys_contain(keys, &p.0) {
            let ghost before = map_view(out);
            out.push((p.0.clone(), p.1.deep_clone()));
            proof {
                assert(map_view(out) =~= before.push((p.0@, sval(p.1))));
                assert(map_view(out) =~= om_project(s.take(i as int + 1), ks));
            }
        } else {
            proof {
                assert(map_view(out) =~= om_project(s.take(i as int + 1), ks));
            }
        }
        i += 1;
    }
    proof {
        assert(s.take(m@.len() as int) =~= s);
    }
    out
}

} // verus!
