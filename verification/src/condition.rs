//! Reading a context's predicate back into display form: an operator label,
//! the dimension name it tests, and the remaining operands as one joined
//! text. This is the inverse direction of the context form: it turns stored
//! predicate trees into the pieces a renderer shows.

use vstd::prelude::*;

use crate::resolve::Context;
use crate::text::{spec_join, spec_json_text, value_to_text};
use crate::value::{
    group_sval, map_contains, om_contains, om_get, sval, sval_entries, sval_seq, SpecEntries,
    SpecValue, Value,
};

verus! {

/// A display operator: the handful the form writes, or the raw operator text.
pub enum ConditionOperator {
    Is,
    In,
    Has,
    Between,
    Other(String),
}

/// The mathematical model of a [`ConditionOperator`].
pub enum SpecConditionOperator {
    Is,
    In,
    Has,
    Between,
    Other(Seq<char>),
}

impl View for ConditionOperator {
    type V = SpecConditionOperator;

    open spec fn view(&self) -> SpecConditionOperator {
        match self {
            ConditionOperator::Is => SpecConditionOperator::Is,
            ConditionOperator::In => SpecConditionOperator::In,
            ConditionOperator::Has => SpecConditionOperator::Has,
            ConditionOperator::Between => SpecConditionOperator::Between,
            ConditionOperator::Other(o) => SpecConditionOperator::Other(o@),
        }
    }
}

/// An object value holding a `var` key: a variable leaf of the predicate
/// language.
pub open spec fn spec_obj_with_var(v: SpecValue) -> bool {
    match v {
        SpecValue::Obj(es) => om_contains(es, "var"@),
        _ => false,
    }
}

/// Which display operator an operator key and its operands denote, after the
/// form's own conventions: `==` over at most two operands reads as `is`; a
/// three-operand `<=` whose middle operand is a variable reads as `between`;
/// a two-operand `in` reads as `in` when the variable stands first and as
/// `has` when it stands second; everything else shows the raw operator.
pub open spec fn spec_operator_of(op: Seq<char>, operands: Seq<SpecValue>) -> SpecConditionOperator {
    if op == "=="@ && operands.len() < 3 {
        SpecConditionOperator::Is
    } else if op == "<="@ && operands.len() >= 3 && spec_obj_with_var(operands[1]) {
        SpecConditionOperator::Between
    } else if op == "in"@ && operands.len() == 2 && spec_obj_with_var(operands[0]) {
        SpecConditionOperator::In
    } else if op == "in"@ && operands.len() == 2 && spec_obj_with_var(operands[1]) {
        SpecConditionOperator::Has
    } else {
        SpecConditionOperator::Other(op)
    }
}

/// Decide whether a value is an object holding a `var` key.
fn obj_with_var(v: &Value) -> (r: bool)
    ensures
        r == spec_obj_with_var(v@),
{
    broadcast use group_sval;

    match v {
        Value::Obj(es) => map_contains(es, &"var".to_owned()),
        _ => false,
    }
}

impl ConditionOperator {
    /// Classify an operator key with its operands.
    pub fn from_parts(operator: String, operands: &Vec<Value>) -> (r: ConditionOperator)
        ensures
            r@ == spec_operator_of(operator@, sval_seq(operands@)),
    {
        broadcast use group_sval;

        proof {
            crate::value::lemma_sval_seq_len(operands@);
            if operands@.len() > 0 {
                crate::value::lemma_sval_seq_index(operands@, 0);
            }
            if operands@.len() > 1 {
                crate::value::lemma_sval_seq_index(operands@, 1);
            }
        }
        if crate::eval::str_eq(operator.as_str(), "==") && operands.len() < 3 {
            ConditionOperator::Is
        } else if crate::eval::str_eq(operator.as_str(), "<=") && operands.len() >= 3
            && obj_with_var(&operands[1]) {
            ConditionOperator::Between
        } else if crate::eval::str_eq(operator.as_str(), "in") && operands.len() == 2
            && obj_with_var(&operands[0]) {
            ConditionOperator::In
        } else if crate::eval::str_eq(operator.as_str(), "in") && operands.len() == 2
            && obj_with_var(&operands[1]) {
            ConditionOperator::Has
        } else {
            ConditionOperator::Other(operator)
        }
    }

    /// The label of the operator.
    pub open spec fn spec_text(&self) -> Seq<char> {
        match self {
            ConditionOperator::Is => "is"@,
            ConditionOperator::In => "in"@,
            ConditionOperator::Has => "has"@,
            ConditionOperator::Between => "between"@,
            ConditionOperator::Other(o) => o@,
        }
    }

    /// Render the operator's label.
    pub fn to_text(&self) -> (r: String)
        ensures
            r@ == self.spec_text(),
    {
        match self {
            ConditionOperator::Is => "is".to_owned(),
            ConditionOperator::In => "in".to_owned(),
            ConditionOperator::Has => "has".to_owned(),
            ConditionOperator::Between => "between".to_owned(),
            ConditionOperator::Other(o) => o.clone(),
        }
    }
}

/// One rendered condition: the dimension on the left, a display operator,
/// and the remaining operands joined with commas on the right.
pub struct Condition {
    pub left_operand: String,
    pub operator: ConditionOperator,
    pub right_operand: String,
}

/// The mathematical model of a [`Condition`].
pub struct SpecCondition {
    pub left_operand: Seq<char>,
    pub operator: SpecConditionOperator,
    pub right_operand: Seq<char>,
}

impl View for Condition {
    type V = SpecCondition;

    open spec fn view(&self) -> SpecCondition {
        SpecCondition {
            left_operand: self.left_operand@,
            operator: self.operator@,
            right_operand: self.right_operand@,
        }
    }
}

/// The dimension an operand list tests: the `var` name of the first variable
/// leaf among the operands, or the empty string.
pub open spec fn spec_dimension_name(ops: Seq<SpecValue>) -> Seq<char>
    decreases ops.len(),
{
    if ops.len() == 0 {
        Seq::empty()
    } else if spec_obj_with_var(ops[0]) {
        match om_get(ops[0]->Obj_0, "var"@) {
            Some(SpecValue::Str(s)) => s,
            _ => Seq::empty(),
        }
    } else {
        spec_dimension_name(ops.drop_first())
    }
}

/// The display text of one non-variable operand.
pub open spec fn spec_operand_text(v: SpecValue) -> Seq<char> {
    match v {
        SpecValue::Null => "null"@,
        SpecValue::Str(s) => s,
        _ => spec_json_text(v),
    }
}

/// The display texts of the non-variable operands, in order.
pub open spec fn spec_operand_texts(ops: Seq<SpecValue>) -> Seq<Seq<char>>
    decreases ops.len(),
{
    if ops.len() == 0 {
        Seq::empty()
    } else {
        spec_operand_texts(ops.drop_last()) + if spec_obj_with_var(ops.last()) {
            Seq::<Seq<char>>::empty()
        } else {
            seq![spec_operand_text(ops.last())]
        }
    }
}

/// A condition read from one operator entry: the first key of the map is the
/// operator, its value the operand array (anything else counts as no
/// operands).
pub open spec fn spec_condition_of_entries(es: SpecEntries) -> Option<SpecCondition> {
    if es.len() == 0 {
        None
    } else {
        let op = es[0].0;
        let operands = match es[0].1 {
            SpecValue::Arr(a) => a,
            _ => Seq::<SpecValue>::empty(),
        };
        Some(
            SpecCondition {
                left_operand: spec_dimension_name(operands),
                operator: spec_operator_of(op, operands),
                right_operand: spec_join(spec_operand_texts(operands)),
            },
        )
    }
}

/// A condition read from a value: the value must be an object.
pub open spec fn spec_condition_of_value(v: SpecValue) -> Option<SpecCondition> {
    match v {
        SpecValue::Obj(es) => spec_condition_of_entries(es),
        _ => None,
    }
}

/// Find the dimension name among the operands.
#[verifier::loop_isolation(false)]
fn dimension_name(operands: &Vec<Value>) -> (r: String)
    ensures
        r@ == spec_dimension_name(sval_seq(operands@)),
{
    broadcast use group_sval;

    let ghost ops = sval_seq(operands@);
    proof {
        crate::value::lemma_sval_seq_len(operands@);
        assert(ops.skip(0) =~= ops);
    }
    let mut i: usize = 0;
    while i < operands.len()
        invariant
            i <= operands.len(),
            spec_dimension_name(ops) == spec_dimension_name(ops.skip(i as int)),
        decreases operands.len() - i,
    {
        proof {
            crate::value::lemma_sval_seq_index(operands@, i as int);
            assert(ops.skip(i as int)[0] == ops[i as int]);
            assert(ops.skip(i as int).drop_first() =~= ops.skip(i as int + 1));
        }
        match &operands[i] {
            Value::Obj(es) => {
                match crate::value::map_get(es, &"var".to_owned()) {
                    Some(Value::Str(s)) => {
                        return s.clone();
                    },
                    Some(_) => {
                        return String::new();
                    },
                    None => {},
                }
            },
            _ => {},
        }
        i += 1;
    }
    proof {
        assert(ops.skip(operands@.len() as int) =~= Seq::<SpecValue>::empty());
    }
    String::new()
}

/// Join texts with commas.
#[verifier::loop_isolation(false)]
fn join_commas(ts: &Vec<String>) -> (r: String)
    ensures
        r@ == spec_join(ts@.map_values(|p: String| p@)),
{
    proof {
        reveal_strlit(",");
    }
    let ghost tv = ts@.map_values(|p: String| p@);
    let mut out = String::new();
    let mut i: usize = 0;
    while i < ts.len()
        invariant
            i <= ts.len(),
            out@ == spec_join(tv.take(i as int)),
        decreases ts.len() - i,
    {
        if i > 0 {
            out.append(",");
        }
        out.append(ts[i].as_str());
        proof {
            assert(tv.take(i as int + 1).drop_last() =~= tv.take(i as int));
            assert(tv.take(i as int + 1).last() == tv[i as int]);
            assert(out@ =~= spec_join(tv.take(i as int + 1)));
        }
        i += 1;
    }
    proof {
        assert(tv.take(ts@.len() as int) =~= tv);
    }
    out
}

/// Render the non-variable operands, joined with commas.
#[verifier::loop_isolation(false)]
fn other_operands(operands: &Vec<Value>) -> (r: String)
    ensures
        r@ == spec_join(spec_operand_texts(sval_seq(operands@))),
{
    broadcast use group_sval;

    proof {
        reveal_strlit("null");
    }
    let ghost ops = sval_seq(operands@);
    proof {
        crate::value::lemma_sval_seq_len(operands@);
    }
    let mut texts: Vec<String> = Vec::new();
    let mut i: usize = 0;
    while i < operands.len()
        invariant
            i <= operands.len(),
            texts@.map_values(|p: String| p@) == spec_operand_texts(ops.take(i as int)),
        decreases operands.len() - i,
    {
        proof {
            crate::value::lemma_sval_seq_index(operands@, i as int);
            assert(ops.take(i as int + 1).drop_last() =~= ops.take(i as int));
            assert(ops.take(i as int + 1).last() == ops[i as int]);
        }
        let ghost before = texts@.map_values(|p: String| p@);
        let v = &operands[i];
        if !obj_with_var(v) {
            let t: String = match v {
                Value::Null => "null".to_owned(),
                Value::Str(s) => s.clone(),
                _ => value_to_text(v),
            };
            texts.push(t);
            proof {
                assert(texts@.map_values(|p: String| p@) =~= before.push(
                    spec_operand_text(ops[i as int]),
                ));
                assert(texts@.map_values(|p: String| p@) =~= spec_operand_texts(
                    ops.take(i as int + 1),
                ));
            }
        } else {
            proof {
                assert(texts@.map_values(|p: String| p@) =~= spec_operand_texts(
                    ops.take(i as int + 1),
                ));
            }
        }
        i += 1;
    }
    proof {
        assert(ops.take(operands@.len() as int) =~= ops);
    }
    join_commas(&texts)
}

impl Condition {
    /// Read a condition from an object's entries: the first key names the
    /// operator, its value carries the operands.
    pub fn try_from_entries(entries: &Vec<(String, Value)>) -> (r: Result<Condition, &'static str>)
        ensures
            match r {
                Ok(c) => spec_condition_of_entries(crate::value::map_view(*entries)) == Some(c@),
                Err(_) => spec_condition_of_entries(crate::value::map_view(*entries)) is None,
            },
    {
        broadcast use group_sval;

        proof {
            crate::value::lemma_sval_entries_len(entries@);
        }
        if entries.len() == 0 {
            return Err("not a valid condition map");
        }
        proof {
            crate::value::lemma_sval_entries_index(entries@, 0);
        }
        let p = &entries[0];
        let empty_operands: Vec<Value> = Vec::new();
        let operands: &Vec<Value> = match &p.1 {
            Value::Arr(a) => a,
            _ => &empty_operands,
        };
        let left = dimension_name(operands);
        let operator = ConditionOperator::from_parts(p.0.clone(), operands);
        let right = other_operands(operands);
        Ok(Condition { left_operand: left, operator, right_operand: right })
    }

    /// Read a condition from a value, which must be an object.
    pub fn try_from_value(value: &Value) -> (r: Result<Condition, &'static str>)
        ensures
            match r {
                Ok(c) => spec_condition_of_value(value@) == Some(c@),
                Err(_) => spec_condition_of_value(value@) is None,
            },
    {
        match value {
            Value::Obj(entries) => Condition::try_from_entries(entries),
            _ => Err("not a valid condition value, should be an object"),
        }
    }

    /// The rendered condition: left operand, operator label, right operand,
    /// separated by single spaces.
    pub open spec fn spec_text(&self) -> Seq<char> {
        self.left_operand@ + seq![' '] + self.operator.spec_text() + seq![' ']
            + self.right_operand@
    }

    /// Render the condition as one line of text.
    pub fn to_text(&self) -> (r: String)
        ensures
            r@ == self.spec_text(),
    {
        proof {
            reveal_strlit(" ");
        }
        let mut out = self.left_operand.clone();
        out.append(" ");
        let op = self.operator.to_text();
        out.append(op.as_str());
        out.append(" ");
        out.append(self.right_operand.as_str());
        proof {
            assert(out@ =~= self.spec_text());
        }
        out
    }
}

/// The conditions a context displays: the members of a top-level `and`, or
/// the single condition itself.
pub open spec fn spec_conditions_of_context(cond: SpecValue) -> Option<Seq<SpecCondition>> {
    match cond {
        SpecValue::Obj(es) => match om_get(es, "and"@) {
            Some(SpecValue::Arr(arr)) => if forall|i: int|
                0 <= i < arr.len() ==> spec_condition_of_value(#[trigger] arr[i]) is Some {
                Some(Seq::new(arr.len(), |i: int| spec_condition_of_value(arr[i])->Some_0))
            } else {
                None
            },
            Some(_) => None,
            None => match spec_condition_of_entries(es) {
                Some(c) => Some(seq![c]),
                None => None,
            },
        },
        _ => None,
    }
}

/// Read the display conditions of a context's predicate.
#[verifier::loop_isolation(false)]
pub fn conditions_of_context(context: &Context) -> (r: Result<Vec<Condition>, &'static str>)
    ensures
        match r {
            Ok(cs) => spec_conditions_of_context(context.condition@) == Some(
                cs@.map_values(|c: Condition| c@),
            ),
            Err(_) => spec_conditions_of_context(context.condition@) is None,
        },
{
    broadcast use group_sval;

    let entries = match &context.condition {
        Value::Obj(entries) => entries,
        _ => {
            return Err("failed to parse context.condition as an object");
        },
    };
    match crate::value::map_get(entries, &"and".to_owned()) {
        Some(Value::Arr(arr)) => {
            let ghost av = sval_seq(arr@);
            proof {
                crate::value::lemma_sval_seq_len(arr@);
            }
            let mut out: Vec<Condition> = Vec::new();
            let mut i: usize = 0;
            while i < arr.len()
                invariant
                    i <= arr.len(),
                    out@.len() == i,
                    forall|j: int|
                        0 <= j < i ==> spec_condition_of_value(#[trigger] av[j]) == Some(
                            out@[j]@,
                        ),
                decreases arr.len() - i,
            {
                proof {
                    crate::value::lemma_sval_seq_index(arr@, i as int);
                }
                match Condition::try_from_value(&arr[i]) {
                    Ok(c) => {
                        out.push(c);
                    },
                    Err(e) => {
                        return Err(e);
                    },
                }
                i += 1;
            }
            proof {
                assert(spec_conditions_of_context(context.condition@) matches Some(cs) && cs
                    =~= out@.map_values(|c: Condition| c@));
            }
            Ok(out)
        },
        Some(_) => Err("failed to parse value of and as array"),
        None => {
            match Condition::try_from_entries(entries) {
                Ok(c) => {
                    let mut out: Vec<Condition> = Vec::new();
                    let ghost cv = c@;
                    out.push(c);
                    proof {
                        assert(out@.map_values(|x: Condition| x@) =~= seq![cv]);
                    }
                    Ok(out)
                },
                Err(e) => Err(e),
            }
        },
    }
}

} // verus!
