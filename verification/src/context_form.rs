//! Building predicate trees from the pieces an authoring form collects: a
//! dimension name, an operator, and an operand text. The range operator gets
//! its two bounds from a comma-separated operand text; every other operator
//! gets one operand, read as JSON when it parses and as a plain string
//! otherwise.

use vstd::prelude::*;

use crate::codec::{json_parsed, parse_json};
use crate::dimension::Dimension;
use crate::text::{parse_i64, spec_parse_int};
use crate::value::{SpecValue, Value};

verus! {

/// An ASCII whitespace character.
pub open spec fn spec_is_ws(c: char) -> bool {
    c == ' ' || c == '\t' || c == '\n' || c == '\r'
}

pub open spec fn spec_trim_front(s: Seq<char>) -> Seq<char>
    decreases s.len(),
{
    if s.len() > 0 && spec_is_ws(s[0]) {
        spec_trim_front(s.drop_first())
    } else {
        s
    }
}

pub open spec fn spec_trim_back(s: Seq<char>) -> Seq<char>
    decreases s.len(),
{
    if s.len() > 0 && spec_is_ws(s.last()) {
        spec_trim_back(s.drop_last())
    } else {
        s
    }
}

/// The text with ASCII whitespace removed from both ends.
pub open spec fn spec_trim(s: Seq<char>) -> Seq<char> {
    spec_trim_back(spec_trim_front(s))
}

/// The text before the first comma (the whole text when there is none).
pub open spec fn spec_before_comma(s: Seq<char>) -> Seq<char>
    decreases s.len(),
{
    if s.len() == 0 {
        s
    } else if s[0] == ',' {
        Seq::empty()
    } else {
        seq![s[0]] + spec_before_comma(s.drop_first())
    }
}

/// The text after the first comma, if there is one.
pub open spec fn spec_after_comma(s: Seq<char>) -> Option<Seq<char>>
    decreases s.len(),
{
    if s.len() == 0 {
        None
    } else if s[0] == ',' {
        Some(s.drop_first())
    } else {
        spec_after_comma(s.drop_first())
    }
}

/// Decide [`spec_is_ws`].
fn is_ws(c: char) -> (r: bool)
    ensures
        r == spec_is_ws(c),
{
    c == ' ' || c == '\t' || c == '\n' || c == '\r'
}

/// Trim ASCII whitespace from both ends.
#[verifier::loop_isolation(false)]
pub fn trim_text(s: &str) -> (r: String)
    ensures
        r@ == spec_trim(s@),
{
    let n = s.unicode_len();
    proof {
        assert(s@.skip(0) =~= s@);
    }
    let mut start: usize = 0;
    while start < n && is_ws(s.get_char(start))
        invariant
            start <= n,
            n == s@.len(),
            spec_trim_front(s@) == spec_trim_front(s@.skip(start as int)),
        decreases n - start,
    {
        proof {
            assert(s@.skip(start as int)[0] == s@[start as int]);
            assert(s@.skip(start as int).drop_first() =~= s@.skip(start as int + 1));
        }
        start += 1;
    }
    proof {
        if start == n {
            assert(s@.skip(start as int) =~= Seq::<char>::empty());
        }
        assert(spec_trim_front(s@) == s@.skip(start as int));
    }
    let ghost front = s@.skip(start as int);
    proof {
        assert(front.take(n - start) =~= front);
    }
    let mut end: usize = n;
    while end > start && is_ws(s.get_char(end - 1))
        invariant
            start <= end <= n,
            spec_trim_back(front) == spec_trim_back(front.take(end - start)),
        decreases end,
    {
        proof {
            let piece = front.take(end - start);
            assert(piece.last() == s@[end - 1]);
            assert(piece.drop_last() =~= front.take(end - 1 - start));
        }
        end -= 1;
    }
    proof {
        assert(front.take(end - start) =~= s@.subrange(start as int, end as int));
        if end > start {
            assert(front.take(end - start).last() == s@[end - 1]);
        }
        assert(spec_trim_back(front) == s@.subrange(start as int, end as int));
    }
    s.substring_char(start, end).to_owned()
}

/// The index of the first comma, if any.
#[verifier::loop_isolation(false)]
fn first_comma(s: &str) -> (r: Option<usize>)
    ensures
        match r {
            Some(i) => i < s@.len() && s@[i as int] == ',' && spec_before_comma(s@) == s@.take(
                i as int,
            ) && spec_after_comma(s@) == Some(s@.skip(i as int + 1)),
            None => spec_before_comma(s@) == s@ && spec_after_comma(s@) is None,
        },
{
    let n = s.unicode_len();
    let mut i: usize = 0;
    while i < n
        invariant
            i <= n,
            n == s@.len(),
            forall|j: int| 0 <= j < i ==> s@[j] != ',',
        decreases n - i,
    {
        if s.get_char(i) == ',' {
            proof {
                lemma_comma_split(s@, i as int);
            }
            return Some(i);
        }
        i += 1;
    }
    proof {
        lemma_no_comma(s@);
    }
    None
}

/// Before the first comma at `i` stands `s.take(i)`; after it, `s.skip(i+1)`.
proof fn lemma_comma_split(s: Seq<char>, i: int)
    requires
        0 <= i < s.len(),
        s[i] == ',',
        forall|j: int| 0 <= j < i ==> s[j] != ',',
    ensures
        spec_before_comma(s) == s.take(i),
        spec_after_comma(s) == Some(s.skip(i + 1)),
    decreases i,
{
    if i == 0 {
        assert(spec_before_comma(s) =~= s.take(0));
        assert(s.drop_first() =~= s.skip(1));
    } else {
        assert(forall|j: int| 0 <= j < i - 1 ==> s.drop_first()[j] == s[j + 1]);
        lemma_comma_split(s.drop_first(), i - 1);
        assert(s.drop_first().take(i - 1) =~= s.take(i).drop_first());
        assert(spec_before_comma(s) =~= seq![s[0]] + s.take(i).drop_first());
        assert(seq![s[0]] + s.take(i).drop_first() =~= s.take(i));
        assert(s.drop_first().skip(i) =~= s.skip(i + 1));
    }
}

/// A comma-free text is wholly before the (absent) comma.
proof fn lemma_no_comma(s: Seq<char>)
    requires
        forall|j: int| 0 <= j < s.len() ==> s[j] != ',',
    ensures
        spec_before_comma(s) == s,
        spec_after_comma(s) is None,
    decreases s.len(),
{
    if s.len() > 0 {
        assert(forall|j: int| 0 <= j < s.drop_first().len() ==> s.drop_first()[j] == s[j + 1]);
        lemma_no_comma(s.drop_first());
        assert(seq![s[0]] + s.drop_first() =~= s);
    }
}

/// The value a form operand denotes: its JSON reading when it parses, the
/// plain string otherwise.
pub open spec fn spec_operand_value(s: Seq<char>) -> SpecValue {
    match json_parsed(s) {
        Some(v) => v,
        None => SpecValue::Str(s),
    }
}

/// Read one form operand.
pub fn operand_value(s: &str) -> (r: Value)
    ensures
        r@ == spec_operand_value(s@),
{
    match parse_json(s) {
        Some(v) => v,
        None => Value::Str(s.to_owned()),
    }
}

/// A `{"var": name}` leaf.
pub open spec fn spec_var_leaf(var: Seq<char>) -> SpecValue {
    SpecValue::Obj(seq![("var"@, SpecValue::Str(var))])
}

fn var_leaf(var: &str) -> (r: Value)
    ensures
        r@ == spec_var_leaf(var@),
{
    broadcast use crate::value::group_sval;

    let mut entries: Vec<(String, Value)> = Vec::new();
    entries.push(("var".to_owned(), Value::Str(var.to_owned())));
    proof {
        assert(crate::value::sval_entries(entries@) =~= seq![("var"@, SpecValue::Str(var@))]);
    }
    Value::Obj(entries)
}

/// The predicate a form row denotes. A range row (`<=`) takes two bounds
/// from its comma-separated operand text, the first a decimal integer, and
/// places the variable between them; any other row applies its operator to
/// the variable and the operand value.
pub open spec fn spec_condition_schema(var: Seq<char>, op: Seq<char>, val: Seq<char>) -> Option<
    SpecValue,
> {
    if op == "<="@ {
        match spec_after_comma(val) {
            Some(rest) => match spec_parse_int(spec_trim(spec_before_comma(val))) {
                Some(n) => Some(
                    SpecValue::Obj(
                        seq![
                            (
                                op,
                                SpecValue::Arr(
                                    seq![
                                        SpecValue::Num(n),
                                        spec_var_leaf(var),
                                        spec_operand_value(spec_trim(spec_before_comma(rest))),
                                    ],
                                ),
                            ),
                        ],
                    ),
                ),
                None => None,
            },
            None => None,
        }
    } else {
        Some(
            SpecValue::Obj(
                seq![(op, SpecValue::Arr(seq![spec_var_leaf(var), spec_operand_value(val)]))],
            ),
        )
    }
}

/// Build the predicate of one form row. Fails on a range row without a
/// second bound, and on a first bound that is not a decimal integer in
/// `i64`. The dimension table is accepted as the form holds one; the operand
/// reading itself does not depend on it.
pub fn get_condition_schema(var: &str, op: &str, val: &str, dimensions: &Vec<Dimension>) -> (r:
    Result<Value, String>)
    ensures
        match r {
            Ok(v) => spec_condition_schema(var@, op@, val@) == Some(v@),
            Err(_) => spec_condition_schema(var@, op@, val@) is None || (op@ == "<="@
                && (spec_parse_int(spec_trim(spec_before_comma(val@))) matches Some(n) && (n
                > i64::MAX || n < i64::MIN))),
        },
{
    broadcast use crate::value::group_sval;

    if crate::eval::str_eq(op, "<=") {
        let first_text = match first_comma(val) {
            Some(i) => s_take(val, i),
            None => {
                return Err("range operand lacks a second bound".to_owned());
            },
        };
        let val_len = val.unicode_len();
        let rest = match first_comma(val) {
            Some(i) => {
                proof {
                    assert(i < val_len);
                }
                s_skip(val, i + 1)
            },
            None => {
                return Err("range operand lacks a second bound".to_owned());
            },
        };
        let first_trimmed = trim_text(first_text.as_str());
        let first = match parse_i64(first_trimmed.as_str()) {
            Some(n) => n,
            None => {
                return Err("range bound is not an integer".to_owned());
            },
        };
        let second_text = match first_comma(rest.as_str()) {
            Some(i) => s_take(rest.as_str(), i),
            None => rest.clone(),
        };
        let second_trimmed = trim_text(second_text.as_str());
        let second = operand_value(second_trimmed.as_str());
        let mut args: Vec<Value> = Vec::new();
        args.push(Value::Num(first));
        args.push(var_leaf(var));
        args.push(second);
        let ghost argv = crate::value::sval_seq(args@);
        let mut entries: Vec<(String, Value)> = Vec::new();
        entries.push((op.to_owned(), Value::Arr(args)));
        proof {
            assert(argv =~= seq![
                SpecValue::Num(first as int),
                spec_var_leaf(var@),
                spec_operand_value(spec_trim(spec_before_comma(spec_after_comma(
                    val@,
                )->Some_0))),
            ]);
            assert(crate::value::sval_entries(entries@) =~= seq![(op@, SpecValue::Arr(argv))]);
        }
        Ok(Value::Obj(entries))
    } else {
        let operand = operand_value(val);
        let mut args: Vec<Value> = Vec::new();
        args.push(var_leaf(var));
        args.push(operand);
        let ghost argv = crate::value::sval_seq(args@);
        let mut entries: Vec<(String, Value)> = Vec::new();
        entries.push((op.to_owned(), Value::Arr(args)));
        proof {
            assert(argv =~= seq![spec_var_leaf(var@), spec_operand_value(val@)]);
            assert(crate::value::sval_entries(entries@) =~= seq![(op@, SpecValue::Arr(argv))]);
        }
        Ok(Value::Obj(entries))
    }
}

/// A copy of the first `k` characters.
fn s_take(s: &str, k: usize) -> (r: String)
    requires
        k <= s@.len(),
    ensures
        r@ == s@.take(k as int),
{
    s.substring_char(0, k).to_owned()
}

/// A copy of the characters from `k` on.
fn s_skip(s: &str, k: usize) -> (r: String)
    requires
        k <= s@.len(),
    ensures
        r@ == s@.skip(k as int),
{
    let n = s.unicode_len();
    s.substring_char(k, n).to_owned()
}

/// The predicate of a whole form: one row's predicate stands alone, several
/// rows are conjoined under `and`.
pub open spec fn spec_constructed_context(rows: Seq<(Seq<char>, Seq<char>, Seq<char>)>) -> Option<
    SpecValue,
> {
    if forall|i: int|
        0 <= i < rows.len() ==> spec_condition_schema(
            (#[trigger] rows[i]).0,
            rows[i].1,
            rows[i].2,
        ) is Some {
        let schemas = Seq::new(
            rows.len(),
            |i: int| spec_condition_schema(rows[i].0, rows[i].1, rows[i].2)->Some_0,
        );
        if rows.len() == 1 {
            Some(schemas[0])
        } else {
            Some(SpecValue::Obj(seq![("and"@, SpecValue::Arr(schemas))]))
        }
    } else {
        None
    }
}

/// The view of a form row.
pub open spec fn row_view(c: (String, String, String)) -> (Seq<char>, Seq<char>, Seq<char>) {
    (c.0@, c.1@, c.2@)
}

/// Build the predicate of a whole form: each row through
/// [`get_condition_schema`], one row standing alone, several conjoined under
/// `and`.
#[verifier::loop_isolation(false)]
pub fn construct_context(
    conditions: &Vec<(String, String, String)>,
    dimensions: &Vec<Dimension>,
) -> (r: Result<Value, String>)
    ensures
        r matches Ok(v) ==> spec_constructed_context(
            conditions@.map_values(|c: (String, String, String)| row_view(c)),
        ) == Some(v@),
{
    broadcast use crate::value::group_sval;

    let ghost rows = conditions@.map_values(|c: (String, String, String)| row_view(c));
    let mut schemas: Vec<Value> = Vec::new();
    let mut i: usize = 0;
    while i < conditions.len()
        invariant
            i <= conditions.len(),
            schemas@.len() == i,
            forall|j: int|
                0 <= j < i ==> spec_condition_schema(
                    (#[trigger] rows[j]).0,
                    rows[j].1,
                    rows[j].2,
                ) == Some(schemas@[j]@),
        decreases conditions.len() - i,
    {
        let c = &conditions[i];
        match get_condition_schema(c.0.as_str(), c.1.as_str(), c.2.as_str(), dimensions) {
            Ok(v) => {
                schemas.push(v);
            },
            Err(e) => {
                return Err(e);
            },
        }
        i += 1;
    }
    if schemas.len() == 1 {
        let v = schemas[0].deep_clone();
        proof {
            assert(spec_constructed_context(rows) matches Some(w) && w == v@);
        }
        Ok(v)
    } else {
        let ghost sv = crate::value::sval_seq(schemas@);
        let arr = Value::Arr(schemas);
        let mut entries: Vec<(String, Value)> = Vec::new();
        entries.push(("and".to_owned(), arr));
        proof {
            assert(sv =~= Seq::new(
                rows.len(),
                |j: int| spec_condition_schema(rows[j].0, rows[j].1, rows[j].2)->Some_0,
            ));
            assert(crate::value::sval_entries(entries@) =~= seq![
                ("and"@, SpecValue::Arr(sv)),
            ]);
        }
        Ok(Value::Obj(entries))
    }
}

/// The request payload: the override map under `override`, the form's
/// predicate under `context`.
pub open spec fn spec_request_payload(
    overrides: crate::value::SpecEntries,
    context: SpecValue,
) -> SpecValue {
    SpecValue::Obj(seq![("override"@, SpecValue::Obj(overrides)), ("context"@, context)])
}

/// Assemble the payload for publishing one context: its overrides and the
/// predicate built from the form rows.
pub fn construct_request_payload(
    overrides: Vec<(String, Value)>,
    conditions: &Vec<(String, String, String)>,
    dimensions: &Vec<Dimension>,
) -> (r: Result<Value, String>)
    ensures
        r matches Ok(v) ==> (spec_constructed_context(
            conditions@.map_values(|c: (String, String, String)| row_view(c)),
        ) matches Some(ctx) && v@ == spec_request_payload(
            crate::value::map_view(overrides),
            ctx,
        )),
{
    broadcast use crate::value::group_sval;

    let ghost ov = crate::value::map_view(overrides);
    let context_section = match construct_context(conditions, dimensions) {
        Ok(v) => v,
        Err(e) => {
            return Err(e);
        },
    };
    let ghost ctxv = context_section@;
    let mut entries: Vec<(String, Value)> = Vec::new();
    entries.push(("override".to_owned(), Value::Obj(overrides)));
    entries.push(("context".to_owned(), context_section));
    proof {
        assert(crate::value::sval_entries(entries@) =~= seq![
            ("override"@, SpecValue::Obj(ov)),
            ("context"@, ctxv),
        ]);
    }
    Ok(Value::Obj(entries))
}

/// Read the publishing endpoint's answer: the body on success, the schema
/// complaint on a 400, and a generic failure otherwise.
pub fn interpret_create_context_response(status: u16, body: String) -> (r: Result<String, String>)
    ensures
        status == 200 ==> (r matches Ok(s) && s == body),
        status == 400 ==> (r matches Err(e) && e@ == "Schema Validation Failed"@),
        status != 200 && status != 400 ==> (r matches Err(e) && e@ == "Internal Server Error"@),
{
    if status == 200 {
        Ok(body)
    } else if status == 400 {
        Err("Schema Validation Failed".to_owned())
    } else {
        Err("Internal Server Error".to_owned())
    }
}

} // verus!
