//! Text renderings of values: compact JSON text, decimal integers, string
//! escaping, and small string utilities (splitting on commas, parsing
//! decimal integers). All of it is verified against spec functions that
//! define each format directly.

use vstd::prelude::*;

use crate::value::{sval, sval_entries, sval_seq, group_sval, SpecEntries, SpecValue, Value};

verus! {

/// Relies on String::push: appending one character to the end.
pub assume_specification[ String::push ](s: &mut String, c: char)
    ensures
        final(s)@ == old(s)@.push(c),
;

/// The decimal digit characters.
pub open spec fn spec_digit_char(d: int) -> char {
    if d == 0 {
        '0'
    } else if d == 1 {
        '1'
    } else if d == 2 {
        '2'
    } else if d == 3 {
        '3'
    } else if d == 4 {
        '4'
    } else if d == 5 {
        '5'
    } else if d == 6 {
        '6'
    } else if d == 7 {
        '7'
    } else if d == 8 {
        '8'
    } else {
        '9'
    }
}

/// The hexadecimal digit characters, lower case.
pub open spec fn spec_hex_char(d: int) -> char {
    if d < 10 {
        spec_digit_char(d)
    } else if d == 10 {
        'a'
    } else if d == 11 {
        'b'
    } else if d == 12 {
        'c'
    } else if d == 13 {
        'd'
    } else if d == 14 {
        'e'
    } else {
        'f'
    }
}

/// The decimal digits of a natural number, most significant first.
pub open spec fn spec_nat_digits(n: nat) -> Seq<char>
    decreases n,
{
    if n < 10 {
        seq![spec_digit_char(n as int)]
    } else {
        spec_nat_digits(n / 10).push(spec_digit_char((n % 10) as int))
    }
}

/// The decimal text of an integer.
pub open spec fn spec_int_text(n: int) -> Seq<char> {
    if n < 0 {
        seq!['-'] + spec_nat_digits((-n) as nat)
    } else {
        spec_nat_digits(n as nat)
    }
}

/// How one character is written inside a JSON string literal.
pub open spec fn spec_escape_char(c: char) -> Seq<char> {
    if c == '"' {
        seq!['\\', '"']
    } else if c == '\\' {
        seq!['\\', '\\']
    } else if c == '\u{8}' {
        seq!['\\', 'b']
    } else if c == '\u{c}' {
        seq!['\\', 'f']
    } else if c == '\n' {
        seq!['\\', 'n']
    } else if c == '\r' {
        seq!['\\', 'r']
    } else if c == '\t' {
        seq!['\\', 't']
    } else if (c as u32) < 32 {
        let hi = spec_hex_char(((c as u32) / 16) as int);
        let lo = spec_hex_char(((c as u32) % 16) as int);
        seq!['\\', 'u', '0', '0', hi, lo]
    } else {
        seq![c]
    }
}

/// A string's characters written inside a JSON string literal.
pub open spec fn spec_escape(s: Seq<char>) -> Seq<char>
    decreases s.len(),
{
    if s.len() == 0 {
        Seq::empty()
    } else {
        spec_escape(s.drop_last()) + spec_escape_char(s.last())
    }
}

/// The compact JSON text of a value.
pub open spec fn spec_json_text(v: SpecValue) -> Seq<char>
    decreases v, 0int,
{
    match v {
        SpecValue::Null => "null"@,
        SpecValue::Bool(b) => if b {
            "true"@
        } else {
            "false"@
        },
        SpecValue::Num(n) => spec_int_text(n),
        SpecValue::Str(s) => seq!['"'] + spec_escape(s) + seq!['"'],
        SpecValue::Arr(items) => seq!['['] + spec_json_items(items) + seq![']'],
        SpecValue::Obj(entries) => seq!['{'] + spec_json_entries(entries) + seq!['}'],
    }
}

pub open spec fn spec_json_items(items: Seq<SpecValue>) -> Seq<char>
    decreases items, 1int,
{
    if items.len() == 0 {
        Seq::empty()
    } else if items.len() == 1 {
        spec_json_text(items[0])
    } else {
        spec_json_items(items.drop_last()) + seq![','] + spec_json_text(items.last())
    }
}

pub open spec fn spec_json_entry(e: (Seq<char>, SpecValue)) -> Seq<char>
    decreases e, 0int,
{
    seq!['"'] + spec_escape(e.0) + seq!['"', ':'] + spec_json_text(e.1)
}

pub open spec fn spec_json_entries(entries: SpecEntries) -> Seq<char>
    decreases entries, 1int,
{
    if entries.len() == 0 {
        Seq::empty()
    } else if entries.len() == 1 {
        spec_json_entry(entries[0])
    } else {
        spec_json_entries(entries.drop_last()) + seq![','] + spec_json_entry(entries.last())
    }
}

/// One decimal digit as text.
fn digit_str(d: u64) -> (r: &'static str)
    requires
        d < 10,
    ensures
        r@ == seq![spec_digit_char(d as int)],
{
    proof {
        reveal_strlit("0");
        reveal_strlit("1");
        reveal_strlit("2");
        reveal_strlit("3");
        reveal_strlit("4");
        reveal_strlit("5");
        reveal_strlit("6");
        reveal_strlit("7");
        reveal_strlit("8");
        reveal_strlit("9");
    }
    if d == 0 {
        "0"
    } else if d == 1 {
        "1"
    } else if d == 2 {
        "2"
    } else if d == 3 {
        "3"
    } else if d == 4 {
        "4"
    } else if d == 5 {
        "5"
    } else if d == 6 {
        "6"
    } else if d == 7 {
        "7"
    } else if d == 8 {
        "8"
    } else {
        "9"
    }
}

/// One hexadecimal digit as text.
fn hex_str(d: u32) -> (r: &'static str)
    requires
        d < 16,
    ensures
        r@ == seq![spec_hex_char(d as int)],
{
    if d < 10 {
        digit_str(d as u64)
    } else {
        proof {
            reveal_strlit("a");
            reveal_strlit("b");
            reveal_strlit("c");
            reveal_strlit("d");
            reveal_strlit("e");
            reveal_strlit("f");
        }
        if d == 10 {
            "a"
        } else if d == 11 {
            "b"
        } else if d == 12 {
            "c"
        } else if d == 13 {
            "d"
        } else if d == 14 {
            "e"
        } else {
            "f"
        }
    }
}

/// The decimal text of a natural number.
pub fn nat_text(n: u64) -> (r: String)
    ensures
        r@ == spec_nat_digits(n as nat),
    decreases n,
{
    if n < 10 {
        digit_str(n).to_owned()
    } else {
        let mut s = nat_text(n / 10);
        s.append(digit_str(n % 10));
        s
    }
}

/// The decimal text of an integer.
pub fn int_text(n: i64) -> (r: String)
    ensures
        r@ == spec_int_text(n as int),
{
    proof {
        reveal_strlit("-");
    }
    if n >= 0 {
        nat_text(n as u64)
    } else {
        let magnitude: u64 = if n == i64::MIN {
            9223372036854775808u64
        } else {
            (-n) as u64
        };
        let mut s = "-".to_owned();
        let digits = nat_text(magnitude);
        s.append(digits.as_str());
        s
    }
}

/// One character escaped for a JSON string literal.
fn escape_char_text(c: char) -> (r: String)
    ensures
        r@ == spec_escape_char(c),
{
    proof {
        reveal_strlit("\\\"");
        reveal_strlit("\\\\");
        reveal_strlit("\\b");
        reveal_strlit("\\f");
        reveal_strlit("\\n");
        reveal_strlit("\\r");
        reveal_strlit("\\t");
        reveal_strlit("\\u00");
    }
    if c == '"' {
        "\\\"".to_owned()
    } else if c == '\\' {
        "\\\\".to_owned()
    } else if c == '\u{8}' {
        "\\b".to_owned()
    } else if c == '\u{c}' {
        "\\f".to_owned()
    } else if c == '\n' {
        "\\n".to_owned()
    } else if c == '\r' {
        "\\r".to_owned()
    } else if c == '\t' {
        "\\t".to_owned()
    } else if (c as u32) < 32 {
        let mut s = "\\u00".to_owned();
        s.append(hex_str((c as u32) / 16));
        s.append(hex_str((c as u32) % 16));
        proof {
            assert(s@ =~= spec_escape_char(c));
        }
        s
    } else {
        let mut s = String::new();
        s.push(c);
        proof {
            assert(s@ =~= seq![c]);
        }
        s
    }
}

/// A string's characters escaped for a JSON string literal.
#[verifier::loop_isolation(false)]
pub fn escape_text(s: &str) -> (r: String)
    ensures
        r@ == spec_escape(s@),
{
    let n = s.unicode_len();
    let mut out = String::new();
    let mut i: usize = 0;
    while i < n
        invariant
            i <= n,
            n == s@.len(),
            out@ == spec_escape(s@.take(i as int)),
        decreases n - i,
    {
        let piece = escape_char_text(s.get_char(i));
        out.append(piece.as_str());
        proof {
            assert(s@.take(i as int + 1).drop_last() =~= s@.take(i as int));
            assert(s@.take(i as int + 1).last() == s@[i as int]);
        }
        i += 1;
    }
    proof {
        assert(s@.take(n as int) =~= s@);
    }
    out
}

/// The compact JSON text of a value.
#[verifier::loop_isolation(false)]
pub fn value_to_text(v: &Value) -> (r: String)
    ensures
        r@ == spec_json_text(v@),
    decreases v,
{
    broadcast use group_sval;

    proof {
        reveal_strlit("null");
        reveal_strlit("true");
        reveal_strlit("false");
        reveal_strlit("[");
        reveal_strlit("]");
        reveal_strlit("{");
        reveal_strlit("}");
        reveal_strlit(",");
        reveal_strlit("\"");
        reveal_strlit("\":");
    }
    match v {
        Value::Null => "null".to_owned(),
        Value::Bool(b) => if *b {
            "true".to_owned()
        } else {
            "false".to_owned()
        },
        Value::Num(n) => int_text(*n),
        Value::Str(s) => {
            let mut out = "\"".to_owned();
            let escaped = escape_text(s.as_str());
            out.append(escaped.as_str());
            out.append("\"");
            proof {
                assert(out@ =~= spec_json_text(v@));
            }
            out
        },
        Value::Arr(items) => {
            let ghost vs = sval_seq(items@);
            let mut out = "[".to_owned();
            let mut i: usize = 0;
            while i < items.len()
                invariant
                    i <= items.len(),
                    out@ == seq!['['] + spec_json_items(vs.take(i as int)),
                decreases items.len() - i,
            {
                proof {
                    assert(decreases_to!(*items => items@[i as int]));
                    crate::value::lemma_sval_seq_index(items@, i as int);
                }
                if i > 0 {
                    out.append(",");
                }
                let piece = value_to_text(&items[i]);
                out.append(piece.as_str());
                proof {
                    assert(vs.take(i as int + 1).drop_last() =~= vs.take(i as int));
                    assert(vs.take(i as int + 1).last() == vs[i as int]);
                    assert(out@ =~= seq!['['] + spec_json_items(vs.take(i as int + 1)));
                }
                i += 1;
            }
            out.append("]");
            proof {
                assert(vs.take(items@.len() as int) =~= vs);
                assert(out@ =~= spec_json_text(v@));
            }
            out
        },
        Value::Obj(entries) => {
            let ghost es = sval_entries(entries@);
            let mut out = "{".to_owned();
            let mut i: usize = 0;
            while i < entries.len()
                invariant
                    i <= entries.len(),
                    out@ == seq!['{'] + spec_json_entries(es.take(i as int)),
                decreases entries.len() - i,
            {
                proof {
                    assert(decreases_to!(*entries => entries@[i as int]));
                    assert(decreases_to!(entries@[i as int] => entries@[i as int].1));
                    crate::value::lemma_sval_entries_index(entries@, i as int);
                }
                if i > 0 {
                    out.append(",");
                }
                let p = &entries[i];
                out.append("\"");
                let key = escape_text(p.0.as_str());
                out.append(key.as_str());
                out.append("\":");
                let piece = value_to_text(&p.1);
                out.append(piece.as_str());
                proof {
                    assert(es.take(i as int + 1).drop_last() =~= es.take(i as int));
                    assert(es.take(i as int + 1).last() == es[i as int]);
                    assert(es[i as int].0 == p.0@ && es[i as int].1 == p.1@);
                    assert(key@ == spec_escape(es[i as int].0));
                    assert(piece@ == spec_json_text(es[i as int].1));
                    assert(spec_json_entry(es[i as int]) =~= seq!['"'] + key@ + seq!['"', ':']
                        + piece@);
                    assert(out@ =~= seq!['{'] + spec_json_entries(es.take(i as int + 1)));
                }
                i += 1;
            }
            out.append("}");
            proof {
                assert(es.take(entries@.len() as int) =~= es);
                assert(out@ =~= spec_json_text(v@));
            }
            out
        },
    }
}

/// The pieces of a list joined with commas.
pub open spec fn spec_join(ts: Seq<Seq<char>>) -> Seq<char>
    decreases ts.len(),
{
    if ts.len() == 0 {
        Seq::empty()
    } else if ts.len() == 1 {
        ts[0]
    } else {
        spec_join(ts.drop_last()) + seq![','] + ts.last()
    }
}

/// No comma occurs in any piece.
pub open spec fn comma_free(ts: Seq<Seq<char>>) -> bool {
    forall|i: int, j: int|
        0 <= i < ts.len() && 0 <= j < ts[i].len() ==> #[trigger] ts[i][j] != ','
}

/// Split a string at its commas. The pieces are comma-free and joining them
/// back with commas gives the input; a string without commas is one piece.
#[verifier::loop_isolation(false)]
pub fn split_commas(s: &str) -> (r: Vec<String>)
    ensures
        r@.len() >= 1,
        comma_free(r@.map_values(|p: String| p@)),
        spec_join(r@.map_values(|p: String| p@)) == s@,
{
    let n = s.unicode_len();
    let mut pieces: Vec<String> = Vec::new();
    let mut current = String::new();
    let mut i: usize = 0;
    while i < n
        invariant
            i <= n,
            n == s@.len(),
            comma_free(pieces@.map_values(|p: String| p@)),
            forall|j: int| 0 <= j < current@.len() ==> current@[j] != ',',
            spec_join(pieces@.map_values(|p: String| p@).push(current@)) == s@.take(i as int),
        decreases n - i,
    {
        let ghost ts = pieces@.map_values(|p: String| p@);
        let ghost cur = current@;
        let c = s.get_char(i);
        if c == ',' {
            pieces.push(current);
            current = String::new();
            proof {
                let ts2 = pieces@.map_values(|p: String| p@);
                assert(ts2 =~= ts.push(cur));
                assert(ts2.push(current@).drop_last() =~= ts2);
                assert(ts2.push(current@).last() == current@);
                assert(spec_join(ts2.push(current@)) =~= s@.take(i as int + 1));
            }
        } else {
            current.push(c);
            proof {
                let ts2 = pieces@.map_values(|p: String| p@);
                assert(ts2 =~= ts);
                assert(ts.push(current@).drop_last() =~= ts);
                assert(ts.push(cur).drop_last() =~= ts);
                if ts.len() == 0 {
                    assert(spec_join(ts.push(current@)) == current@);
                    assert(spec_join(ts.push(current@)) =~= s@.take(i as int + 1));
                } else {
                    assert(spec_join(ts.push(current@)) =~= spec_join(ts.push(cur)).push(c));
                    assert(spec_join(ts.push(current@)) =~= s@.take(i as int + 1));
                }
            }
        }
        i += 1;
    }
    let ghost ts = pieces@.map_values(|p: String| p@);
    let ghost cur = current@;
    pieces.push(current);
    proof {
        let ts2 = pieces@.map_values(|p: String| p@);
        assert(ts2 =~= ts.push(cur));
        assert(comma_free(ts2)) by {
            assert(forall|i2: int| 0 <= i2 < ts.len() ==> ts2[i2] =~= ts[i2]);
        }
        assert(s@.take(n as int) =~= s@);
    }
    pieces
}

/// The value of a digit character, ten for anything else.
pub open spec fn spec_digit_val(c: char) -> int {
    if c == '0' {
        0
    } else if c == '1' {
        1
    } else if c == '2' {
        2
    } else if c == '3' {
        3
    } else if c == '4' {
        4
    } else if c == '5' {
        5
    } else if c == '6' {
        6
    } else if c == '7' {
        7
    } else if c == '8' {
        8
    } else if c == '9' {
        9
    } else {
        10
    }
}

/// All characters are decimal digits.
pub open spec fn all_digits(s: Seq<char>) -> bool {
    forall|i: int| 0 <= i < s.len() ==> spec_digit_val(#[trigger] s[i]) < 10
}

/// The value of a digit string, most significant first.
pub open spec fn spec_digits_val(s: Seq<char>) -> int
    decreases s.len(),
{
    if s.len() == 0 {
        0
    } else {
        spec_digits_val(s.drop_last()) * 10 + spec_digit_val(s.last())
    }
}

/// The integer a decimal text denotes: an optional minus sign followed by at
/// least one digit. Anything else denotes nothing.
pub open spec fn spec_parse_int(s: Seq<char>) -> Option<int> {
    if s.len() >= 1 && s[0] == '-' {
        if s.len() >= 2 && all_digits(s.skip(1)) {
            Some(-spec_digits_val(s.skip(1)))
        } else {
            None
        }
    } else if s.len() >= 1 && all_digits(s) {
        Some(spec_digits_val(s))
    } else {
        None
    }
}

/// The digit value of a character, or ten.
fn digit_val(c: char) -> (r: u32)
    ensures
        r == spec_digit_val(c),
{
    if c == '0' {
        0
    } else if c == '1' {
        1
    } else if c == '2' {
        2
    } else if c == '3' {
        3
    } else if c == '4' {
        4
    } else if c == '5' {
        5
    } else if c == '6' {
        6
    } else if c == '7' {
        7
    } else if c == '8' {
        8
    } else if c == '9' {
        9
    } else {
        10
    }
}

/// Parse an unsigned decimal digit run, failing on a value above the bound.
#[verifier::loop_isolation(false)]
fn parse_digits(s: &str, from: usize, bound: u64) -> (r: Option<u64>)
    requires
        from < s@.len(),
        bound >= 9,
    ensures
        match r {
            Some(t) => all_digits(s@.skip(from as int)) && t == spec_digits_val(
                s@.skip(from as int),
            ) && t <= bound,
            None => !all_digits(s@.skip(from as int)) || spec_digits_val(s@.skip(from as int))
                > bound,
        },
{
    let n = s.unicode_len();
    let ghost ds = s@.skip(from as int);
    let mut acc: u64 = 0;
    let mut i: usize = from;
    while i < n
        invariant
            from <= i <= n,
            n == s@.len(),
            all_digits(s@.subrange(from as int, i as int)),
            acc == spec_digits_val(s@.subrange(from as int, i as int)),
            acc <= bound,
        decreases n - i,
    {
        let d = digit_val(s.get_char(i));
        if d >= 10 {
            proof {
                assert(ds[i - from] == s@[i as int]);
            }
            return None;
        }
        if acc > bound / 10 || 10 * acc > bound - (d as u64) {
            proof {
                lemma_digits_val_grows(s@, from as int, i as int, bound as int);
            }
            return None;
        }
        acc = 10 * acc + (d as u64);
        proof {
            assert(s@.subrange(from as int, i as int + 1).drop_last() =~= s@.subrange(
                from as int,
                i as int,
            ));
            assert(s@.subrange(from as int, i as int + 1).last() == s@[i as int]);
        }
        i += 1;
    }
    proof {
        assert(s@.subrange(from as int, n as int) =~= ds);
    }
    Some(acc)
}

/// Once a digit prefix exceeds the bound, the whole run does: appending
/// digits never shrinks the value.
proof fn lemma_digits_val_grows(s: Seq<char>, from: int, i: int, bound: int)
    requires
        0 <= from <= i < s.len(),
        spec_digits_val(s.subrange(from, i)) * 10 + spec_digit_val(s[i]) > bound,
        all_digits(s.subrange(from, i)),
        spec_digit_val(s[i]) < 10,
        bound >= 0,
    ensures
        !all_digits(s.skip(from)) || spec_digits_val(s.skip(from)) > bound,
{
    if all_digits(s.skip(from)) {
        lemma_digits_val_prefix_bound(s, from, i + 1, s.len() as int);
        assert(s.subrange(from, i + 1).drop_last() =~= s.subrange(from, i));
        assert(s.subrange(from, i + 1).last() == s[i]);
    }
}

/// A digit run is at least as large as the value of any of its prefixes.
proof fn lemma_digits_val_prefix_bound(s: Seq<char>, from: int, mid: int, end: int)
    requires
        0 <= from <= mid <= end <= s.len(),
        all_digits(s.skip(from)),
        from <= mid,
        end == s.len(),
    ensures
        spec_digits_val(s.subrange(from, end)) >= spec_digits_val(s.subrange(from, mid)),
        spec_digits_val(s.subrange(from, mid)) >= 0,
    decreases end - mid,
{
    lemma_digits_val_nonneg(s.subrange(from, mid));
    if mid < end {
        lemma_digits_val_prefix_bound(s, from, mid + 1, end);
        assert(s.subrange(from, mid + 1).drop_last() =~= s.subrange(from, mid));
        assert(s.subrange(from, mid + 1).last() == s[mid]);
        assert(s.skip(from)[mid - from] == s[mid]);
        lemma_digits_val_nonneg(s.subrange(from, mid));
        assert(spec_digits_val(s.subrange(from, mid + 1)) >= spec_digits_val(
            s.subrange(from, mid),
        )) by {
            assert(spec_digit_val(s[mid]) >= 0);
            assert(spec_digits_val(s.subrange(from, mid)) * 10 >= spec_digits_val(
                s.subrange(from, mid),
            )) by (nonlinear_arith)
                requires
                    spec_digits_val(s.subrange(from, mid)) >= 0,
            ;
        }
    }
}

proof fn lemma_digits_val_nonneg(s: Seq<char>)
    ensures
        spec_digits_val(s) >= 0,
    decreases s.len(),
{
    if s.len() > 0 {
        lemma_digits_val_nonneg(s.drop_last());
        assert(spec_digits_val(s.drop_last()) * 10 >= 0) by (nonlinear_arith)
            requires
                spec_digits_val(s.drop_last()) >= 0,
        ;
    }
}

/// Parse a decimal integer: an optional minus sign and at least one digit.
/// Fails exactly on malformed text and on values outside `i64`.
pub fn parse_i64(s: &str) -> (r: Option<i64>)
    ensures
        match r {
            Some(t) => spec_parse_int(s@) == Some(t as int),
            None => spec_parse_int(s@) is None || (spec_parse_int(s@) matches Some(v) && (v
                > i64::MAX || v < i64::MIN)),
        },
{
    let n = s.unicode_len();
    if n == 0 {
        return None;
    }
    if s.get_char(0) == '-' {
        if n == 1 {
            return None;
        }
        match parse_digits(s, 1, 9223372036854775808u64) {
            Some(t) => {
                let r: i64 = if t == 9223372036854775808u64 {
                    i64::MIN
                } else {
                    -((t) as i64)
                };
                Some(r)
            },
            None => None,
        }
    } else {
        match parse_digits(s, 0, 9223372036854775807u64) {
            Some(t) => {
                proof {
                    assert(s@.skip(0) =~= s@);
                }
                Some(t as i64)
            },
            None => {
                proof {
                    assert(s@.skip(0) =~= s@);
                }
                None
            },
        }
    }
}

} // verus!
