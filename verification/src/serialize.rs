//! Rendering a value back to JSON text.
//!
//! The rendering is verified character by character against
//! [`json_text_of`]: decimal formatting for the integers, the standard JSON
//! string escapes, lists and objects rendered recursively in stored order.
//! Only floats go through the platform's formatter, behind the named result
//! [`float_repr`].

use vstd::prelude::*;
use crate::value::{DataValue, ValueModel, model_seq, entries_model, lemma_model_seq,
    lemma_entries_model};
use crate::strutil::{chars_of, string_from_chars};
use crate::input_handler::HandleError;
use vstd::string::StringExecFns;

verus! {

/// What the platform formatter prints for the float with this bit pattern
/// (a non-finite float prints as `null`); a function of the bits alone.
pub uninterp spec fn float_repr(bits: u64) -> Seq<char>;

/// The decimal digit character for `d` in `0 ..= 9`.
pub open spec fn dec_digit(d: int) -> char {
    if d == 0 { '0' }
    else if d == 1 { '1' }
    else if d == 2 { '2' }
    else if d == 3 { '3' }
    else if d == 4 { '4' }
    else if d == 5 { '5' }
    else if d == 6 { '6' }
    else if d == 7 { '7' }
    else if d == 8 { '8' }
    else { '9' }
}

/// The lower-case hexadecimal digit character for `d` in `0 ..= 15`.
pub open spec fn hex_digit(d: int) -> char {
    if d < 10 { dec_digit(d) }
    else if d == 10 { 'a' }
    else if d == 11 { 'b' }
    else if d == 12 { 'c' }
    else if d == 13 { 'd' }
    else if d == 14 { 'e' }
    else { 'f' }
}

/// The decimal rendering of a non-negative number.
pub open spec fn dec_nat(n: int) -> Seq<char>
    decreases n,
    when n >= 0
    via dec_nat_via
{
    if n < 10 {
        seq![dec_digit(n)]
    } else {
        dec_nat(n / 10).push(dec_digit(n % 10))
    }
}

#[via_fn]
proof fn dec_nat_via(n: int) {
    assert(n >= 10 ==> 0 <= n / 10 < n) by (nonlinear_arith);
}

/// The decimal rendering of a signed number.
pub open spec fn dec_int(i: int) -> Seq<char> {
    if i < 0 {
        seq!['-'] + dec_nat(-i)
    } else {
        dec_nat(i)
    }
}

/// How one character appears inside a JSON string: quote and backslash
/// escaped, control characters by their short escapes or `\u00..`, all
/// others as themselves.
pub open spec fn escape_char(c: char) -> Seq<char> {
    if c == '"' { seq!['\\', '"'] }
    else if c == '\\' { seq!['\\', '\\'] }
    else if c == '\u{8}' { seq!['\\', 'b'] }
    else if c == '\t' { seq!['\\', 't'] }
    else if c == '\n' { seq!['\\', 'n'] }
    else if c == '\u{c}' { seq!['\\', 'f'] }
    else if c == '\r' { seq!['\\', 'r'] }
    else if (c as u32) < 32 {
        seq!['\\', 'u', '0', '0', hex_digit((c as u32) as int / 16), hex_digit(
            (c as u32) as int % 16,
        )]
    } else {
        seq![c]
    }
}

/// A whole string escaped.
pub open spec fn escape_string(s: Seq<char>) -> Seq<char>
    decreases s,
{
    if s.len() == 0 {
        Seq::empty()
    } else {
        escape_string(s.drop_last()) + escape_char(s.last())
    }
}

/// A string as it appears in JSON text: quoted and escaped.
pub open spec fn quoted(s: Seq<char>) -> Seq<char> {
    seq!['"'] + escape_string(s) + seq!['"']
}

/// The value can be encoded as JSON: no non-JSON kind anywhere in the tree.
pub open spec fn encodable(v: ValueModel) -> bool
    decreases v,
{
    match v {
        ValueModel::Other(_) => false,
        ValueModel::List(items) => forall|i: int|
            0 <= i < items.len() ==> encodable(#[trigger] items[i]),
        ValueModel::Object(fields) => forall|i: int|
            0 <= i < fields.len() ==> encodable((#[trigger] fields[i]).1),
        _ => true,
    }
}

/// The JSON text of a value.  Lists and objects render their elements in
/// stored order; what a non-encodable value would render to is of no
/// consequence, since rendering rejects it.
pub open spec fn json_text_of(v: ValueModel) -> Seq<char>
    decreases v,
{
    match v {
        ValueModel::Null => "null"@,
        ValueModel::Bool(b) => if b { "true"@ } else { "false"@ },
        ValueModel::Int(i) => dec_int(i as int),
        ValueModel::UInt(u) => dec_nat(u as int),
        ValueModel::Float(bits) => float_repr(bits),
        ValueModel::Str(s) => quoted(s),
        ValueModel::List(items) => seq!['['] + join_items(items) + seq![']'],
        ValueModel::Object(fields) => seq!['{'] + join_fields(fields) + seq!['}'],
        ValueModel::Other(_) => Seq::empty(),
    }
}

/// List elements joined with commas.
pub open spec fn join_items(items: Seq<ValueModel>) -> Seq<char>
    decreases items,
{
    if items.len() == 0 {
        Seq::empty()
    } else if items.len() == 1 {
        json_text_of(items[0])
    } else {
        join_items(items.drop_last()) + seq![','] + json_text_of(items.last())
    }
}

/// Object fields, each a quoted key, a colon and the value, joined with
/// commas.
pub open spec fn join_fields(fields: Seq<(Seq<char>, ValueModel)>) -> Seq<char>
    decreases fields,
{
    if fields.len() == 0 {
        Seq::empty()
    } else if fields.len() == 1 {
        quoted(fields[0].0) + seq![':'] + json_text_of(fields[0].1)
    } else {
        join_fields(fields.drop_last()) + seq![','] + quoted(fields.last().0) + seq![':']
            + json_text_of(fields.last().1)
    }
}

/// Appends the characters of `s` to `out`.
fn push_chars(out: &mut Vec<char>, s: &str)
    ensures
        final(out)@ == old(out)@ + s@,
{
    let mut cs = chars_of(s);
    out.append(&mut cs);
}

/// Appends the decimal rendering of `n` to `out`.
fn write_dec_u64(out: &mut Vec<char>, n: u64)
    ensures
        final(out)@ == old(out)@ + dec_nat(n as int),
    decreases n,
{
    let ghost base = out@;
    if n >= 10 {
        write_dec_u64(out, n / 10);
    }
    let d: u8 = (n % 10) as u8;
    let c: char = (48u8 + d) as char;
    proof {
        assert(c == dec_digit(n as int % 10));
        if n >= 10 {
            assert(dec_nat(n as int) == dec_nat(n as int / 10).push(dec_digit(n as int % 10)));
        }
    }
    out.push(c);
    proof {
        assert(out@ =~= base + dec_nat(n as int));
    }
}

/// Appends the decimal rendering of `i` to `out`.
fn write_dec_i64(out: &mut Vec<char>, i: i64)
    ensures
        final(out)@ == old(out)@ + dec_int(i as int),
{
    let ghost base = out@;
    if i >= 0 {
        write_dec_u64(out, i as u64);
    } else {
        out.push('-');
        let mag: u64 = if i == i64::MIN {
            9223372036854775808u64
        } else {
            (-i) as u64
        };
        proof {
            assert(mag as int == -(i as int));
        }
        write_dec_u64(out, mag);
        proof {
            assert(out@ =~= base + dec_int(i as int));
        }
    }
}

/// The lower-case hexadecimal digit character for `d` in `0 ..= 15`.
fn hex_digit_char(d: u8) -> (c: char)
    requires
        d < 16,
    ensures
        c == hex_digit(d as int),
{
    if d < 10 {
        (48u8 + d) as char
    } else {
        (97u8 + (d - 10)) as char
    }
}

/// Appends the escaped form of `c` to `out`.
fn write_escaped_char(out: &mut Vec<char>, c: char)
    ensures
        final(out)@ == old(out)@ + escape_char(c),
{
    let ghost base = out@;
    if c == '"' {
        out.push('\\');
        out.push('"');
    } else if c == '\\' {
        out.push('\\');
        out.push('\\');
    } else if c == '\u{8}' {
        out.push('\\');
        out.push('b');
    } else if c == '\t' {
        out.push('\\');
        out.push('t');
    } else if c == '\n' {
        out.push('\\');
        out.push('n');
    } else if c == '\u{c}' {
        out.push('\\');
        out.push('f');
    } else if c == '\r' {
        out.push('\\');
        out.push('r');
    } else if (c as u32) < 32 {
        let code: u32 = c as u32;
        out.push('\\');
        out.push('u');
        out.push('0');
        out.push('0');
        out.push(hex_digit_char((code / 16) as u8));
        out.push(hex_digit_char((code % 16) as u8));
    } else {
        out.push(c);
    }
    proof {
        assert(out@ =~= base + escape_char(c));
    }
}

/// Appends the quoted, escaped form of `s` to `out`.
fn write_quoted(out: &mut Vec<char>, s: &str)
    ensures
        final(out)@ == old(out)@ + quoted(s@),
{
    let ghost base = out@;
    out.push('"');
    let cs = chars_of(s);
    let n = cs.len();
    let mut i: usize = 0;
    while i < n
        invariant
            i <= n,
            n == cs@.len(),
            cs@ == s@,
            out@ == base + seq!['"'] + escape_string(s@.take(i as int)),
        decreases n - i,
    {
        proof {
            assert(s@.take(i as int + 1).drop_last() =~= s@.take(i as int));
            assert(s@.take(i as int + 1).last() == s@[i as int]);
        }
        write_escaped_char(out, cs[i]);
        i = i + 1;
    }
    out.push('"');
    proof {
        assert(s@.take(n as int) =~= s@);
        assert(out@ =~= base + quoted(s@));
    }
}

/// Relies on the JSON library's number formatting, through the engine float
/// carried beside the bits (the pair is consistent by construction of
/// [`crate::value::FloatValue`], so the text is a function of the bits): a
/// finite float prints as its shortest round-trip decimal, a non-finite one
/// as `null`.  [`float_repr`] names the text.
#[verifier::external_body]
fn float_json_text(v: &DataValue) -> (r: String)
    requires
        v is Float64,
    ensures
        r@ == float_repr(v@->Float_0),
{
    match v {
        DataValue::Float64(fv) => match fv.engine_value() {
            cel::objects::Value::Float(x) => {
                match serde_json::to_string(&serde_json::Value::from(*x)) {
                    Ok(s) => s,
                    Err(_) => String::new(),
                }
            },
            _ => String::new(),
        },
        _ => String::new(),
    }
}

/// Appends the JSON text of `v` to `out`; fails exactly on a value that
/// JSON cannot encode, leaving `out` in no particular state.
#[verifier::loop_isolation(false)]
#[verifier::rlimit(30)]
#[verifier::spinoff_prover]
fn write_value(out: &mut Vec<char>, v: &DataValue) -> (r: bool)
    ensures
        r == encodable(v@),
        r ==> final(out)@ == old(out)@ + json_text_of(v@),
    decreases v,
{
    match v {
        DataValue::Null => {
            push_chars(out, "null");
            true
        },
        DataValue::Bool(b) => {
            if *b {
                push_chars(out, "true");
            } else {
                push_chars(out, "false");
            }
            true
        },
        DataValue::Int64(i) => {
            write_dec_i64(out, *i);
            true
        },
        DataValue::UInt64(u) => {
            write_dec_u64(out, *u);
            true
        },
        DataValue::Float64(_) => {
            let text = float_json_text(v);
            push_chars(out, text.as_str());
            true
        },
        DataValue::Str(s) => {
            write_quoted(out, s.as_str());
            true
        },
        DataValue::List(items) => {
            let ghost base = out@;
            let ghost models = model_seq(items@);
            proof {
                lemma_model_seq(items@);
            }
            out.push('[');
            let n = items.len();
            let mut i: usize = 0;
            while i < n
                invariant
                    i <= n,
                    n == items@.len(),
                    models == model_seq(items@),
                    models.len() == n as int,
                    forall|k: int| 0 <= k < n as int ==> models[k] == crate::value::model_of(
                        items@[k],
                    ),
                    forall|k: int| 0 <= k < i as int ==> encodable(#[trigger] models[k]),
                    out@ == base + seq!['['] + join_items(models.take(i as int)),
                decreases n - i,
            {
                if i > 0 {
                    out.push(',');
                }
                if !write_value(out, &items[i]) {
                    proof {
                        assert(v@ == ValueModel::List(models));
                        if encodable(v@) {
                            assert(encodable(models[i as int]));
                            assert(false);
                        }
                    }
                    return false;
                }
                proof {
                    assert(models.take(i as int + 1).drop_last() =~= models.take(i as int));
                    assert(models.take(i as int + 1).last() == models[i as int]);
                    assert(out@ =~= base + seq!['['] + join_items(models.take(i as int + 1)));
                }
                i = i + 1;
            }
            out.push(']');
            proof {
                assert(models.take(n as int) =~= models);
                assert(out@ =~= base + json_text_of(v@));
            }
            true
        },
        DataValue::Object(fields) => {
            let ghost base = out@;
            let ghost models = entries_model(fields@);
            proof {
                lemma_entries_model(fields@);
            }
            out.push('{');
            let n = fields.len();
            let mut i: usize = 0;
            while i < n
                invariant
                    i <= n,
                    n == fields@.len(),
                    models == entries_model(fields@),
                    models.len() == n as int,
                    forall|k: int| 0 <= k < n as int ==> models[k] == (fields@[k].0@,
                        crate::value::model_of(fields@[k].1)),
                    forall|k: int| 0 <= k < i as int ==> encodable((#[trigger] models[k]).1),
                    out@ == base + seq!['{'] + join_fields(models.take(i as int)),
                decreases n - i,
            {
                if i > 0 {
                    out.push(',');
                }
                write_quoted(out, fields[i].0.as_str());
                out.push(':');
                if !write_value(out, &fields[i].1) {
                    proof {
                        assert(v@ == ValueModel::Object(models));
                        if encodable(v@) {
                            assert(encodable(models[i as int].1));
                            assert(false);
                        }
                    }
                    return false;
                }
                proof {
                    assert(models.take(i as int + 1).drop_last() =~= models.take(i as int));
                    assert(models.take(i as int + 1).last() == models[i as int]);
                    assert(out@ =~= base + seq!['{'] + join_fields(models.take(i as int + 1)));
                }
                i = i + 1;
            }
            out.push('}');
            proof {
                assert(models.take(n as int) =~= models);
                assert(out@ =~= base + json_text_of(v@));
            }
            true
        },
        DataValue::Other(_) => false,
    }
}

/// Renders a value as JSON text, exactly [`json_text_of`]; a value holding
/// a non-JSON kind is rejected with a serialization error.
pub fn value_to_json(v: &DataValue) -> (r: Result<String, HandleError>)
    ensures
        r matches Ok(s) ==> encodable(v@) && s@ == json_text_of(v@),
        r matches Err(e) ==> !encodable(v@) && e is JsonSerializationError,
{
    let mut out: Vec<char> = Vec::new();
    if write_value(&mut out, v) {
        Ok(string_from_chars(&out))
    } else {
        Err(HandleError::JsonSerializationError(String::from_str(
            "result holds a value kind that JSON cannot encode",
        )))
    }
}

} // verus!
