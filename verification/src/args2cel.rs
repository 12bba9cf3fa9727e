//! Typed command-line literals: `name:type=value` declarations become
//! variables.
//!
//! The decimal and boolean parsers are verified against the grammar that
//! Rust's own integer and boolean parsing accepts: an optional sign, then
//! decimal digits, nothing else, rejected on overflow.  Float literals go
//! through the platform parser behind a named result.

use vstd::prelude::*;
use crate::value::{DataValue, ValueModel};
use crate::varset::VariableSet;
use crate::strutil::{str_eq, chars_of, string_from_chars};
use vstd::string::{StrSliceExecFns, StringExecFns};

verus! {

/// Why a declared argument could not become a variable.
#[derive(Debug)]
pub enum ArgConversionError {
    /// The declared type is not one of the supported simple types.
    UnsupportedType(String),
    /// The declared value does not parse as the declared type; the first
    /// field names the argument, the second describes the failure.
    ParseError(String, String),
}

// ---------------------------------------------------------------------------
// Decimal digits
// ---------------------------------------------------------------------------

/// `c` is a decimal digit.
pub open spec fn is_digit(c: char) -> bool {
    '0' <= c && c <= '9'
}

/// The numeric value of a digit.
pub open spec fn digit_val(c: char) -> int {
    (c as u32) as int - 48
}

/// The sequence is one or more decimal digits.
pub open spec fn all_digits(s: Seq<char>) -> bool {
    s.len() > 0 && forall|i: int| 0 <= i < s.len() ==> is_digit(#[trigger] s[i])
}

/// The number the digit sequence denotes, most significant digit first.
pub open spec fn digits_val(s: Seq<char>) -> int
    decreases s,
{
    if s.len() == 0 {
        0
    } else {
        digits_val(s.drop_last()) * 10 + digit_val(s.last())
    }
}

proof fn lemma_digits_val_nonneg(s: Seq<char>)
    requires
        forall|i: int| 0 <= i < s.len() ==> is_digit(#[trigger] s[i]),
    ensures
        digits_val(s) >= 0,
    decreases s,
{
    if s.len() > 0 {
        lemma_digits_val_nonneg(s.drop_last());
    }
}

/// A digit sequence is worth at least any of its prefixes.
proof fn lemma_digits_val_prefix(s: Seq<char>, j: int)
    requires
        0 <= j <= s.len(),
        forall|i: int| 0 <= i < s.len() ==> is_digit(#[trigger] s[i]),
    ensures
        digits_val(s.take(j)) <= digits_val(s),
    decreases s.len() - j,
{
    if j < s.len() {
        lemma_digits_val_prefix(s, j + 1);
        assert(s.take(j + 1).drop_last() =~= s.take(j));
        assert(s.take(j + 1).last() == s[j]);
        lemma_digits_val_nonneg(s.take(j));
        assert(digits_val(s.take(j + 1)) == digits_val(s.take(j)) * 10 + digit_val(s[j]));
        assert(digits_val(s.take(j)) * 10 >= digits_val(s.take(j))) by (nonlinear_arith)
            requires digits_val(s.take(j)) >= 0;
    } else {
        assert(s.take(j) =~= s);
    }
}

/// Reads the digits of `cs` from `start` on, accepting only values up to
/// `limit`.
fn parse_digits(cs: &Vec<char>, start: usize, limit: u64) -> (r: Option<u64>)
    requires
        start <= cs@.len(),
    ensures
        match r {
            Some(v) => all_digits(cs@.skip(start as int)) && v as int == digits_val(
                cs@.skip(start as int),
            ) && v <= limit,
            None => !(all_digits(cs@.skip(start as int)) && digits_val(cs@.skip(start as int))
                <= limit),
        },
{
    let ghost body = cs@.skip(start as int);
    let n = cs.len();
    if start == n {
        return None;
    }
    let mut acc: u64 = 0;
    let mut i: usize = start;
    while i < n
        invariant
            start <= i <= n,
            n == cs@.len(),
            body == cs@.skip(start as int),
            acc <= limit,
            acc as int == digits_val(body.take(i as int - start as int)),
            forall|j: int| 0 <= j < i as int - start as int ==> is_digit(#[trigger] body[j]),
        decreases n - i,
    {
        let c = cs[i];
        let ghost k = i as int - start as int;
        proof {
            assert(body[k] == cs@[i as int]);
        }
        if !(c >= '0' && c <= '9') {
            proof {
                assert(!is_digit(body[k]));
                assert(!all_digits(body));
            }
            return None;
        }
        let d: u64 = (c as u32 as u64) - 48;
        proof {
            assert(body.take(k + 1).drop_last() =~= body.take(k));
            assert(body.take(k + 1).last() == body[k]);
            assert(digits_val(body.take(k + 1)) == digits_val(body.take(k)) * 10 + digit_val(c));
        }
        if acc > limit / 10 || (acc == limit / 10 && d > limit % 10) {
            proof {
                assert(acc * 10 + d > limit) by (nonlinear_arith)
                    requires
                        acc > limit / 10 || (acc == limit / 10 && d > limit % 10),
                        limit == (limit / 10) * 10 + limit % 10,
                        limit % 10 < 10,
                        d >= 0,
                        acc >= 0;
                assert(digits_val(body.take(k + 1)) > limit);
                if all_digits(body) {
                    lemma_digits_val_prefix(body, k + 1);
                }
            }
            return None;
        }
        proof {
            assert(acc * 10 + d <= limit) by (nonlinear_arith)
                requires
                    !(acc > limit / 10 || (acc == limit / 10 && d > limit % 10)),
                    limit == (limit / 10) * 10 + limit % 10,
                    d <= 9,
                    acc >= 0,
                    d >= 0;
        }
        acc = acc * 10 + d;
        i = i + 1;
    }
    proof {
        assert(body.take(n as int - start as int) =~= body);
    }
    Some(acc)
}

// ---------------------------------------------------------------------------
// Signed and unsigned parses, as Rust's own integer parsing accepts them
// ---------------------------------------------------------------------------

/// What an unsigned 64-bit decimal parse yields: an optional `+`, then
/// digits, within range.
pub open spec fn parse_u64_spec(s: Seq<char>) -> Option<u64> {
    let b = if s.len() > 0 && s[0] == '+' {
        s.drop_first()
    } else {
        s
    };
    if all_digits(b) && digits_val(b) <= u64::MAX {
        Some(digits_val(b) as u64)
    } else {
        None
    }
}

/// What a signed 64-bit decimal parse yields: an optional sign, then digits,
/// within range.
pub open spec fn parse_i64_spec(s: Seq<char>) -> Option<i64> {
    let b = if s.len() > 0 && (s[0] == '+' || s[0] == '-') {
        s.drop_first()
    } else {
        s
    };
    let neg = s.len() > 0 && s[0] == '-';
    if all_digits(b) {
        let v = if neg {
            -digits_val(b)
        } else {
            digits_val(b)
        };
        if i64::MIN <= v <= i64::MAX {
            Some(v as i64)
        } else {
            None
        }
    } else {
        None
    }
}

/// Parses an unsigned 64-bit decimal, exactly as [`parse_u64_spec`] states.
pub fn parse_u64_str(s: &str) -> (r: Option<u64>)
    ensures
        r == parse_u64_spec(s@),
{
    let cs = chars_of(s);
    let start: usize = if cs.len() > 0 && cs[0] == '+' {
        1
    } else {
        0
    };
    proof {
        if cs@.len() > 0 && cs@[0] == '+' {
            assert(cs@.skip(1) =~= s@.drop_first());
        } else {
            assert(cs@.skip(0) =~= s@);
        }
    }
    parse_digits(&cs, start, u64::MAX)
}

/// Parses a signed 64-bit decimal, exactly as [`parse_i64_spec`] states.
pub fn parse_i64_str(s: &str) -> (r: Option<i64>)
    ensures
        r == parse_i64_spec(s@),
{
    let cs = chars_of(s);
    let neg = cs.len() > 0 && cs[0] == '-';
    let start: usize = if cs.len() > 0 && (cs[0] == '+' || cs[0] == '-') {
        1
    } else {
        0
    };
    proof {
        if cs@.len() > 0 && (cs@[0] == '+' || cs@[0] == '-') {
            assert(cs@.skip(1) =~= s@.drop_first());
        } else {
            assert(cs@.skip(0) =~= s@);
        }
    }
    let limit: u64 = if neg {
        9223372036854775808u64
    } else {
        9223372036854775807u64
    };
    match parse_digits(&cs, start, limit) {
        None => None,
        Some(mag) => {
            if neg {
                if mag == 9223372036854775808u64 {
                    Some(i64::MIN)
                } else {
                    Some(-(mag as i64))
                }
            } else {
                Some(mag as i64)
            }
        },
    }
}

// ---------------------------------------------------------------------------
// Booleans
// ---------------------------------------------------------------------------

/// What a boolean parse accepts: exactly the two literal forms.
pub open spec fn parse_bool_spec(s: Seq<char>) -> Option<bool> {
    if s =~= seq!['t', 'r', 'u', 'e'] {
        Some(true)
    } else if s =~= seq!['f', 'a', 'l', 's', 'e'] {
        Some(false)
    } else {
        None
    }
}

/// Parses a boolean, exactly as [`parse_bool_spec`] states.
pub fn parse_bool_str(s: &str) -> (r: Option<bool>)
    ensures
        r == parse_bool_spec(s@),
{
    proof {
        reveal_strlit("true");
        reveal_strlit("false");
        assert("true"@ =~= seq!['t', 'r', 'u', 'e']);
        assert("false"@ =~= seq!['f', 'a', 'l', 's', 'e']);
    }
    if str_eq(s, "true") {
        Some(true)
    } else if str_eq(s, "false") {
        Some(false)
    } else {
        None
    }
}

// ---------------------------------------------------------------------------
// Type tags, matched without regard to ASCII case
// ---------------------------------------------------------------------------

/// The character, ASCII upper case folded to lower, as a code point.
pub open spec fn lower_code(c: char) -> int {
    if 'A' <= c && c <= 'Z' {
        (c as u32) as int + 32
    } else {
        (c as u32) as int
    }
}

/// The sequences are equal up to ASCII case.
pub open spec fn eq_ignore_ascii_case(a: Seq<char>, b: Seq<char>) -> bool {
    a.len() == b.len() && forall|i: int| 0 <= i < a.len() ==> lower_code(#[trigger] a[i])
        == lower_code(#[trigger] b[i])
}

/// Compares `tag` against a pattern, without regard to ASCII case.
fn tag_matches(tag: &str, pat: &str) -> (r: bool)
    ensures
        r == eq_ignore_ascii_case(tag@, pat@),
{
    let n = tag.unicode_len();
    if n != pat.unicode_len() {
        return false;
    }
    let mut i: usize = 0;
    while i < n
        invariant
            i <= n,
            n == tag@.len(),
            n == pat@.len(),
            forall|j: int| 0 <= j < i as int ==> lower_code(#[trigger] tag@[j]) == lower_code(
                pat@[j],
            ),
        decreases n - i,
    {
        let a = tag.get_char(i);
        let b = pat.get_char(i);
        let la: u32 = if a >= 'A' && a <= 'Z' {
            a as u32 + 32
        } else {
            a as u32
        };
        let lb: u32 = if b >= 'A' && b <= 'Z' {
            b as u32 + 32
        } else {
            b as u32
        };
        if la != lb {
            return false;
        }
        i = i + 1;
    }
    true
}

/// The tag declares a signed 64-bit integer.
pub open spec fn tag_int(t: Seq<char>) -> bool {
    eq_ignore_ascii_case(t, seq!['i', 'n', 't']) || eq_ignore_ascii_case(t, seq!['i', '6', '4'])
}

/// The tag declares an unsigned 64-bit integer.
pub open spec fn tag_uint(t: Seq<char>) -> bool {
    eq_ignore_ascii_case(t, seq!['u', 'i', 'n', 't']) || eq_ignore_ascii_case(
        t,
        seq!['u', '6', '4'],
    )
}

/// The tag declares a 64-bit float.
pub open spec fn tag_float(t: Seq<char>) -> bool {
    eq_ignore_ascii_case(t, seq!['f', 'l', 'o', 'a', 't']) || eq_ignore_ascii_case(
        t,
        seq!['f', '6', '4'],
    ) || eq_ignore_ascii_case(t, seq!['d', 'o', 'u', 'b', 'l', 'e'])
}

/// The tag declares a string.
pub open spec fn tag_string(t: Seq<char>) -> bool {
    eq_ignore_ascii_case(t, seq!['s', 't', 'r', 'i', 'n', 'g']) || eq_ignore_ascii_case(
        t,
        seq!['s', 't', 'r'],
    )
}

/// The tag declares a boolean.
pub open spec fn tag_bool(t: Seq<char>) -> bool {
    eq_ignore_ascii_case(t, seq!['b', 'o', 'o', 'l']) || eq_ignore_ascii_case(
        t,
        seq!['b', 'o', 'o', 'l', 'e', 'a', 'n'],
    )
}

/// The tag is one of the supported ones.
pub open spec fn tag_supported(t: Seq<char>) -> bool {
    tag_int(t) || tag_uint(t) || tag_float(t) || tag_string(t) || tag_bool(t)
}

// ---------------------------------------------------------------------------
// Float literals, through the platform parser
// ---------------------------------------------------------------------------

/// The bit pattern of the 64-bit float a literal parses to, if it parses;
/// the parse is a function of the characters alone.
pub uninterp spec fn float_lit(s: Seq<char>) -> Option<u64>;

/// Relies on `str::parse` for 64-bit floats; [`float_lit`] names the bit
/// pattern of the parsed number.
#[verifier::external_body]
fn parse_float_value(s: &str) -> (r: Option<DataValue>)
    ensures
        r matches Some(v) ==> (float_lit(s@) matches Some(bits) && v@ == ValueModel::Float(bits)),
        r is None ==> float_lit(s@) is None,
{
    let x = match s.parse() {
        Ok(v) => v,
        Err(_) => {
            return None;
        },
    };
    crate::value::float_data_value(cel::objects::Value::Float(x))
}

// ---------------------------------------------------------------------------
// One literal
// ---------------------------------------------------------------------------

/// Whether a declared value parses under its tag.
pub open spec fn literal_ok(tag: Seq<char>, raw: Seq<char>) -> bool {
    if tag_int(tag) {
        parse_i64_spec(raw) is Some
    } else if tag_uint(tag) {
        parse_u64_spec(raw) is Some
    } else if tag_float(tag) {
        float_lit(raw) is Some
    } else if tag_string(tag) {
        true
    } else if tag_bool(tag) {
        parse_bool_spec(raw) is Some
    } else {
        false
    }
}

/// The value a declared literal denotes, when [`literal_ok`] holds.
pub open spec fn literal_model(tag: Seq<char>, raw: Seq<char>) -> ValueModel {
    if tag_int(tag) {
        ValueModel::Int(parse_i64_spec(raw)->0)
    } else if tag_uint(tag) {
        ValueModel::UInt(parse_u64_spec(raw)->0)
    } else if tag_float(tag) {
        ValueModel::Float(float_lit(raw)->0)
    } else if tag_string(tag) {
        ValueModel::Str(raw)
    } else {
        ValueModel::Bool(parse_bool_spec(raw)->0)
    }
}

/// Turns one `name:type=value` declaration into a typed value.
///
/// The tag is matched without regard to ASCII case.  An unsupported tag is
/// rejected naming the tag; a value that does not parse under its tag is
/// rejected naming the argument.
pub fn parse_literal(name: &str, tag: &str, raw: &str) -> (r: Result<DataValue, ArgConversionError>)
    ensures
        tag_supported(tag@) && literal_ok(tag@, raw@) ==> (r matches Ok(v) && v@
            == literal_model(tag@, raw@)),
        tag_supported(tag@) && !literal_ok(tag@, raw@) ==> (r matches Err(e) && (e matches
            ArgConversionError::ParseError(n, msg) && n@ == name@ && msg@ == failure_message(
            tag@,
            raw@,
        ))),
        !tag_supported(tag@) ==> (r matches Err(e) && (e matches
            ArgConversionError::UnsupportedType(t) && t@ == tag@)),
{
    proof {
        reveal_strlit("int");
        reveal_strlit("i64");
        reveal_strlit("uint");
        reveal_strlit("u64");
        reveal_strlit("float");
        reveal_strlit("f64");
        reveal_strlit("double");
        reveal_strlit("string");
        reveal_strlit("str");
        reveal_strlit("bool");
        reveal_strlit("boolean");
        assert("int"@ =~= seq!['i', 'n', 't']);
        assert("i64"@ =~= seq!['i', '6', '4']);
        assert("uint"@ =~= seq!['u', 'i', 'n', 't']);
        assert("u64"@ =~= seq!['u', '6', '4']);
        assert("float"@ =~= seq!['f', 'l', 'o', 'a', 't']);
        assert("f64"@ =~= seq!['f', '6', '4']);
        assert("double"@ =~= seq!['d', 'o', 'u', 'b', 'l', 'e']);
        assert("string"@ =~= seq!['s', 't', 'r', 'i', 'n', 'g']);
        assert("str"@ =~= seq!['s', 't', 'r']);
        assert("bool"@ =~= seq!['b', 'o', 'o', 'l']);
        assert("boolean"@ =~= seq!['b', 'o', 'o', 'l', 'e', 'a', 'n']);
    }
    if tag_matches(tag, "int") || tag_matches(tag, "i64") {
        match parse_i64_str(raw) {
            Some(v) => Ok(DataValue::Int64(v)),
            None => Err(ArgConversionError::ParseError(
                name.to_owned(),
                format_parse_failure(raw, "int"),
            )),
        }
    } else if tag_matches(tag, "uint") || tag_matches(tag, "u64") {
        match parse_u64_str(raw) {
            Some(v) => Ok(DataValue::UInt64(v)),
            None => Err(ArgConversionError::ParseError(
                name.to_owned(),
                format_parse_failure(raw, "uint"),
            )),
        }
    } else if tag_matches(tag, "float") || tag_matches(tag, "f64") || tag_matches(tag, "double") {
        match parse_float_value(raw) {
            Some(v) => Ok(v),
            None => Err(ArgConversionError::ParseError(
                name.to_owned(),
                format_parse_failure(raw, "float"),
            )),
        }
    } else if tag_matches(tag, "string") || tag_matches(tag, "str") {
        Ok(DataValue::Str(raw.to_owned()))
    } else if tag_matches(tag, "bool") || tag_matches(tag, "boolean") {
        match parse_bool_str(raw) {
            Some(v) => Ok(DataValue::Bool(v)),
            None => Err(ArgConversionError::ParseError(
                name.to_owned(),
                format_parse_failure(raw, "bool"),
            )),
        }
    } else {
        Err(ArgConversionError::UnsupportedType(tag.to_owned()))
    }
}

/// The diagnostic for a value that does not parse under its tag.
pub open spec fn parse_failure_text(raw: Seq<char>, kind: Seq<char>) -> Seq<char> {
    "cannot parse '"@ + raw + "' as "@ + kind
}

/// The diagnostic a failed parse carries, by the tag's family, in the
/// order the families are tried.
pub open spec fn failure_message(tag: Seq<char>, raw: Seq<char>) -> Seq<char> {
    if tag_int(tag) {
        parse_failure_text(raw, "int"@)
    } else if tag_uint(tag) {
        parse_failure_text(raw, "uint"@)
    } else if tag_float(tag) {
        parse_failure_text(raw, "float"@)
    } else {
        parse_failure_text(raw, "bool"@)
    }
}

/// Describes a failed parse, exactly [`parse_failure_text`].
fn format_parse_failure(raw: &str, kind: &str) -> (r: String)
    ensures
        r@ == parse_failure_text(raw@, kind@),
{
    let mut out = String::from_str("cannot parse '");
    out.append(raw);
    out.append("' as ");
    out.append(kind);
    out
}

// ---------------------------------------------------------------------------
// All declarations at once
// ---------------------------------------------------------------------------

/// The base variable map declared by a sequence of `(name, tag, value)`
/// triples: declarations without a value bind nothing, later declarations of
/// a name shadow earlier ones.
pub open spec fn args_map(specs: Seq<(Seq<char>, Seq<char>, Option<Seq<char>>)>) -> Map<
    Seq<char>,
    ValueModel,
>
    decreases specs,
{
    if specs.len() == 0 {
        Map::empty()
    } else {
        let m = args_map(specs.drop_last());
        let a = specs.last();
        match a.2 {
            Option::None => m,
            Option::Some(raw) => m.insert(a.0, literal_model(a.1, raw)),
        }
    }
}

/// Every declaration that carries a value parses under its tag.
pub open spec fn args_ok(specs: Seq<(Seq<char>, Seq<char>, Option<Seq<char>>)>) -> bool {
    forall|i: int| 0 <= i < specs.len() ==> ((#[trigger] specs[i]).2 matches Some(raw)
        ==> tag_supported(specs[i].1) && literal_ok(specs[i].1, raw))
}

/// The declaration at `i` is the first that fails, and `e` reports it: an
/// unsupported tag is rejected naming the tag, a supported tag whose value
/// does not parse is rejected naming the argument.
pub open spec fn first_failure(
    specs: Seq<(Seq<char>, Seq<char>, Option<Seq<char>>)>,
    i: int,
    e: ArgConversionError,
) -> bool {
    &&& 0 <= i < specs.len()
    &&& specs[i].2 is Some
    &&& !(tag_supported(specs[i].1) && literal_ok(specs[i].1, specs[i].2->0))
    &&& forall|j: int| 0 <= j < i ==> ((#[trigger] specs[j]).2 matches Some(rw)
        ==> tag_supported(specs[j].1) && literal_ok(specs[j].1, rw))
    &&& if tag_supported(specs[i].1) {
        e matches ArgConversionError::ParseError(nm, msg) && nm@ == specs[i].0 && msg@
            == failure_message(specs[i].1, specs[i].2->0)
    } else {
        e matches ArgConversionError::UnsupportedType(t) && t@ == specs[i].1
    }
}

/// Builds the base variable set from all declared arguments.
///
/// Declarations are processed in order; the first failure aborts the whole
/// conversion.  A declaration without a value binds nothing.
pub fn args_to_cel_variables(args: &Vec<(String, String, Option<String>)>) -> (r: Result<
    VariableSet,
    ArgConversionError,
>)
    ensures
        r matches Ok(m) ==> args_ok(args.deep_view()) && m@ == args_map(args.deep_view()),
        r is Err ==> !args_ok(args.deep_view()),
        r matches Err(e) ==> exists|i: int| first_failure(args.deep_view(), i, e),
{
    let ghost specs = args.deep_view();
    let mut vars = VariableSet::new();
    let n = args.len();
    let mut i: usize = 0;
    while i < n
        invariant
            i <= n,
            n == args@.len(),
            specs == args.deep_view(),
            specs.len() == n as int,
            forall|j: int| 0 <= j < i as int ==> ((#[trigger] specs[j]).2 matches Some(raw)
                ==> tag_supported(specs[j].1) && literal_ok(specs[j].1, raw)),
            vars@ == args_map(specs.take(i as int)),
        decreases n - i,
    {
        let name = &args[i].0;
        let tag = &args[i].1;
        proof {
            assert(specs[i as int] == (args@[i as int].0@, args@[i as int].1@,
                args@[i as int].2.deep_view()));
        }
        match &args[i].2 {
            Option::None => {},
            Option::Some(raw) => {
                match parse_literal(name.as_str(), tag.as_str(), raw.as_str()) {
                    Ok(v) => {
                        vars.insert(name.clone(), v);
                    },
                    Err(e) => {
                        proof {
                            assert(first_failure(specs, i as int, e));
                        }
                        return Err(e);
                    },
                }
            },
        }
        proof {
            assert(specs.take(i as int + 1).drop_last() =~= specs.take(i as int));
            assert(specs.take(i as int + 1).last() == specs[i as int]);
        }
        i = i + 1;
    }
    proof {
        assert(specs.take(n as int) =~= specs);
    }
    Ok(vars)
}

// ---------------------------------------------------------------------------
// Argument declarations
// ---------------------------------------------------------------------------

/// One declared argument: `name:type` or `name:type=value`.
#[derive(Debug)]
pub struct Argument {
    pub name: String,
    pub type_tag: String,
    pub value: Option<String>,
}

/// `i` is the first position of `c` in `s`.
pub open spec fn first_hit(s: Seq<char>, c: char, i: int) -> bool {
    0 <= i < s.len() && s[i] == c && forall|j: int| 0 <= j < i ==> s[j] != c
}

/// What follows the name: the declared type and, after the first `=`, the
/// declared value.
pub open spec fn argument_tail(rest: Seq<char>, a: Argument) -> bool {
    if exists|j: int| first_hit(rest, '=', j) {
        let j = choose|j: int| first_hit(rest, '=', j);
        a.type_tag@ == rest.take(j) && (a.value matches Some(v) && v@ == rest.skip(j + 1))
    } else {
        a.type_tag@ == rest && a.value is None
    }
}

/// The first position of `c` in `cs`, if any.
fn find_char(cs: &Vec<char>, c: char) -> (r: Option<usize>)
    ensures
        r matches Some(i) ==> first_hit(cs@, c, i as int),
        r is None ==> forall|j: int| 0 <= j < cs@.len() ==> cs@[j] != c,
{
    let n = cs.len();
    let mut i: usize = 0;
    while i < n
        invariant
            i <= n,
            n == cs@.len(),
            forall|j: int| 0 <= j < i as int ==> cs@[j] != c,
        decreases n - i,
    {
        if cs[i] == c {
            return Some(i);
        }
        i = i + 1;
    }
    None
}

/// The characters of `cs` from `a` (inclusive) to `b` (exclusive).
fn sub_chars(cs: &Vec<char>, a: usize, b: usize) -> (r: Vec<char>)
    requires
        a <= b <= cs@.len(),
    ensures
        r@ == cs@.subrange(a as int, b as int),
{
    let mut out: Vec<char> = Vec::new();
    let mut i: usize = a;
    while i < b
        invariant
            a <= i <= b,
            b <= cs@.len(),
            out@ == cs@.subrange(a as int, i as int),
        decreases b - i,
    {
        out.push(cs[i]);
        proof {
            assert(cs@.subrange(a as int, i as int + 1) =~= cs@.subrange(a as int, i as int).push(
                cs@[i as int],
            ));
        }
        i = i + 1;
    }
    out
}

/// Reads one `name:type` or `name:type=value` declaration.
///
/// The name is everything before the first `:`, which must be present; the
/// type is what follows, up to the first `=` if there is one, in which case
/// the value is the remainder.  A declaration without `:` is rejected with
/// a message.
pub fn parse_argument(s: &str) -> (r: Result<Argument, String>)
    ensures
        r matches Err(m) ==> m@ == bad_argument_text(s@),
        r is Err ==> forall|j: int| 0 <= j < s@.len() ==> s@[j] != ':',
        (exists|i: int| first_hit(s@, ':', i)) ==> r is Ok,
        r matches Ok(a) ==> exists|i: int|
            #[trigger] first_hit(s@, ':', i) && a.name@ == s@.take(i) && argument_tail(
                s@.skip(i + 1),
                a,
            ),
{
    let cs = chars_of(s);
    let colon = match find_char(&cs, ':') {
        Some(i) => i,
        None => {
            return Err(format_bad_argument(s));
        },
    };
    proof {
        assert(first_hit(cs@, ':', colon as int));
    }
    let total = cs.len();
    let name = string_from_chars(&sub_chars(&cs, 0, colon));
    let rest = sub_chars(&cs, colon + 1, total);
    let ghost rest_seq = s@.skip(colon as int + 1);
    proof {
        assert(rest@ =~= rest_seq);
        assert(s@.take(colon as int) =~= cs@.subrange(0, colon as int));
    }
    match find_char(&rest, '=') {
        Some(eq) => {
            let type_tag = string_from_chars(&sub_chars(&rest, 0, eq));
            let value = string_from_chars(&sub_chars(&rest, eq + 1, rest.len()));
            let a = Argument { name, type_tag, value: Some(value) };
            proof {
                let j = choose|j: int| first_hit(rest_seq, '=', j);
                assert(first_hit(rest_seq, '=', eq as int));
                assert(rest_seq[j] == '=' && rest_seq[eq as int] == '=');
                assert(j == eq as int);
                assert(a.type_tag@ =~= rest_seq.take(j));
                assert(a.value->0@ =~= rest_seq.skip(j + 1));
            }
            Ok(a)
        },
        None => {
            let type_tag = string_from_chars(&rest);
            let a = Argument { name, type_tag, value: None };
            proof {
                assert(!(exists|j: int| first_hit(rest_seq, '=', j)));
            }
            Ok(a)
        },
    }
}

/// The rejection message for a declaration without a `:` separator.
pub open spec fn bad_argument_text(s: Seq<char>) -> Seq<char> {
    "Invalid argument format '"@ + s + "'. Expected 'name:type=value'"@
}

/// Describes a rejected declaration, exactly [`bad_argument_text`].
fn format_bad_argument(s: &str) -> (r: String)
    ensures
        r@ == bad_argument_text(s@),
{
    let mut out = String::from_str("Invalid argument format '");
    out.append(s);
    out.append("'. Expected 'name:type=value'");
    out
}

impl ArgConversionError {
    /// The diagnostic line for this error.
    pub fn describe(&self) -> (r: String)
        ensures
            match self {
                ArgConversionError::UnsupportedType(t) => r@ == "Unsupported type: '"@ + t@
                    + "'. Only simple types (int, uint, float, string, bool) are supported."@,
                ArgConversionError::ParseError(name, msg) => r@ == "Failed to parse argument '"@
                    + name@ + "': "@ + msg@,
            },
    {
        match self {
            ArgConversionError::UnsupportedType(t) => {
                let mut out = String::from_str("Unsupported type: '");
                out.append(t.as_str());
                out.append(
                    "'. Only simple types (int, uint, float, string, bool) are supported.",
                );
                out
            },
            ArgConversionError::ParseError(name, msg) => {
                let mut out = String::from_str("Failed to parse argument '");
                out.append(name.as_str());
                out.append("': ");
                out.append(msg.as_str());
                out
            },
        }
    }
}

} // verus!
