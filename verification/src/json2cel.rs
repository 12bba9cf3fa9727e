//! JSON documents into values and variables.
//!
//! Parsing is the JSON library's work, behind one trusted call whose
//! outcome is named by [`json_doc`]; the trusted walk only moves the
//! parser's readings into [`RawJson`], and the numeric classification and
//! everything after it is verified.

use vstd::prelude::*;
use crate::value::{DataValue, ValueModel, FloatValue, model_of, model_seq, entries_model,
    lemma_model_seq, lemma_entries_model};
use crate::varset::VariableSet;
use crate::input_handler::HandleError;
use crate::serialize::encodable;

verus! {

/// The value a JSON document denotes under this crate's numeric
/// classification, if the text is well-formed JSON; a function of the text
/// alone.
pub uninterp spec fn json_doc(s: Seq<char>) -> Option<ValueModel>;

#[verifier::external_type_specification]
#[verifier::external_body]
pub struct ExJsonNumber(serde_json::Number);

/// A parsed JSON tree before numeric classification: each number still
/// carries the parser's three plain readings.
#[derive(Debug)]
pub enum RawJson {
    Null,
    Bool(bool),
    Num(Option<i64>, Option<u64>, Option<FloatValue>),
    Str(String),
    List(Vec<RawJson>),
    Object(Vec<(String, RawJson)>),
}

/// The numeric classification policy of this bridge: exact signed 64-bit
/// representation first, then unsigned, then the 64-bit float; a number
/// that is none of these (which the parser does not produce) is null.
pub open spec fn num_model(i: Option<i64>, u: Option<u64>, f: Option<FloatValue>) -> ValueModel {
    if i is Some {
        ValueModel::Int(i->0)
    } else if u is Some {
        ValueModel::UInt(u->0)
    } else if f is Some {
        ValueModel::Float((f->0).spec_bits())
    } else {
        ValueModel::Null
    }
}

/// The value a raw tree denotes once every number is classified.
pub open spec fn classified_model(r: RawJson) -> ValueModel
    decreases r,
{
    match r {
        RawJson::Null => ValueModel::Null,
        RawJson::Bool(b) => ValueModel::Bool(b),
        RawJson::Num(i, u, f) => num_model(i, u, f),
        RawJson::Str(s) => ValueModel::Str(s@),
        RawJson::List(items) => ValueModel::List(classified_seq(items@)),
        RawJson::Object(fields) => ValueModel::Object(classified_entries(fields@)),
    }
}

/// [`classified_model`] over each element, in order.
pub open spec fn classified_seq(s: Seq<RawJson>) -> Seq<ValueModel>
    decreases s,
{
    if s.len() == 0 {
        Seq::empty()
    } else {
        seq![classified_model(s[0])] + classified_seq(s.drop_first())
    }
}

/// [`classified_model`] over each field's value, in order.
pub open spec fn classified_entries(s: Seq<(String, RawJson)>) -> Seq<(Seq<char>, ValueModel)>
    decreases s,
{
    if s.len() == 0 {
        Seq::empty()
    } else {
        seq![(s[0].0@, classified_model(s[0].1))] + classified_entries(s.drop_first())
    }
}

/// `classified_seq` maps the sequence index by index.
proof fn lemma_classified_seq(s: Seq<RawJson>)
    ensures
        classified_seq(s).len() == s.len(),
        forall|i: int| 0 <= i < s.len() ==> classified_seq(s)[i] == classified_model(s[i]),
    decreases s,
{
    if s.len() > 0 {
        lemma_classified_seq(s.drop_first());
    }
}

/// `classified_entries` maps the sequence index by index.
proof fn lemma_classified_entries(s: Seq<(String, RawJson)>)
    ensures
        classified_entries(s).len() == s.len(),
        forall|i: int| 0 <= i < s.len() ==> classified_entries(s)[i] == (s[i].0@,
            classified_model(s[i].1)),
    decreases s,
{
    if s.len() > 0 {
        lemma_classified_entries(s.drop_first());
    }
}

/// Classifies one number, exactly [`num_model`].
pub fn classify_number(i: Option<i64>, u: Option<u64>, f: Option<FloatValue>) -> (r: DataValue)
    ensures
        r@ == num_model(i, u, f),
{
    match i {
        Some(x) => DataValue::Int64(x),
        None => match u {
            Some(x) => DataValue::UInt64(x),
            None => match f {
                Some(fv) => DataValue::Float64(fv),
                None => DataValue::Null,
            },
        },
    }
}

/// Classifies every number of a raw tree, exactly [`classified_model`];
/// all other nodes pass through unchanged.
#[verifier::loop_isolation(false)]
pub fn classify_tree(r: &RawJson) -> (v: DataValue)
    ensures
        v@ == classified_model(*r),
    decreases r,
{
    match r {
        RawJson::Null => DataValue::Null,
        RawJson::Bool(b) => DataValue::Bool(*b),
        RawJson::Num(i, u, f) => {
            let fd = match f {
                Some(fv) => Some(fv.duplicate()),
                None => None,
            };
            proof {
                assert(num_model(*i, *u, fd) == num_model(*i, *u, *f));
            }
            classify_number(*i, *u, fd)
        },
        RawJson::Str(s) => DataValue::Str(s.clone()),
        RawJson::List(items) => {
            let mut out: Vec<DataValue> = Vec::new();
            let mut idx: usize = 0;
            while idx < items.len()
                invariant
                    idx <= items.len(),
                    out@.len() == idx as int,
                    forall|k: int| 0 <= k < idx as int ==> #[trigger] model_of(out@[k])
                        == classified_model(items@[k]),
                decreases items.len() - idx,
            {
                out.push(classify_tree(&items[idx]));
                idx = idx + 1;
            }
            let v = DataValue::List(out);
            proof {
                lemma_model_seq(v->List_0@);
                lemma_classified_seq(items@);
                assert(model_seq(v->List_0@) =~= classified_seq(items@));
            }
            v
        },
        RawJson::Object(fields) => {
            let mut out: Vec<(String, DataValue)> = Vec::new();
            let mut idx: usize = 0;
            while idx < fields.len()
                invariant
                    idx <= fields.len(),
                    out@.len() == idx as int,
                    forall|k: int| 0 <= k < idx as int ==> (#[trigger] out@[k]).0@
                        == fields@[k].0@ && model_of(out@[k].1) == classified_model(
                        fields@[k].1,
                    ),
                decreases fields.len() - idx,
            {
                let name = fields[idx].0.clone();
                let val = classify_tree(&fields[idx].1);
                out.push((name, val));
                idx = idx + 1;
            }
            let v = DataValue::Object(out);
            proof {
                lemma_entries_model(v->Object_0@);
                lemma_classified_entries(fields@);
                assert(entries_model(v->Object_0@) =~= classified_entries(fields@));
            }
            v
        },
    }
}

/// Relies on serde_json's `from_str`: well-formed JSON parses to a tree in
/// which every object's keys are unique (a duplicate field replaces the
/// earlier one) and every value is one of the JSON kinds; malformed JSON is
/// rejected with the parser's diagnostic, and empty text is never a JSON
/// document.  [`json_doc`] names the outcome.
#[verifier::external_body]
pub(crate) fn json_to_value(s: &str) -> (r: Result<DataValue, HandleError>)
    ensures
        r matches Ok(v) ==> (json_doc(s@) matches Some(m) && v@ == m && m.wf() && encodable(m)),
        r matches Err(e) ==> json_doc(s@) is None && e is JsonParseError,
        s@.len() == 0 ==> r is Err,
{
    match serde_json::from_str::<serde_json::Value>(s) {
        Ok(doc) => Ok(classify_tree(&json_tree(&doc))),
        Err(e) => Err(HandleError::JsonParseError(format!("{}", e))),
    }
}

/// Reads a parsed JSON tree into the raw form, variant by variant; a
/// number carries the parser's three readings untouched.
#[verifier::external_body]
fn json_tree(v: &serde_json::Value) -> RawJson {
    match v {
        serde_json::Value::Null => RawJson::Null,
        serde_json::Value::Bool(b) => RawJson::Bool(*b),
        serde_json::Value::Number(n) => json_number(n),
        serde_json::Value::String(s) => RawJson::Str(s.clone()),
        serde_json::Value::Array(items) => RawJson::List(items.iter().map(json_tree).collect()),
        serde_json::Value::Object(fields) => RawJson::Object(
            fields.iter().map(|(k, x)| (k.clone(), json_tree(x))).collect(),
        ),
    }
}

/// Relies on serde_json's `Number` accessors: the three plain readings of
/// one number, the float paired with its bits by the one float
/// constructor.
#[verifier::external_body]
fn json_number(n: &serde_json::Number) -> RawJson {
    let f = match n.as_f64() {
        Some(x) => crate::value::float_value_of(cel::objects::Value::Float(x)),
        None => None,
    };
    RawJson::Num(n.as_i64(), n.as_u64(), f)
}

/// Bindings laid over a base map: each field in order, later fields
/// shadowing earlier bindings.
pub open spec fn bindings_over(
    base: Map<Seq<char>, ValueModel>,
    fields: Seq<(Seq<char>, ValueModel)>,
) -> Map<Seq<char>, ValueModel>
    decreases fields,
{
    if fields.len() == 0 {
        base
    } else {
        bindings_over(base, fields.drop_last()).insert(fields.last().0, fields.last().1)
    }
}

/// The variables one record binds: the whole document under the root name
/// and, for an object, each top-level field under its own name.
pub open spec fn record_map(root: Seq<char>, m: ValueModel) -> Map<Seq<char>, ValueModel> {
    match m {
        ValueModel::Object(fields) => bindings_over(
            Map::<Seq<char>, ValueModel>::empty().insert(root, m),
            fields,
        ),
        _ => Map::<Seq<char>, ValueModel>::empty().insert(root, m),
    }
}

/// Parses a record and binds its variables under `root_var`, exactly as
/// [`record_map`] states; malformed JSON is rejected.  The parsed document
/// has unique keys in every object and holds only the JSON kinds.
pub fn record_variables(json_str: &str, root_var: &str) -> (r: Result<VariableSet, HandleError>)
    ensures
        r matches Ok(vars) ==> (json_doc(json_str@) matches Some(m) && m.wf() && encodable(m)
            && vars@ == record_map(root_var@, m)),
        r matches Err(e) ==> json_doc(json_str@) is None && e is JsonParseError,
{
    let v = match json_to_value(json_str) {
        Ok(v) => v,
        Err(e) => {
            return Err(e);
        },
    };
    let mut vars = VariableSet::new();
    vars.insert(root_var.to_owned(), v.duplicate());
    let ghost root_bound = Map::<Seq<char>, ValueModel>::empty().insert(root_var@, v@);
    match v {
        DataValue::Object(fields) => {
            let ghost models = entries_model(fields@);
            proof {
                lemma_entries_model(fields@);
            }
            let n = fields.len();
            let mut i: usize = 0;
            while i < n
                invariant
                    i <= n,
                    n == fields@.len(),
                    models == entries_model(fields@),
                    models.len() == n as int,
                    forall|k: int| 0 <= k < n as int ==> models[k] == (fields@[k].0@,
                        crate::value::model_of(fields@[k].1)),
                    vars@ == bindings_over(root_bound, models.take(i as int)),
                decreases n - i,
            {
                let name = fields[i].0.clone();
                let val = fields[i].1.duplicate();
                vars.insert(name, val);
                proof {
                    assert(models.take(i as int + 1).drop_last() =~= models.take(i as int));
                    assert(models.take(i as int + 1).last() == models[i as int]);
                }
                i = i + 1;
            }
            proof {
                assert(models.take(n as int) =~= models);
            }
        },
        _ => {},
    }
    Ok(vars)
}

/// Parses a record and binds its variables with the root document under
/// `.`, the fixed root name of this bridge.
pub fn json_to_cel_variables(json_str: &str) -> (r: Result<VariableSet, HandleError>)
    ensures
        r matches Ok(vars) ==> (json_doc(json_str@) matches Some(m) && m.wf() && encodable(m)
            && vars@ == record_map("."@, m)),
        r matches Err(e) ==> json_doc(json_str@) is None && e is JsonParseError,
{
    record_variables(json_str, ".")
}

} // verus!
