//! Declarations for the types of the outside expression engine and of the
//! JSON parser that appear in this crate's signatures, and the trusted
//! wrappers around the engine's operations.
//!
//! The engine is an opaque collaborator: compiling and executing expressions
//! is its business alone.  The wrappers here state only what the engine's
//! source plainly shows; everything downstream of them is verified against
//! those contracts.

use vstd::prelude::*;
use crate::input_handler::HandleError;
use crate::value::{DataValue, ValueModel};

verus! {

#[verifier::external_type_specification]
#[verifier::external_body]
pub struct ExProgram(cel::Program);

#[verifier::external_type_specification]
#[verifier::external_body]
pub struct ExContext<'p, 'v>(cel::Context<'p, 'v>);

#[verifier::external_type_specification]
#[verifier::external_body]
pub struct ExCelValue(cel::objects::Value);

#[verifier::external_type_specification]
#[verifier::external_body]
pub struct ExJsonValue(serde_json::Value);

#[verifier::external_type_specification]
#[verifier::external_body]
pub struct ExExecutionError(cel::ExecutionError);

#[verifier::external_type_specification]
#[verifier::external_body]
pub struct ExCelMap(cel::objects::Map);

/// Relies on `Clone` for the engine's value type; nothing is assumed of the
/// copy.
pub assume_specification[ <cel::objects::Value as Clone>::clone ](v: &cel::objects::Value) -> cel::objects::Value;

/// The variable bindings a context holds, as a map from variable name to a
/// model of the stored engine value.  The engine's binding store is keyed
/// and unordered; the abstraction reads an object value by the entries it
/// was handed, in that order.
pub uninterp spec fn ctx_vars(c: cel::Context<'static, 'static>) -> Map<
    Seq<char>,
    ValueModel,
>;

/// The empty variable map, for contrast with a filled context.
pub open spec fn no_vars() -> Map<Seq<char>, ValueModel> {
    Map::empty()
}

/// Relies on `cel::Context::default`: a fresh root context holds the standard
/// function registry and no variable bindings.
#[verifier::external_body]
pub fn new_context() -> (c: cel::Context<'static, 'static>)
    ensures
        ctx_vars(c) == no_vars(),
{
    cel::Context::default()
}

/// What the engine stores for a bound value: a non-JSON kind has no engine
/// binding and is stored as null; every JSON-representable value is stored
/// as itself ([`lemma_engine_view_encodable`]).
pub open spec fn engine_view(m: ValueModel) -> ValueModel
    decreases m,
{
    match m {
        ValueModel::Other(_) => ValueModel::Null,
        ValueModel::List(items) => ValueModel::List(engine_view_seq(items)),
        ValueModel::Object(fields) => ValueModel::Object(engine_view_entries(fields)),
        _ => m,
    }
}

/// [`engine_view`] over each element, in order.
pub open spec fn engine_view_seq(items: Seq<ValueModel>) -> Seq<ValueModel>
    decreases items,
{
    if items.len() == 0 {
        Seq::empty()
    } else {
        seq![engine_view(items[0])] + engine_view_seq(items.drop_first())
    }
}

/// [`engine_view`] over each field's value, in order.
pub open spec fn engine_view_entries(fields: Seq<(Seq<char>, ValueModel)>) -> Seq<
    (Seq<char>, ValueModel),
>
    decreases fields,
{
    if fields.len() == 0 {
        Seq::empty()
    } else {
        seq![(fields[0].0, engine_view(fields[0].1))] + engine_view_entries(fields.drop_first())
    }
}

/// [`engine_view`] over every value of a variable map.
pub open spec fn engine_map(m: Map<Seq<char>, ValueModel>) -> Map<Seq<char>, ValueModel> {
    m.map_values(|v: ValueModel| engine_view(v))
}

/// Binding one more name commutes with viewing every binding.
pub proof fn lemma_engine_map_insert(m: Map<Seq<char>, ValueModel>, k: Seq<char>, v: ValueModel)
    ensures
        engine_map(m.insert(k, v)) =~= engine_map(m).insert(k, engine_view(v)),
{
}

/// An empty variable map stays empty under the view.
pub proof fn lemma_engine_map_empty()
    ensures
        engine_map(Map::<Seq<char>, ValueModel>::empty()) =~= Map::<Seq<char>, ValueModel>::empty(),
{
}

/// A value JSON can encode is stored by the engine as itself.
pub proof fn lemma_engine_view_encodable(m: ValueModel)
    requires
        crate::serialize::encodable(m),
    ensures
        engine_view(m) == m,
    decreases m,
{
    match m {
        ValueModel::List(items) => {
            lemma_engine_view_seq(items);
            assert(engine_view_seq(items) =~= items);
        },
        ValueModel::Object(fields) => {
            lemma_engine_view_entries(fields);
            assert(engine_view_entries(fields) =~= fields);
        },
        _ => {},
    }
}

proof fn lemma_engine_view_seq(items: Seq<ValueModel>)
    requires
        forall|i: int| 0 <= i < items.len() ==> crate::serialize::encodable(#[trigger] items[i]),
    ensures
        engine_view_seq(items).len() == items.len(),
        forall|i: int| 0 <= i < items.len() ==> #[trigger] engine_view_seq(items)[i] == items[i],
    decreases items,
{
    if items.len() > 0 {
        lemma_engine_view_encodable(items[0]);
        assert(forall|i: int| 0 <= i < items.drop_first().len() ==> crate::serialize::encodable(
            #[trigger] items.drop_first()[i],
        ));
        lemma_engine_view_seq(items.drop_first());
    }
}

proof fn lemma_engine_view_entries(fields: Seq<(Seq<char>, ValueModel)>)
    requires
        forall|i: int| 0 <= i < fields.len() ==> crate::serialize::encodable(
            (#[trigger] fields[i]).1,
        ),
    ensures
        engine_view_entries(fields).len() == fields.len(),
        forall|i: int| 0 <= i < fields.len() ==> #[trigger] engine_view_entries(fields)[i]
            == fields[i],
    decreases fields,
{
    if fields.len() > 0 {
        lemma_engine_view_encodable(fields[0].1);
        assert(forall|i: int| 0 <= i < fields.drop_first().len() ==> crate::serialize::encodable(
            (#[trigger] fields.drop_first()[i]).1,
        ));
        lemma_engine_view_entries(fields.drop_first());
    }
}

/// Relies on `cel::Context::add_variable`, which inserts the binding into
/// the context's variable map (replacing any previous binding of the same
/// name); the conversion to the engine's binding type maps every value as
/// [`engine_view`] states and cannot fail for these kinds.
#[verifier::external_body]
pub fn add_variable(c: &mut cel::Context<'static, 'static>, name: &str, v: &DataValue)
    ensures
        ctx_vars(*final(c)) == ctx_vars(*old(c)).insert(name@, engine_view(v@)),
{
    let _ = c.add_variable(name.to_string(), to_cel(v));
}

/// Relies on `cel::Program::execute`.  The outcome is the engine's alone; on
/// failure the engine's diagnostic is carried as an execution error.
#[verifier::external_body]
pub fn execute_program(program: &cel::Program, c: &cel::Context<'static, 'static>) -> (r: Result<
    DataValue,
    HandleError,
>)
    ensures
        r matches Err(e) ==> e is ExecutionError,
{
    match program.execute(c) {
        Ok(v) => Ok(from_cel(&v)),
        Err(e) => Err(HandleError::ExecutionError(format!("{}", e))),
    }
}

/// Converts a value of this crate into the engine's value representation,
/// variant by variant, exactly as [`engine_view`] describes: the float
/// variant hands back the engine value carried beside the bits, and a
/// non-JSON kind (which the pipeline never binds) becomes null.
#[verifier::external_body]
fn to_cel(v: &DataValue) -> cel::objects::Value {
    match v {
        DataValue::Null => cel::objects::Value::Null,
        DataValue::Bool(b) => cel::objects::Value::Bool(*b),
        DataValue::Int64(i) => cel::objects::Value::Int(*i),
        DataValue::UInt64(u) => cel::objects::Value::UInt(*u),
        DataValue::Float64(fv) => fv.engine_value().clone(),
        DataValue::Str(s) => cel::objects::Value::String(std::sync::Arc::new(s.clone())),
        DataValue::List(items) => to_cel_list(items),
        DataValue::Object(fields) => to_cel_map(fields),
        DataValue::Other(_) => cel::objects::Value::Null,
    }
}

/// Converts the elements of a list, in order, into an engine list.
#[verifier::external_body]
fn to_cel_list(items: &Vec<DataValue>) -> cel::objects::Value {
    cel::objects::Value::List(std::sync::Arc::new(items.iter().map(to_cel).collect()))
}

/// Converts the fields of an object, each under its name, into an engine
/// map.
#[verifier::external_body]
fn to_cel_map(fields: &Vec<(String, DataValue)>) -> cel::objects::Value {
    let m = fields
        .iter()
        .map(|(k, x)| (cel::objects::Key::String(std::sync::Arc::new(k.clone())), to_cel(x)))
        .collect();
    cel::objects::Value::Map(cel::objects::Map { map: std::sync::Arc::new(m) })
}

/// Converts an engine value back into this crate's representation, variant by
/// variant.  Map keys are rendered with the engine's own key formatting; any
/// engine kind outside the JSON-representable ones comes back carrying the
/// engine's name for that kind.
#[verifier::external_body]
fn from_cel(v: &cel::objects::Value) -> DataValue {
    match v {
        cel::objects::Value::Null => DataValue::Null,
        cel::objects::Value::Bool(b) => DataValue::Bool(*b),
        cel::objects::Value::Int(i) => DataValue::Int64(*i),
        cel::objects::Value::UInt(u) => DataValue::UInt64(*u),
        cel::objects::Value::Float(f) => crate::value::float_data_value(
            cel::objects::Value::Float(*f),
        ).unwrap_or(DataValue::Null),
        cel::objects::Value::String(s) => DataValue::Str(s.as_ref().clone()),
        cel::objects::Value::List(items) => from_cel_list(items.as_ref()),
        cel::objects::Value::Map(m) => from_cel_map(m),
        other => DataValue::Other(other.type_of().to_string()),
    }
}


/// Converts the elements of an engine list, in order.
#[verifier::external_body]
fn from_cel_list(items: &Vec<cel::objects::Value>) -> DataValue {
    DataValue::List(items.iter().map(from_cel).collect())
}

/// Converts an engine map: each entry under the engine's rendering of its
/// key.
#[verifier::external_body]
fn from_cel_map(m: &cel::objects::Map) -> DataValue {
    DataValue::Object(m.map.iter().map(|(k, x)| (k.to_string(), from_cel(x))).collect())
}

} // verus!
