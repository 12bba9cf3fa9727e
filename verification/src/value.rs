//! The tagged value representation that the whole pipeline works on.
//!
//! Every JSON document and every engine result is brought into [`DataValue`];
//! no other runtime type flows through the pipeline.  Floating-point numbers
//! are held as [`FloatValue`]: the IEEE-754 bit pattern (this crate's
//! verified code does no float arithmetic) together with the engine's own
//! value for the same number, carried so the number crosses back into the
//! engine unchanged.

use vstd::prelude::*;

verus! {

/// A 64-bit float as the pipeline holds it: the IEEE-754 bit pattern, which
/// alone takes part in contracts, and the engine's value for the same
/// number.  The fields are private and consistent by construction: the one
/// primitive constructor, [`float_value_of`] (and [`float_data_value`]
/// through it), builds both from a single engine float, and
/// [`FloatValue::duplicate`] copies the pair through the engine value's
/// `Clone`.
#[derive(Debug)]
pub struct FloatValue {
    bits: u64,
    raw: cel::objects::Value,
}

impl FloatValue {
    /// The IEEE-754 bit pattern of the number.
    pub closed spec fn spec_bits(self) -> u64 {
        self.bits
    }

    /// The IEEE-754 bit pattern of the number.
    pub fn bits(&self) -> (r: u64)
        ensures
            r == self.spec_bits(),
    {
        self.bits
    }

    /// The engine's value for the number.
    pub(crate) fn engine_value(&self) -> &cel::objects::Value {
        &self.raw
    }

    /// A copy with the same bits, through the engine value's `Clone`.
    pub fn duplicate(&self) -> (r: FloatValue)
        ensures
            r.spec_bits() == self.spec_bits(),
    {
        FloatValue { bits: self.bits, raw: self.raw.clone() }
    }
}

/// Relies on `to_bits`: pairs an engine float with the bit pattern of the
/// same number — the only way a float enters the pipeline; anything but an
/// engine float yields nothing.
#[verifier::external_body]
pub(crate) fn float_value_of(raw: cel::objects::Value) -> Option<FloatValue> {
    match raw {
        cel::objects::Value::Float(x) => Some(FloatValue { bits: x.to_bits(), raw }),
        _ => None,
    }
}

/// A pipeline value from an engine float, through [`float_value_of`].
#[verifier::external_body]
pub(crate) fn float_data_value(raw: cel::objects::Value) -> (r: Option<DataValue>)
    ensures
        r matches Some(v) ==> v is Float64,
{
    match float_value_of(raw) {
        Some(fv) => Some(DataValue::Float64(fv)),
        None => None,
    }
}

/// A JSON-compatible tagged value.
///
/// `Float64` holds a [`FloatValue`]; only its bits take part in contracts.
/// `Other` stands for any engine result kind outside the JSON ones, holding
/// the engine's name for that kind.
#[derive(Debug)]
pub enum DataValue {
    Null,
    Bool(bool),
    Int64(i64),
    UInt64(u64),
    Float64(FloatValue),
    Str(String),
    List(Vec<DataValue>),
    Object(Vec<(String, DataValue)>),
    Other(String),
}

/// The mathematical model of a [`DataValue`]: the same tree over `Seq`.
pub enum ValueModel {
    Null,
    Bool(bool),
    Int(i64),
    UInt(u64),
    Float(u64),
    Str(Seq<char>),
    List(Seq<ValueModel>),
    Object(Seq<(Seq<char>, ValueModel)>),
    Other(Seq<char>),
}

/// The model of a value, variant by variant.
pub open spec fn model_of(v: DataValue) -> ValueModel
    decreases v,
{
    match v {
        DataValue::Null => ValueModel::Null,
        DataValue::Bool(b) => ValueModel::Bool(b),
        DataValue::Int64(i) => ValueModel::Int(i),
        DataValue::UInt64(u) => ValueModel::UInt(u),
        DataValue::Float64(fv) => ValueModel::Float(fv.spec_bits()),
        DataValue::Str(s) => ValueModel::Str(s@),
        DataValue::List(items) => ValueModel::List(model_seq(items@)),
        DataValue::Object(fields) => ValueModel::Object(entries_model(fields@)),
        DataValue::Other(kind) => ValueModel::Other(kind@),
    }
}

/// The models of a sequence of values, in order.
pub open spec fn model_seq(s: Seq<DataValue>) -> Seq<ValueModel>
    decreases s,
{
    if s.len() == 0 {
        Seq::empty()
    } else {
        seq![model_of(s[0])] + model_seq(s.drop_first())
    }
}

/// The models of a sequence of named values, in order.
pub open spec fn entries_model(s: Seq<(String, DataValue)>) -> Seq<(Seq<char>, ValueModel)>
    decreases s,
{
    if s.len() == 0 {
        Seq::empty()
    } else {
        seq![(s[0].0@, model_of(s[0].1))] + entries_model(s.drop_first())
    }
}

/// `model_seq` maps the sequence index by index.
pub proof fn lemma_model_seq(s: Seq<DataValue>)
    ensures
        model_seq(s).len() == s.len(),
        forall|i: int| 0 <= i < s.len() ==> model_seq(s)[i] == model_of(s[i]),
    decreases s,
{
    if s.len() > 0 {
        lemma_model_seq(s.drop_first());
    }
}

/// `entries_model` maps the sequence index by index.
pub proof fn lemma_entries_model(s: Seq<(String, DataValue)>)
    ensures
        entries_model(s).len() == s.len(),
        forall|i: int| 0 <= i < s.len() ==> entries_model(s)[i] == (s[i].0@, model_of(s[i].1)),
    decreases s,
{
    if s.len() > 0 {
        lemma_entries_model(s.drop_first());
    }
}

impl View for DataValue {
    type V = ValueModel;

    open spec fn view(&self) -> ValueModel {
        model_of(*self)
    }
}

impl ValueModel {
    /// Well-formedness: every object in the tree has pairwise distinct keys.
    pub open spec fn wf(self) -> bool
        decreases self,
    {
        match self {
            ValueModel::List(items) => forall|i: int|
                0 <= i < items.len() ==> #[trigger] items[i].wf(),
            ValueModel::Object(fields) => {
                &&& forall|i: int, j: int|
                    0 <= i < j < fields.len() ==> (#[trigger] fields[i].0) != (#[trigger] fields[j].0)
                &&& forall|i: int| 0 <= i < fields.len() ==> (#[trigger] fields[i].1).wf()
            },
            _ => true,
        }
    }
}

impl DataValue {
    /// A deep copy with the same model.
    #[verifier::loop_isolation(false)]
    pub fn duplicate(&self) -> (r: DataValue)
        ensures
            r@ == self@,
        decreases self,
    {
        match self {
            DataValue::Null => DataValue::Null,
            DataValue::Bool(b) => DataValue::Bool(*b),
            DataValue::Int64(i) => DataValue::Int64(*i),
            DataValue::UInt64(u) => DataValue::UInt64(*u),
            DataValue::Float64(fv) => DataValue::Float64(FloatValue {
                bits: fv.bits,
                raw: fv.raw.clone(),
            }),
            DataValue::Str(s) => DataValue::Str(s.clone()),
            DataValue::List(items) => {
                let mut out: Vec<DataValue> = Vec::new();
                let mut i: usize = 0;
                while i < items.len()
                    invariant
                        i <= items.len(),
                        out@.len() == i as int,
                        forall|k: int| 0 <= k < i as int ==> #[trigger] model_of(out@[k]) == model_of(items@[k]),
                    decreases items.len() - i,
                {
                    out.push(items[i].duplicate());
                    i = i + 1;
                }
                let r = DataValue::List(out);
                proof {
                    lemma_model_seq(out@);
                    lemma_model_seq(items@);
                    assert(model_seq(out@) =~= model_seq(items@));
                }
                r
            },
            DataValue::Object(fields) => {
                let mut out: Vec<(String, DataValue)> = Vec::new();
                let mut i: usize = 0;
                while i < fields.len()
                    invariant
                        i <= fields.len(),
                        out@.len() == i as int,
                        forall|k: int| 0 <= k < i as int ==> (#[trigger] out@[k]).0@ == fields@[k].0@
                            && model_of(out@[k].1) == model_of(fields@[k].1),
                    decreases fields.len() - i,
                {
                    let name = fields[i].0.clone();
                    let v = fields[i].1.duplicate();
                    out.push((name, v));
                    i = i + 1;
                }
                let r = DataValue::Object(out);
                proof {
                    lemma_entries_model(out@);
                    lemma_entries_model(fields@);
                    assert(entries_model(out@) =~= entries_model(fields@));
                }
                r
            },
            DataValue::Other(kind) => DataValue::Other(kind.clone()),
        }
    }
}

} // verus!
