//! The truthiness policy: a pure, total verdict on any value.

use vstd::prelude::*;
use crate::value::{DataValue, ValueModel};

verus! {

/// The bit pattern is an IEEE-754 double zero (of either sign).
pub open spec fn float_is_zero(bits: u64) -> bool {
    bits & 0x7fff_ffff_ffff_ffff == 0
}

/// The bit pattern is an IEEE-754 double NaN: exponent all ones and a
/// non-zero mantissa.
pub open spec fn float_is_nan(bits: u64) -> bool {
    (bits >> 52) & 0x7ff == 0x7ff && bits & 0x000f_ffff_ffff_ffff != 0
}

/// What counts as truthy: booleans by their value; numbers when non-zero and,
/// for floats, not NaN; strings, lists and objects when non-empty; null never;
/// any non-enumerated kind always.
pub open spec fn truthy_spec(v: ValueModel) -> bool {
    match v {
        ValueModel::Null => false,
        ValueModel::Bool(b) => b,
        ValueModel::Int(i) => i != 0,
        ValueModel::UInt(u) => u != 0,
        ValueModel::Float(bits) => !float_is_zero(bits) && !float_is_nan(bits),
        ValueModel::Str(s) => s.len() > 0,
        ValueModel::List(items) => items.len() > 0,
        ValueModel::Object(fields) => fields.len() > 0,
        ValueModel::Other(_) => true,
    }
}

/// Maps a value to its boolean verdict, exactly as [`truthy_spec`] states.
pub fn is_truthy(v: &DataValue) -> (r: bool)
    ensures
        r == truthy_spec(v@),
{
    match v {
        DataValue::Null => false,
        DataValue::Bool(b) => *b,
        DataValue::Int64(i) => *i != 0,
        DataValue::UInt64(u) => *u != 0,
        DataValue::Float64(fv) => {
            let bits = fv.bits();
            let zero: bool = bits & 0x7fff_ffff_ffff_ffff == 0;
            let exp_all_ones: bool = (bits >> 52) & 0x7ff == 0x7ff;
            let mantissa_nonzero: bool = bits & 0x000f_ffff_ffff_ffff != 0;
            !zero && !(exp_all_ones && mantissa_nonzero)
        },
        DataValue::Str(s) => !s.as_str().is_empty(),
        DataValue::List(items) => items.len() > 0,
        DataValue::Object(fields) => fields.len() > 0,
        DataValue::Other(_) => true,
    }
}

} // verus!
