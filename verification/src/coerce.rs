//! The type coercion engine: interpreting an unescaped raw string as a
//! typed value.

use vstd::prelude::*;
use vstd::string::StringExecFns;

use crate::decimal::finite_float;
use crate::decimal::int_of;
use crate::decimal::is_finite_float;
use crate::decimal::parse_int64;
use crate::json::json_of;
use crate::json::json_parse;
use crate::json::json_to_typed_value;
use crate::json::typed_of_jmodel;
use crate::text::str_eq;
use crate::value::TypedValue;
use crate::value::VModel;

verus! {

/// What coercion yields, trying in strict order: a JSON value, a 64-bit
/// signed integer, a finite 64-bit float (kept as its text), the bare
/// boolean literals, and finally the string itself.
pub open spec fn coerce_spec(s: Seq<char>) -> VModel {
    match json_of(s) {
        Some(jm) => typed_of_jmodel(jm),
        None => match int_of(s) {
            Some(i) => VModel::Int64(i),
            None => if finite_float(s) {
                VModel::Float64(s)
            } else if s == "true"@ {
                VModel::Bool(true)
            } else if s == "false"@ {
                VModel::Bool(false)
            } else {
                VModel::Str(s)
            },
        },
    }
}

/// Convert an unescaped raw string to a typed value, per `coerce_spec`.
pub fn string_to_typed_value(value: &str) -> (t: TypedValue)
    ensures
        t.model() == coerce_spec(value@),
        t.wf(),
{
    match json_parse(value) {
        Some(v) => json_to_typed_value(v),
        None => match parse_int64(value) {
            Some(i) => TypedValue::Int64(i),
            None => {
                if is_finite_float(value) {
                    TypedValue::Float64(String::from_str(value))
                } else if str_eq(value, "true") {
                    TypedValue::Bool(true)
                } else if str_eq(value, "false") {
                    TypedValue::Bool(false)
                } else {
                    TypedValue::Str(String::from_str(value))
                }
            },
        },
    }
}

} // verus!
