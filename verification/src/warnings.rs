//! The diagnostics that parsing reports, and their messages.
//!
//! Parsing never fails on a malformed animation: it drops what it cannot use
//! and reports a warning, which the caller logs.

use vstd::prelude::*;
use vstd::string::StringExecFns;

verus! {

broadcast use vstd::string::group_string_axioms;

/// A diagnostic about an animation value.
#[derive(Clone, Debug, PartialEq)]
pub enum ValueWarning {
    /// The animated attribute is not supported.
    UnsupportedAttribute(String),
    /// A paint value that cannot be animated as a color, such as `url(#g)`.
    UnsupportedPaint(String),
    /// List values of different lengths fall back to discrete interpolation.
    NotInterpolable,
    /// A value that does not parse.
    InvalidValue(String),
    /// A geometry value that does not parse.
    InvalidGeometryValue(String),
    /// Only the last of several additive geometry animations is used.
    LastAdditiveGeometry,
    /// `accumulate="sum"` on a type that cannot accumulate.
    UnsupportedAccumulate,
}

/// `prefix`, then `value`, then `'.`.
pub open spec fn quoted(prefix: Seq<char>, value: Seq<char>) -> Seq<char> {
    prefix + value + "'."@
}

/// The text that is logged for a warning.
pub open spec fn value_warning_message(w: ValueWarning) -> Seq<char> {
    match w {
        ValueWarning::UnsupportedAttribute(s) => quoted("Unsupported animation attribute: '"@, s@),
        ValueWarning::UnsupportedPaint(s) => quoted("Unsupported paint value: '"@, s@),
        ValueWarning::NotInterpolable => "Animation values are not interpolable; using discrete interpolation."@,
        ValueWarning::InvalidValue(s) => quoted("Invalid animation value: '"@, s@),
        ValueWarning::InvalidGeometryValue(s) => quoted("Invalid geometry animation value: '"@, s@),
        ValueWarning::LastAdditiveGeometry => "Only the last additive geometry animation is used."@,
        ValueWarning::UnsupportedAccumulate => "Unsupported accumulate value; ignoring."@,
    }
}

/// The messages of a list of warnings, in order.
pub open spec fn messages(ws: Seq<ValueWarning>) -> Seq<Seq<char>> {
    ws.map_values(|w: ValueWarning| value_warning_message(w))
}

/// `prefix`, then `value`, then `'.`, as a new `String`.
pub fn quote(prefix: &str, value: &str) -> (r: String)
    ensures
        r@ == quoted(prefix@, value@),
{
    String::from_str(prefix).concat(value).concat("'.")
}

impl ValueWarning {
    /// The text that is logged for this warning.
    pub fn message(&self) -> (r: String)
        ensures
            r@ == value_warning_message(*self),
    {
        match self {
            ValueWarning::UnsupportedAttribute(s) => quote(
                "Unsupported animation attribute: '",
                s.as_str(),
            ),
            ValueWarning::UnsupportedPaint(s) => quote("Unsupported paint value: '", s.as_str()),
            ValueWarning::NotInterpolable => String::from_str(
                "Animation values are not interpolable; using discrete interpolation.",
            ),
            ValueWarning::InvalidValue(s) => quote("Invalid animation value: '", s.as_str()),
            ValueWarning::InvalidGeometryValue(s) => quote(
                "Invalid geometry animation value: '",
                s.as_str(),
            ),
            ValueWarning::LastAdditiveGeometry => String::from_str(
                "Only the last additive geometry animation is used.",
            ),
            ValueWarning::UnsupportedAccumulate => String::from_str(
                "Unsupported accumulate value; ignoring.",
            ),
        }
    }
}

/// The warning for an unsupported animated attribute.
pub fn warn_unsupported_attribute(name: &str) -> (r: ValueWarning)
    ensures
        r matches ValueWarning::UnsupportedAttribute(s) && s@ == name@,
{
    ValueWarning::UnsupportedAttribute(String::from_str(name))
}

/// The warning for a paint value that cannot be animated as a color.
pub fn warn_unsupported_paint(value: &str) -> (r: ValueWarning)
    ensures
        r matches ValueWarning::UnsupportedPaint(s) && s@ == value@,
{
    ValueWarning::UnsupportedPaint(String::from_str(value))
}

/// The warning for list values that cannot be interpolated.
pub fn warn_not_interpolable() -> (r: ValueWarning)
    ensures
        r == ValueWarning::NotInterpolable,
{
    ValueWarning::NotInterpolable
}

/// The warning for a value that does not parse.
pub fn warn_invalid_value(value: &str) -> (r: ValueWarning)
    ensures
        r matches ValueWarning::InvalidValue(s) && s@ == value@,
{
    ValueWarning::InvalidValue(String::from_str(value))
}

/// The warning for a geometry value that does not parse.
pub fn warn_invalid_geometry_value(value: &str) -> (r: ValueWarning)
    ensures
        r matches ValueWarning::InvalidGeometryValue(s) && s@ == value@,
{
    ValueWarning::InvalidGeometryValue(String::from_str(value))
}

/// The warning for several additive geometry animations on one target.
pub fn warn_last_additive_geometry() -> (r: ValueWarning)
    ensures
        r == ValueWarning::LastAdditiveGeometry,
{
    ValueWarning::LastAdditiveGeometry
}

/// The warning for `accumulate="sum"` on a type that cannot accumulate.
pub fn warn_unsupported_accumulate() -> (r: ValueWarning)
    ensures
        r == ValueWarning::UnsupportedAccumulate,
{
    ValueWarning::UnsupportedAccumulate
}

/// Keeps a parse result, adding the invalid-value warning for `raw` when it
/// is `None`.
pub fn warned<T>(value: Option<T>, raw: &str, warnings: &mut Vec<ValueWarning>) -> (r: Option<T>)
    ensures
        r == value,
        value is Some ==> final(warnings)@ == old(warnings)@,
        value is None ==> {
            &&& final(warnings)@.len() == old(warnings)@.len() + 1
            &&& final(warnings)@.drop_last() == old(warnings)@
            &&& final(warnings)@.last() matches ValueWarning::InvalidValue(s) && s@ == raw@
        },
{
    if value.is_none() {
        warnings.push(warn_invalid_value(raw));
    }
    value
}

/// Keeps a parse result, adding the invalid-geometry warning for `raw` when
/// it is `None`.
pub fn warned_geometry<T>(value: Option<T>, raw: &str, warnings: &mut Vec<ValueWarning>) -> (r:
    Option<T>)
    ensures
        r == value,
        value is Some ==> final(warnings)@ == old(warnings)@,
        value is None ==> {
            &&& final(warnings)@.len() == old(warnings)@.len() + 1
            &&& final(warnings)@.drop_last() == old(warnings)@
            &&& final(warnings)@.last() matches ValueWarning::InvalidGeometryValue(s) && s@ == raw@
        },
{
    if value.is_none() {
        warnings.push(warn_invalid_geometry_value(raw));
    }
    value
}

} // verus!
