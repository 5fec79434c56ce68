//! Paint values (`fill`, `stroke`, `stop-color`) read as solid colors.
//!
//! The `<paint>` grammar itself is `svgtypes`' business; this module decides
//! what an animation can do with each kind of paint.

use vstd::prelude::*;
use crate::text::trim;
use crate::warnings::{warn_invalid_value, warn_unsupported_paint, ValueWarning};

verus! {

broadcast use vstd::string::group_string_axioms;

/// An sRGB color with alpha, each channel in `0..=255`.
#[derive(Clone, Copy, Debug, PartialEq, Eq, Structural)]
pub struct Color {
    pub red: u8,
    pub green: u8,
    pub blue: u8,
    pub alpha: u8,
}

/// A `<paint>` value as `svgtypes::Paint::from_str` reads it.
///
/// A `url(...)` paint keeps its link; its fallback is not carried over.
#[derive(Clone, Debug, PartialEq)]
pub enum PaintValue {
    /// `none`.
    NoPaint,
    /// `inherit`.
    Inherit,
    /// `currentColor`.
    CurrentColor,
    /// A color.
    Color(Color),
    /// `url(#link)`, with the link.
    FuncIri(String),
    /// `context-fill`.
    ContextFill,
    /// `context-stroke`.
    ContextStroke,
    /// Text that is not a `<paint>`.
    Invalid,
}

pub enum PaintView {
    NoPaint,
    Inherit,
    CurrentColor,
    Color(Color),
    FuncIri(Seq<char>),
    ContextFill,
    ContextStroke,
    Invalid,
}

impl View for PaintValue {
    type V = PaintView;

    open spec fn view(&self) -> PaintView {
        match self {
            PaintValue::NoPaint => PaintView::NoPaint,
            PaintValue::Inherit => PaintView::Inherit,
            PaintValue::CurrentColor => PaintView::CurrentColor,
            PaintValue::Color(c) => PaintView::Color(*c),
            PaintValue::FuncIri(s) => PaintView::FuncIri(s@),
            PaintValue::ContextFill => PaintView::ContextFill,
            PaintValue::ContextStroke => PaintView::ContextStroke,
            PaintValue::Invalid => PaintView::Invalid,
        }
    }
}

/// What `svgtypes::Paint::from_str` reads from a text.
pub uninterp spec fn svg_paint(text: Seq<char>) -> PaintView;

/// Reads a `<paint>` with `svgtypes::Paint::from_str`.
///
/// Trusted: the result is `svg_paint` of the text, that is, it depends on the
/// text alone; and, as the function's source shows, a text that trims to
/// `none`, `inherit`, `currentColor`, `context-fill` or `context-stroke`
/// gives that keyword. Nothing more is claimed of the `<paint>` grammar.
#[verifier::external_body]
fn read_paint(text: &str) -> (r: PaintValue)
    ensures
        r@ == svg_paint(text@),
        trim(text@) == "none"@ ==> r@ == PaintView::NoPaint,
        trim(text@) == "inherit"@ ==> r@ == PaintView::Inherit,
        trim(text@) == "currentColor"@ ==> r@ == PaintView::CurrentColor,
        trim(text@) == "context-fill"@ ==> r@ == PaintView::ContextFill,
        trim(text@) == "context-stroke"@ ==> r@ == PaintView::ContextStroke,
{
    match svgtypes::Paint::from_str(text) {
        Ok(svgtypes::Paint::None) => PaintValue::NoPaint,
        Ok(svgtypes::Paint::Inherit) => PaintValue::Inherit,
        Ok(svgtypes::Paint::CurrentColor) => PaintValue::CurrentColor,
        Ok(svgtypes::Paint::Color(c)) => PaintValue::Color(
            Color { red: c.red, green: c.green, blue: c.blue, alpha: c.alpha },
        ),
        Ok(svgtypes::Paint::FuncIRI(link, _)) => PaintValue::FuncIri(link.to_string()),
        Ok(svgtypes::Paint::ContextFill) => PaintValue::ContextFill,
        Ok(svgtypes::Paint::ContextStroke) => PaintValue::ContextStroke,
        Err(_) => PaintValue::Invalid,
    }
}

/// The outcome of reading a paint value as a solid color.
#[derive(Clone, Copy, Debug, PartialEq, Eq, Structural)]
pub enum ColorForm {
    /// A solid color.
    Color(Color),
    /// A `url(#...)` paint reference, which cannot be animated as a color.
    Url,
    /// Anything else.
    Invalid,
}

/// Only a color is animatable; a `url(...)` paint is told apart for its warning.
pub open spec fn color_form_of(paint: PaintView) -> ColorForm {
    match paint {
        PaintView::Color(c) => ColorForm::Color(c),
        PaintView::FuncIri(_) => ColorForm::Url,
        _ => ColorForm::Invalid,
    }
}

/// Classifies a paint value for color animation.
pub fn color_form(paint: &PaintValue) -> (r: ColorForm)
    ensures
        r == color_form_of(paint@),
{
    match paint {
        PaintValue::Color(c) => ColorForm::Color(*c),
        PaintValue::FuncIri(_) => ColorForm::Url,
        _ => ColorForm::Invalid,
    }
}

/// Reads a paint value and classifies it for color animation.
pub fn parse_paint_color(value: &str) -> (r: ColorForm)
    ensures
        r == color_form_of(svg_paint(value@)),
{
    let paint = read_paint(value);
    color_form(&paint)
}

/// Parses a solid color, reporting `url(#...)` and invalid values.
pub fn parse_color_form(value: &str, warnings: &mut Vec<ValueWarning>) -> (r: Option<Color>)
    ensures
        match color_form_of(svg_paint(value@)) {
            ColorForm::Color(c) => r == Some(c) && final(warnings)@ == old(warnings)@,
            ColorForm::Url => {
                &&& r is None
                &&& final(warnings)@.len() == old(warnings)@.len() + 1
                &&& final(warnings)@.drop_last() == old(warnings)@
                &&& final(warnings)@.last() matches ValueWarning::UnsupportedPaint(s) && s@ == value@
            },
            ColorForm::Invalid => {
                &&& r is None
                &&& final(warnings)@.len() == old(warnings)@.len() + 1
                &&& final(warnings)@.drop_last() == old(warnings)@
                &&& final(warnings)@.last() matches ValueWarning::InvalidValue(s) && s@ == value@
            },
        },
{
    let ghost before = warnings@;
    match parse_paint_color(value) {
        ColorForm::Color(c) => Some(c),
        ColorForm::Url => {
            warnings.push(warn_unsupported_paint(value));
            assert(warnings@.drop_last() =~= before);
            None
        },
        ColorForm::Invalid => {
            warnings.push(warn_invalid_value(value));
            assert(warnings@.drop_last() =~= before);
            None
        },
    }
}


/// What `svgtypes::Color::from_str` reads from a text, if it is a color.
pub uninterp spec fn svg_color(text: Seq<char>) -> Option<Color>;

/// Reads a `<color>` with `svgtypes::Color::from_str`.
///
/// Trusted: the result is `svg_color` of the text, that is, it depends on the
/// text alone. Nothing more is claimed of the `<color>` grammar.
#[verifier::external_body]
fn read_color(text: &str) -> (r: Option<Color>)
    ensures
        r == svg_color(text@),
{
    match text.parse::<svgtypes::Color>() {
        Ok(c) => Some(Color { red: c.red, green: c.green, blue: c.blue, alpha: c.alpha }),
        Err(_) => None,
    }
}

/// Reads a CSS color value in `@keyframes`.
pub fn parse_css_color(value: &str) -> (r: Option<Color>)
    ensures
        r == svg_color(value@),
{
    read_color(value)
}

} // verus!
