//! CSS `transform` values of `@keyframes`: a list of transform functions,
//! each with its arguments.
//!
//! Numbers and angles are kept as the texts of finite `f32` literals. Lengths
//! (the arguments of `translate`) are kept as written, once `svgtypes` has
//! read them as user-unit lengths: without a unit, or in `px`.

use vstd::prelude::*;
use crate::declarations::{opt_view, plain_scan};
use crate::forms::{nonblank_items, nonblank_pieces};
use crate::text::texts_of;
use crate::metadata::{finite_part, finite_text};
use crate::number::{f32_finite, is_finite_f32};
use crate::shorthand::{byte_boundary, byte_len, is_char_boundary, utf8_len, Outcome};
use crate::text::{
    chars_of, copy_range, ends_with_ci, eq_ci, is_whitespace, is_ws, range_ends_with_ci,
    range_eq_ci_str, trim, trim_bounds,
};

verus! {

broadcast use vstd::string::group_string_axioms;

/// The unit of an angle.
#[derive(Clone, Copy, Debug, PartialEq, Eq, Structural)]
pub enum AngleUnit {
    /// `deg`.
    Degrees,
    /// `grad`.
    Gradians,
    /// `rad`.
    Radians,
    /// `turn`.
    Turns,
    /// No unit: degrees.
    Unitless,
}

/// An angle: its unit and the text of its number.
#[derive(Clone, Debug, PartialEq)]
pub struct CssAngle {
    pub unit: AngleUnit,
    pub number: String,
}

pub struct AngleView {
    pub unit: AngleUnit,
    pub number: Seq<char>,
}

impl View for CssAngle {
    type V = AngleView;

    open spec fn view(&self) -> AngleView {
        AngleView { unit: self.unit, number: self.number@ }
    }
}

pub open spec fn angle_view(r: Option<CssAngle>) -> Option<AngleView> {
    match r {
        Some(a) => Some(a@),
        None => None,
    }
}

pub open spec fn with_unit(n: Seq<char>, unit: AngleUnit) -> Option<AngleView> {
    match finite_text(n) {
        Some(t) => Some(AngleView { unit, number: t }),
        None => None,
    }
}

/// An `<angle>`: a finite number followed by `deg`, `grad`, `rad` or `turn`
/// (tried in that order, in any case), or a bare number of degrees.
pub open spec fn angle_of(value: Seq<char>) -> Option<AngleView> {
    let v = trim(value);
    if ends_with_ci(v, "deg"@) {
        with_unit(v.subrange(0, v.len() - 3), AngleUnit::Degrees)
    } else if ends_with_ci(v, "grad"@) {
        with_unit(v.subrange(0, v.len() - 4), AngleUnit::Gradians)
    } else if ends_with_ci(v, "rad"@) {
        with_unit(v.subrange(0, v.len() - 3), AngleUnit::Radians)
    } else if ends_with_ci(v, "turn"@) {
        with_unit(v.subrange(0, v.len() - 4), AngleUnit::Turns)
    } else {
        with_unit(v, AngleUnit::Unitless)
    }
}

/// Whether looking for the unit of an angle slices its UTF-8 text inside a
/// character: the units are found by splitting a fixed number of bytes off
/// the end.
pub open spec fn angle_panics(value: Seq<char>) -> bool {
    let v = trim(value);
    let bl = byte_len(v) as int;
    (bl >= 3 && !byte_boundary(v, bl - 3)) || (!ends_with_ci(v, "deg"@) && bl >= 4
        && !byte_boundary(v, bl - 4))
}

/// Reads the angle `v[lo..hi]`.
fn angle_in(v: &[char], lo: usize, hi: usize) -> (r: Option<CssAngle>)
    requires
        lo <= hi <= v@.len(),
    ensures
        angle_view(r) == angle_of(v@.subrange(lo as int, hi as int)),
{
    let (a, b) = trim_bounds(v, lo, hi);
    let ghost t = v@.subrange(a as int, b as int);
    let (unit, end) = if range_ends_with_ci(v, a, b, "deg") {
        proof {
            reveal_strlit("deg");
        }
        (AngleUnit::Degrees, b - 3)
    } else if range_ends_with_ci(v, a, b, "grad") {
        proof {
            reveal_strlit("grad");
        }
        (AngleUnit::Gradians, b - 4)
    } else if range_ends_with_ci(v, a, b, "rad") {
        proof {
            reveal_strlit("rad");
        }
        (AngleUnit::Radians, b - 3)
    } else if range_ends_with_ci(v, a, b, "turn") {
        proof {
            reveal_strlit("turn");
        }
        (AngleUnit::Turns, b - 4)
    } else {
        (AngleUnit::Unitless, b)
    };
    assert(v@.subrange(a as int, end as int) =~= t.subrange(0, t.len() - (b - end)));
    match finite_part(v, a, end) {
        Some(n) => Some(CssAngle { unit, number: n }),
        None => None,
    }
}

/// Reads a CSS `<angle>`.
pub fn parse_angle(value: &str) -> (r: Option<CssAngle>)
    requires
        !angle_panics(value@),
    ensures
        angle_view(r) == angle_of(value@),
{
    let v = chars_of(value);
    assert(v@.subrange(0, v@.len() as int) =~= v@);
    angle_in(v.as_slice(), 0, v.len())
}

/// The unit of an SVG `<length>`.
#[derive(Clone, Copy, Debug, PartialEq, Eq, Structural)]
pub enum LengthUnit {
    /// No unit: user units.
    NoUnit,
    Em,
    Ex,
    Px,
    In,
    Cm,
    Mm,
    Pt,
    Pc,
    Percent,
}

/// The unit that `svgtypes::Length::from_str` reads from a text, when the
/// text is a length.
pub uninterp spec fn svg_length_unit(text: Seq<char>) -> Option<LengthUnit>;

/// Reads a `<length>` with `svgtypes::Length::from_str` and keeps its unit.
///
/// Trusted: the result is `svg_length_unit` of the text, that is, it depends
/// on the text alone. Nothing is claimed of the `<length>` grammar. The
/// number is left out; `svgtypes` only reads finite numbers.
#[verifier::external_body]
fn read_length_unit(text: &str) -> (r: Option<LengthUnit>)
    ensures
        r == svg_length_unit(text@),
{
    match text.parse::<svgtypes::Length>().map(|l| l.unit) {
        Ok(svgtypes::LengthUnit::None) => Some(LengthUnit::NoUnit),
        Ok(svgtypes::LengthUnit::Em) => Some(LengthUnit::Em),
        Ok(svgtypes::LengthUnit::Ex) => Some(LengthUnit::Ex),
        Ok(svgtypes::LengthUnit::Px) => Some(LengthUnit::Px),
        Ok(svgtypes::LengthUnit::In) => Some(LengthUnit::In),
        Ok(svgtypes::LengthUnit::Cm) => Some(LengthUnit::Cm),
        Ok(svgtypes::LengthUnit::Mm) => Some(LengthUnit::Mm),
        Ok(svgtypes::LengthUnit::Pt) => Some(LengthUnit::Pt),
        Ok(svgtypes::LengthUnit::Pc) => Some(LengthUnit::Pc),
        Ok(svgtypes::LengthUnit::Percent) => Some(LengthUnit::Percent),
        Err(_) => None,
    }
}

/// Whether a length read with the given unit (`None` when it is no length)
/// is in user units: without a unit, or in `px`.
pub fn is_user_unit(unit: Option<LengthUnit>) -> (r: bool)
    ensures
        r == (unit == Some(LengthUnit::NoUnit) || unit == Some(LengthUnit::Px)),
{
    match unit {
        Some(LengthUnit::NoUnit) | Some(LengthUnit::Px) => true,
        _ => false,
    }
}

/// A text that `svgtypes` reads as a length in user units.
pub open spec fn user_length(t: Seq<char>) -> bool {
    svg_length_unit(t) == Some(LengthUnit::NoUnit) || svg_length_unit(t) == Some(LengthUnit::Px)
}

fn user_length_text(t: &String) -> (r: bool)
    ensures
        r == user_length(t@),
{
    is_user_unit(read_length_unit(t.as_str()))
}

/// One CSS transform function, its numbers and angles as texts.
#[derive(Clone, Debug, PartialEq)]
pub enum CssTransform {
    /// `matrix(a, b, c, d, e, f)`: six numbers.
    Matrix(Vec<String>),
    /// `translate(tx [, ty])`: user-unit lengths as written.
    Translate(String, Option<String>),
    TranslateX(String),
    TranslateY(String),
    /// `scale(sx [, sy])`; `sy` defaults to `sx`.
    Scale(String, Option<String>),
    ScaleX(String),
    ScaleY(String),
    Rotate(CssAngle),
    SkewX(CssAngle),
    SkewY(CssAngle),
}

pub enum TransformView {
    Matrix(Seq<Seq<char>>),
    Translate(Seq<char>, Option<Seq<char>>),
    TranslateX(Seq<char>),
    TranslateY(Seq<char>),
    Scale(Seq<char>, Option<Seq<char>>),
    ScaleX(Seq<char>),
    ScaleY(Seq<char>),
    Rotate(AngleView),
    SkewX(AngleView),
    SkewY(AngleView),
}


impl View for CssTransform {
    type V = TransformView;

    open spec fn view(&self) -> TransformView {
        match self {
            CssTransform::Matrix(v) => TransformView::Matrix(texts_of(v@)),
            CssTransform::Translate(x, y) => TransformView::Translate(x@, opt_view(*y)),
            CssTransform::TranslateX(x) => TransformView::TranslateX(x@),
            CssTransform::TranslateY(y) => TransformView::TranslateY(y@),
            CssTransform::Scale(x, y) => TransformView::Scale(x@, opt_view(*y)),
            CssTransform::ScaleX(x) => TransformView::ScaleX(x@),
            CssTransform::ScaleY(y) => TransformView::ScaleY(y@),
            CssTransform::Rotate(a) => TransformView::Rotate(a@),
            CssTransform::SkewX(a) => TransformView::SkewX(a@),
            CssTransform::SkewY(a) => TransformView::SkewY(a@),
        }
    }
}

pub open spec fn transform_views(s: Seq<CssTransform>) -> Seq<TransformView> {
    s.map_values(|t: CssTransform| t@)
}

/// The arguments of a function: split at `,`, trimmed, blanks dropped.
pub open spec fn arguments_of(text: Seq<char>) -> Seq<Seq<char>> {
    nonblank_pieces(text, plain_scan(text, ',', 0, 0))
}

/// `None` past the end of the arguments.
pub open spec fn second(a: Seq<Seq<char>>) -> Option<Seq<char>> {
    if a.len() >= 2 {
        Some(a[1])
    } else {
        None
    }
}

/// An angle argument, with the panic of its unit lookup.
pub open spec fn angle_outcome(a: Seq<Seq<char>>) -> Outcome<AngleView> {
    if a.len() != 1 {
        Outcome::Invalid
    } else if angle_panics(a[0]) {
        Outcome::Panic
    } else {
        match angle_of(a[0]) {
            Some(v) => Outcome::Done(v),
            None => Outcome::Invalid,
        }
    }
}

/// The transform function `name(arguments)`. Function names match in any
/// case; `matrix` takes six numbers, `translate` and `scale` one or two
/// arguments, the others exactly one.
pub open spec fn function_of(name: Seq<char>, arguments: Seq<char>) -> Outcome<TransformView> {
    let a = arguments_of(arguments);
    if eq_ci(name, "matrix"@) {
        if a.len() == 6 && (forall|i: int| 0 <= i < 6 ==> f32_finite(trim(#[trigger] a[i]))) {
            Outcome::Done(TransformView::Matrix(a))
        } else {
            Outcome::Invalid
        }
    } else if eq_ci(name, "translate"@) {
        if 1 <= a.len() <= 2 && user_length(a[0]) && (a.len() == 1 || user_length(a[1])) {
            Outcome::Done(TransformView::Translate(a[0], second(a)))
        } else {
            Outcome::Invalid
        }
    } else if eq_ci(name, "translatex"@) {
        if a.len() == 1 && user_length(a[0]) {
            Outcome::Done(TransformView::TranslateX(a[0]))
        } else {
            Outcome::Invalid
        }
    } else if eq_ci(name, "translatey"@) {
        if a.len() == 1 && user_length(a[0]) {
            Outcome::Done(TransformView::TranslateY(a[0]))
        } else {
            Outcome::Invalid
        }
    } else if eq_ci(name, "scale"@) {
        if 1 <= a.len() <= 2 && f32_finite(trim(a[0])) && (a.len() == 1 || f32_finite(trim(a[1]))) {
            Outcome::Done(TransformView::Scale(a[0], second(a)))
        } else {
            Outcome::Invalid
        }
    } else if eq_ci(name, "scalex"@) {
        if a.len() == 1 && f32_finite(trim(a[0])) {
            Outcome::Done(TransformView::ScaleX(a[0]))
        } else {
            Outcome::Invalid
        }
    } else if eq_ci(name, "scaley"@) {
        if a.len() == 1 && f32_finite(trim(a[0])) {
            Outcome::Done(TransformView::ScaleY(a[0]))
        } else {
            Outcome::Invalid
        }
    } else if eq_ci(name, "rotate"@) {
        match angle_outcome(a) {
            Outcome::Done(v) => Outcome::Done(TransformView::Rotate(v)),
            Outcome::Invalid => Outcome::Invalid,
            Outcome::Panic => Outcome::Panic,
        }
    } else if eq_ci(name, "skewx"@) {
        match angle_outcome(a) {
            Outcome::Done(v) => Outcome::Done(TransformView::SkewX(v)),
            Outcome::Invalid => Outcome::Invalid,
            Outcome::Panic => Outcome::Panic,
        }
    } else if eq_ci(name, "skewy"@) {
        match angle_outcome(a) {
            Outcome::Done(v) => Outcome::Done(TransformView::SkewY(v)),
            Outcome::Invalid => Outcome::Invalid,
            Outcome::Panic => Outcome::Panic,
        }
    } else {
        Outcome::Invalid
    }
}

/// The index of the first `c` in `v` from `j`, or `v.len()`.
pub open spec fn find_from(v: Seq<char>, j: int, c: char) -> int
    decreases v.len() - j,
{
    if j < 0 || j >= v.len() {
        v.len() as int
    } else if v[j] == c {
        j
    } else {
        find_from(v, j + 1, c)
    }
}

pub proof fn lemma_find_from(v: Seq<char>, j: int, c: char)
    requires
        0 <= j <= v.len(),
    ensures
        j <= find_from(v, j, c) <= v.len(),
    decreases v.len() - j,
{
    if j < v.len() && v[j] != c {
        lemma_find_from(v, j + 1, c);
    }
}

/// The index of the first character from `j` on that is not whitespace.
pub open spec fn skip_ws(v: Seq<char>, j: int) -> int
    decreases v.len() - j,
{
    if j < 0 || j >= v.len() {
        j
    } else if is_ws(v[j]) {
        skip_ws(v, j + 1)
    } else {
        j
    }
}

pub proof fn lemma_skip_ws(v: Seq<char>, j: int)
    requires
        0 <= j <= v.len(),
    ensures
        j <= skip_ws(v, j) <= v.len(),
    decreases v.len() - j,
{
    if j < v.len() && is_ws(v[j]) {
        lemma_skip_ws(v, j + 1);
    }
}

/// `head` before the list that `o` gives, when it gives one.
pub open spec fn prepend<T>(head: Seq<T>, o: Outcome<Seq<T>>) -> Outcome<Seq<T>> {
    match o {
        Outcome::Done(t) => Outcome::Done(head + t),
        Outcome::Invalid => Outcome::Invalid,
        Outcome::Panic => Outcome::Panic,
    }
}

/// The functions of `v` from index `i` on: each a name, `(`, its arguments
/// and `)`, with whitespace skipped after each `)`.
pub open spec fn functions_from(v: Seq<char>, i: int) -> Outcome<Seq<TransformView>>
    decreases v.len() - i,
{
    if i < 0 || i >= v.len() {
        Outcome::Done(Seq::empty())
    } else {
        let open = find_from(v, i, '(');
        if open >= v.len() {
            Outcome::Invalid
        } else {
            let close = find_from(v, open + 1, ')');
            if close >= v.len() {
                Outcome::Invalid
            } else {
                match function_of(trim(v.subrange(i, open)), v.subrange(open + 1, close)) {
                    Outcome::Panic => Outcome::Panic,
                    Outcome::Invalid => Outcome::Invalid,
                    Outcome::Done(f) => {
                        proof {
                            lemma_find_from(v, i, '(');
                            lemma_find_from(v, open + 1, ')');
                            lemma_skip_ws(v, close + 1);
                        }
                        prepend(seq![f], functions_from(v, skip_ws(v, close + 1)))
                    },
                }
            }
        }
    }
}

/// A CSS `transform` value: `none`, or one or more transform functions.
pub open spec fn transforms_of(value: Seq<char>) -> Outcome<Seq<TransformView>> {
    let v = trim(value);
    if eq_ci(v, "none"@) {
        Outcome::Done(Seq::empty())
    } else {
        match functions_from(v, 0) {
            Outcome::Done(fs) => if fs.len() > 0 {
                Outcome::Done(fs)
            } else {
                Outcome::Invalid
            },
            Outcome::Invalid => Outcome::Invalid,
            Outcome::Panic => Outcome::Panic,
        }
    }
}

fn finite_texts(a: &Vec<String>) -> (r: bool)
    ensures
        r == forall|i: int| 0 <= i < a@.len() ==> f32_finite(trim(#[trigger] texts_of(a@)[i])),
{
    let mut i: usize = 0;
    while i < a.len()
        invariant
            0 <= i <= a@.len(),
            forall|j: int| 0 <= j < i ==> f32_finite(trim(#[trigger] texts_of(a@)[j])),
        decreases a.len() - i,
    {
        if !finite_text_exec(&a[i]) {
            assert(texts_of(a@)[i as int] == a@[i as int]@);
            return false;
        }
        assert(texts_of(a@)[i as int] == a@[i as int]@);
        i = i + 1;
    }
    true
}

fn finite_text_exec(t: &String) -> (r: bool)
    ensures
        r == f32_finite(trim(t@)),
{
    let cs = chars_of(t.as_str());
    let (a, b) = trim_bounds(cs.as_slice(), 0, cs.len());
    assert(cs@.subrange(0, cs@.len() as int) =~= cs@);
    is_finite_f32(cs.as_slice(), a, b)
}

fn angle_argument(a: &Vec<String>) -> (r: Option<CssAngle>)
    requires
        !(angle_outcome(texts_of(a@)) is Panic),
    ensures
        r is None <==> angle_outcome(texts_of(a@)) is Invalid,
        r matches Some(v) ==> angle_outcome(texts_of(a@)) == Outcome::Done(v@),
{
    if a.len() != 1 {
        return None;
    }
    assert(texts_of(a@)[0] == a@[0]@);
    parse_angle(a[0].as_str())
}

fn clone_text(t: &String) -> (r: String)
    ensures
        r@ == t@,
{
    let cs = chars_of(t.as_str());
    crate::text::string_of(cs.as_slice(), 0, cs.len())
}

/// Reads the transform function `name(arguments)`.
pub fn parse_transform_function(name: &str, arguments: &str) -> (r: Option<CssTransform>)
    requires
        !(function_of(name@, arguments@) is Panic),
    ensures
        r is None <==> function_of(name@, arguments@) is Invalid,
        r matches Some(f) ==> function_of(name@, arguments@) == Outcome::Done(f@),
{
    let args_chars = chars_of(arguments);
    let a = nonblank_items(args_chars.as_slice(), ',');
    let ghost av = texts_of(a@);
    assert(av == arguments_of(arguments@));
    let n = chars_of(name);
    assert(n@.subrange(0, n@.len() as int) =~= n@);
    let nl = n.len();
    let is = |kw: &str| -> (b: bool)
        ensures
            b == eq_ci(name@, kw@),
        { range_eq_ci_str(n.as_slice(), 0, nl, kw) };
    if a.len() >= 1 {
        assert(av[0] == a@[0]@);
    }
    if a.len() >= 2 {
        assert(av[1] == a@[1]@);
    }
    if is("matrix") {
        if a.len() == 6 && finite_texts(&a) {
            return Some(CssTransform::Matrix(a));
        }
        return None;
    }
    if is("translate") {
        if a.len() == 1 && user_length_text(&a[0]) {
            return Some(CssTransform::Translate(clone_text(&a[0]), None));
        } else if a.len() == 2 && user_length_text(&a[0]) && user_length_text(&a[1]) {
            return Some(CssTransform::Translate(clone_text(&a[0]), Some(clone_text(&a[1]))));
        }
        return None;
    }
    if is("translatex") {
        if a.len() == 1 && user_length_text(&a[0]) {
            return Some(CssTransform::TranslateX(clone_text(&a[0])));
        }
        return None;
    }
    if is("translatey") {
        if a.len() == 1 && user_length_text(&a[0]) {
            return Some(CssTransform::TranslateY(clone_text(&a[0])));
        }
        return None;
    }
    if is("scale") {
        if a.len() == 1 && finite_text_exec(&a[0]) {
            return Some(CssTransform::Scale(clone_text(&a[0]), None));
        } else if a.len() == 2 && finite_text_exec(&a[0]) && finite_text_exec(&a[1]) {
            return Some(CssTransform::Scale(clone_text(&a[0]), Some(clone_text(&a[1]))));
        }
        return None;
    }
    if is("scalex") {
        if a.len() == 1 && finite_text_exec(&a[0]) {
            return Some(CssTransform::ScaleX(clone_text(&a[0])));
        }
        return None;
    }
    if is("scaley") {
        if a.len() == 1 && finite_text_exec(&a[0]) {
            return Some(CssTransform::ScaleY(clone_text(&a[0])));
        }
        return None;
    }
    if is("rotate") {
        return match angle_argument(&a) {
            Some(v) => Some(CssTransform::Rotate(v)),
            None => None,
        };
    }
    if is("skewx") {
        return match angle_argument(&a) {
            Some(v) => Some(CssTransform::SkewX(v)),
            None => None,
        };
    }
    if is("skewy") {
        return match angle_argument(&a) {
            Some(v) => Some(CssTransform::SkewY(v)),
            None => None,
        };
    }
    None
}

fn find_char(v: &[char], j: usize, c: char) -> (r: usize)
    requires
        j <= v@.len(),
    ensures
        r as int == find_from(v@, j as int, c),
        j <= r <= v@.len(),
{
    let mut k = j;
    while k < v.len() && v[k] != c
        invariant
            j <= k <= v@.len(),
            find_from(v@, k as int, c) == find_from(v@, j as int, c),
        decreases v.len() - k,
    {
        k = k + 1;
    }
    k
}

fn skip_whitespace(v: &[char], j: usize) -> (r: usize)
    requires
        j <= v@.len(),
    ensures
        r as int == skip_ws(v@, j as int),
        j <= r <= v@.len(),
{
    let mut k = j;
    while k < v.len() && is_whitespace(v[k])
        invariant
            j <= k <= v@.len(),
            skip_ws(v@, k as int) == skip_ws(v@, j as int),
        decreases v.len() - k,
    {
        k = k + 1;
    }
    k
}

/// Reads a CSS `transform` value.
pub fn parse_transform_functions(value: &str) -> (r: Option<Vec<CssTransform>>)
    requires
        !(transforms_of(value@) is Panic),
    ensures
        r is None <==> transforms_of(value@) is Invalid,
        r matches Some(fs) ==> transforms_of(value@) == Outcome::Done(transform_views(fs@)),
{
    let all = chars_of(value);
    let (a, b) = trim_bounds(all.as_slice(), 0, all.len());
    assert(all@.subrange(0, all@.len() as int) =~= all@);
    let v = copy_range(all.as_slice(), a, b);
    if range_eq_ci_str(v.as_slice(), 0, v.len(), "none") {
        assert(v@.subrange(0, v@.len() as int) =~= v@);
        let out: Vec<CssTransform> = Vec::new();
        assert(transform_views(out@) =~= Seq::<TransformView>::empty());
        return Some(out);
    }
    assert(v@.subrange(0, v@.len() as int) =~= v@);
    let mut out: Vec<CssTransform> = Vec::new();
    let mut i: usize = 0;
    while i < v.len()
        invariant
            0 <= i <= v@.len(),
            !eq_ci(v@, "none"@),
            v@ == trim(value@),
            !(transforms_of(value@) is Panic),
            functions_from(v@, 0) == prepend(transform_views(out@), functions_from(v@, i as int)),
        decreases v.len() - i,
    {
        let ghost rest = functions_from(v@, i as int);
        let open = find_char(v.as_slice(), i, '(');
        if open >= v.len() {
            assert(prepend(transform_views(out@), rest) == Outcome::<Seq<TransformView>>::Invalid);
            return None;
        }
        let close = find_char(v.as_slice(), open + 1, ')');
        if close >= v.len() {
            assert(prepend(transform_views(out@), rest) == Outcome::<Seq<TransformView>>::Invalid);
            return None;
        }
        let (na, nb) = trim_bounds(v.as_slice(), i, open);
        let name = crate::text::string_of(v.as_slice(), na, nb);
        let arguments = crate::text::string_of(v.as_slice(), open + 1, close);
        let ghost fo = function_of(trim(v@.subrange(i as int, open as int)), v@.subrange(
            open + 1,
            close as int,
        ));
        assert(fo is Panic ==> rest is Panic);
        match parse_transform_function(name.as_str(), arguments.as_str()) {
            None => {
                assert(prepend(transform_views(out@), rest) == Outcome::<Seq<TransformView>>::Invalid);
                return None;
            },
            Some(f) => {
                let next = skip_whitespace(v.as_slice(), close + 1);
                let ghost before = transform_views(out@);
                let ghost fv = f@;
                out.push(f);
                assert(transform_views(out@) =~= before + seq![fv]);
                let ghost tail = functions_from(v@, next as int);
                assert(rest == prepend(seq![fv], tail));
                proof {
                    if tail is Done {
                        let t = tail->Done_0;
                        assert(before + (seq![fv] + t) =~= (before + seq![fv]) + t);
                    }
                }
                i = next;
            },
        }
    }
    assert(transform_views(out@) + Seq::<TransformView>::empty() =~= transform_views(out@));
    if out.len() == 0 {
        return None;
    }
    Some(out)
}

fn angle_panics_of(t: &String) -> (r: bool)
    ensures
        r == angle_panics(t@),
{
    let cs = chars_of(t.as_str());
    let (a, b) = trim_bounds(cs.as_slice(), 0, cs.len());
    assert(cs@.subrange(0, cs@.len() as int) =~= cs@);
    let v = copy_range(cs.as_slice(), a, b);
    let bl = utf8_len(v.as_slice());
    if bl >= 3 && !is_char_boundary(v.as_slice(), bl - 3) {
        return true;
    }
    assert(v@.subrange(0, v@.len() as int) =~= v@);
    let deg = range_ends_with_ci(v.as_slice(), 0, v.len(), "deg");
    !deg && bl >= 4 && !is_char_boundary(v.as_slice(), bl - 4)
}

/// Whether reading the function `name(arguments)` slices an angle's text
/// inside a character.
fn function_panics(name: &str, arguments: &str) -> (r: bool)
    ensures
        r == (function_of(name@, arguments@) is Panic),
{
    let args_chars = chars_of(arguments);
    let a = nonblank_items(args_chars.as_slice(), ',');
    let ghost av = texts_of(a@);
    assert(av == arguments_of(arguments@));
    let n = chars_of(name);
    assert(n@.subrange(0, n@.len() as int) =~= n@);
    let nl = n.len();
    if range_eq_ci_str(n.as_slice(), 0, nl, "matrix") || range_eq_ci_str(
        n.as_slice(),
        0,
        nl,
        "translate",
    ) || range_eq_ci_str(n.as_slice(), 0, nl, "translatex") || range_eq_ci_str(
        n.as_slice(),
        0,
        nl,
        "translatey",
    ) || range_eq_ci_str(n.as_slice(), 0, nl, "scale") || range_eq_ci_str(
        n.as_slice(),
        0,
        nl,
        "scalex",
    ) || range_eq_ci_str(n.as_slice(), 0, nl, "scaley") {
        return false;
    }
    let takes_angle = range_eq_ci_str(n.as_slice(), 0, nl, "rotate") || range_eq_ci_str(
        n.as_slice(),
        0,
        nl,
        "skewx",
    ) || range_eq_ci_str(n.as_slice(), 0, nl, "skewy");
    if !takes_angle || a.len() != 1 {
        return false;
    }
    assert(av[0] == a@[0]@);
    angle_panics_of(&a[0])
}

/// Whether reading `value` as a `transform` list slices an angle's text
/// inside a character, which `parse_transform_functions` leaves out.
pub fn transform_panics(value: &str) -> (r: bool)
    ensures
        r == (transforms_of(value@) is Panic),
{
    let all = chars_of(value);
    let (a, b) = trim_bounds(all.as_slice(), 0, all.len());
    assert(all@.subrange(0, all@.len() as int) =~= all@);
    let v = copy_range(all.as_slice(), a, b);
    assert(v@.subrange(0, v@.len() as int) =~= v@);
    if range_eq_ci_str(v.as_slice(), 0, v.len(), "none") {
        return false;
    }
    let mut i: usize = 0;
    while i < v.len()
        invariant
            0 <= i <= v@.len(),
            v@ == trim(value@),
            !eq_ci(v@, "none"@),
            (functions_from(v@, 0) is Panic) == (functions_from(v@, i as int) is Panic),
        decreases v.len() - i,
    {
        let open = find_char(v.as_slice(), i, '(');
        if open >= v.len() {
            return false;
        }
        let close = find_char(v.as_slice(), open + 1, ')');
        if close >= v.len() {
            return false;
        }
        let (na, nb) = trim_bounds(v.as_slice(), i, open);
        let name = crate::text::string_of(v.as_slice(), na, nb);
        let arguments = crate::text::string_of(v.as_slice(), open + 1, close);
        let ghost fo = function_of(trim(v@.subrange(i as int, open as int)), v@.subrange(
            open + 1,
            close as int,
        ));
        assert(fo is Panic ==> functions_from(v@, i as int) is Panic);
        if function_panics(name.as_str(), arguments.as_str()) {
            return true;
        }
        match parse_transform_function(name.as_str(), arguments.as_str()) {
            None => {
                return false;
            },
            Some(f) => {
                let next = skip_whitespace(v.as_slice(), close + 1);
                let ghost tail = functions_from(v@, next as int);
                assert(functions_from(v@, i as int) == prepend(seq![f@], tail));
                i = next;
            },
        }
    }
    false
}


/// The (lower-case) name of the transform function that gives each transform.
pub open spec fn transform_function_name(t: TransformView) -> Seq<char> {
    match t {
        TransformView::Matrix(_) => "matrix"@,
        TransformView::Translate(_, _) => "translate"@,
        TransformView::TranslateX(_) => "translatex"@,
        TransformView::TranslateY(_) => "translatey"@,
        TransformView::Scale(_, _) => "scale"@,
        TransformView::ScaleX(_) => "scalex"@,
        TransformView::ScaleY(_) => "scaley"@,
        TransformView::Rotate(_) => "rotate"@,
        TransformView::SkewX(_) => "skewx"@,
        TransformView::SkewY(_) => "skewy"@,
    }
}

/// Whether transform `t` carries the arguments `a` it was read from: all six
/// for `matrix`, the first and the optional second for `translate` and
/// `scale`, the single argument for the one-argument functions, and the
/// angle that the single argument reads as for `rotate` and the skews.
pub open spec fn carries_arguments(t: TransformView, a: Seq<Seq<char>>) -> bool {
    match t {
        TransformView::Matrix(m) => m == a && a.len() == 6,
        TransformView::Translate(x, y) => 1 <= a.len() <= 2 && x == a[0] && y == second(a),
        TransformView::Scale(x, y) => 1 <= a.len() <= 2 && x == a[0] && y == second(a),
        TransformView::TranslateX(x) => a.len() == 1 && x == a[0],
        TransformView::TranslateY(x) => a.len() == 1 && x == a[0],
        TransformView::ScaleX(x) => a.len() == 1 && x == a[0],
        TransformView::ScaleY(x) => a.len() == 1 && x == a[0],
        TransformView::Rotate(v) => a.len() == 1 && angle_of(a[0]) == Some(v),
        TransformView::SkewX(v) => a.len() == 1 && angle_of(a[0]) == Some(v),
        TransformView::SkewY(v) => a.len() == 1 && angle_of(a[0]) == Some(v),
    }
}

/// Law: a transform function reads as the transform that it names, in any
/// ASCII case (`scaleX(2)` as `ScaleX`, `translateY(..)` as `TranslateY`, ...),
/// carrying the arguments it was given.
pub proof fn lemma_function_names_transform(name: Seq<char>, arguments: Seq<char>)
    ensures
        function_of(name, arguments) matches Outcome::Done(t) ==> eq_ci(
            name,
            transform_function_name(t),
        ) && carries_arguments(t, arguments_of(arguments)),
{
}


/// The suffix that writes each angle unit; none for a bare number.
pub open spec fn angle_unit_suffix(u: AngleUnit) -> Seq<char> {
    match u {
        AngleUnit::Degrees => "deg"@,
        AngleUnit::Gradians => "grad"@,
        AngleUnit::Radians => "rad"@,
        AngleUnit::Turns => "turn"@,
        AngleUnit::Unitless => Seq::empty(),
    }
}

/// Law: an angle has the unit that its suffix writes (any case; `grad` is
/// gradians, not radians), and its number is the text before the suffix.
pub proof fn lemma_angle_units(value: Seq<char>)
    ensures
        angle_of(value) matches Some(a) ==> {
            let v = trim(value);
            let k = angle_unit_suffix(a.unit);
            &&& ends_with_ci(v, k)
            &&& finite_text(v.subrange(0, v.len() - k.len())) == Some(a.number)
            &&& a.unit == AngleUnit::Radians ==> !ends_with_ci(v, "grad"@)
            &&& a.unit == AngleUnit::Unitless ==> !ends_with_ci(v, "deg"@) && !ends_with_ci(
                v,
                "grad"@,
            ) && !ends_with_ci(v, "rad"@) && !ends_with_ci(v, "turn"@)
        },
{
    reveal_strlit("deg");
    reveal_strlit("grad");
    reveal_strlit("rad");
    reveal_strlit("turn");
    assert("deg"@.len() == 3);
    assert("grad"@.len() == 4);
    assert("rad"@.len() == 3);
    assert("turn"@.len() == 4);
    let v = trim(value);
    assert(v.subrange(v.len() as int, v.len() as int) =~= Seq::<char>::empty());
    assert(v.subrange(0, v.len() as int) =~= v);
    assert(eq_ci(v.subrange(v.len() as int, v.len() as int), Seq::<char>::empty()));
}

} // verus!
