//! Keyword-valued presentation attributes: line caps and joins, fill rules,
//! `display` and `visibility`.

use vstd::prelude::*;
use crate::kinds::{AnimationVisibility, FillRule};
use crate::text::str_eq;

verus! {

broadcast use vstd::string::group_string_axioms;

/// A `stroke-linecap` value.
#[derive(Clone, Copy, Debug, PartialEq, Eq, Structural)]
pub enum LineCap {
    Butt,
    Round,
    Square,
}

/// A `stroke-linejoin` value.
#[derive(Clone, Copy, Debug, PartialEq, Eq, Structural)]
pub enum LineJoin {
    Miter,
    MiterClip,
    Round,
    Bevel,
}

pub open spec fn linecap_of(value: Seq<char>) -> Option<LineCap> {
    if value == "butt"@ {
        Some(LineCap::Butt)
    } else if value == "round"@ {
        Some(LineCap::Round)
    } else if value == "square"@ {
        Some(LineCap::Square)
    } else {
        None
    }
}

pub fn parse_linecap(value: &str) -> (r: Option<LineCap>)
    ensures
        r == linecap_of(value@),
{
    if str_eq(value, "butt") {
        Some(LineCap::Butt)
    } else if str_eq(value, "round") {
        Some(LineCap::Round)
    } else if str_eq(value, "square") {
        Some(LineCap::Square)
    } else {
        None
    }
}

pub open spec fn linejoin_of(value: Seq<char>) -> Option<LineJoin> {
    if value == "miter"@ {
        Some(LineJoin::Miter)
    } else if value == "miter-clip"@ {
        Some(LineJoin::MiterClip)
    } else if value == "round"@ {
        Some(LineJoin::Round)
    } else if value == "bevel"@ {
        Some(LineJoin::Bevel)
    } else {
        None
    }
}

pub fn parse_linejoin(value: &str) -> (r: Option<LineJoin>)
    ensures
        r == linejoin_of(value@),
{
    if str_eq(value, "miter") {
        Some(LineJoin::Miter)
    } else if str_eq(value, "miter-clip") {
        Some(LineJoin::MiterClip)
    } else if str_eq(value, "round") {
        Some(LineJoin::Round)
    } else if str_eq(value, "bevel") {
        Some(LineJoin::Bevel)
    } else {
        None
    }
}

pub open spec fn fill_rule_of(value: Seq<char>) -> Option<FillRule> {
    if value == "nonzero"@ {
        Some(FillRule::NonZero)
    } else if value == "evenodd"@ {
        Some(FillRule::EvenOdd)
    } else {
        None
    }
}

pub fn parse_fill_rule(value: &str) -> (r: Option<FillRule>)
    ensures
        r == fill_rule_of(value@),
{
    if str_eq(value, "nonzero") {
        Some(FillRule::NonZero)
    } else if str_eq(value, "evenodd") {
        Some(FillRule::EvenOdd)
    } else {
        None
    }
}

/// `display`: only `none` hides; `inherit` takes the inherited state.
pub open spec fn display_of(value: Seq<char>, inherited: bool) -> bool {
    if value == "none"@ {
        false
    } else if value == "inherit"@ {
        inherited
    } else {
        true
    }
}

/// Reads a `display` value as whether the element is shown.
pub fn parse_display(value: &str, inherited: bool) -> (r: bool)
    ensures
        r == display_of(value@, inherited),
{
    if str_eq(value, "none") {
        false
    } else if str_eq(value, "inherit") {
        inherited
    } else {
        true
    }
}

pub open spec fn visibility_of(value: Seq<char>, inherited: AnimationVisibility) -> Option<
    AnimationVisibility,
> {
    if value == "visible"@ {
        Some(AnimationVisibility::Visible)
    } else if value == "inherit"@ {
        Some(inherited)
    } else if value == "hidden"@ {
        Some(AnimationVisibility::Hidden)
    } else if value == "collapse"@ {
        Some(AnimationVisibility::Collapse)
    } else {
        None
    }
}

pub fn parse_visibility(value: &str, inherited: AnimationVisibility) -> (r: Option<
    AnimationVisibility,
>)
    ensures
        r == visibility_of(value@, inherited),
{
    if str_eq(value, "visible") {
        Some(AnimationVisibility::Visible)
    } else if str_eq(value, "inherit") {
        Some(inherited)
    } else if str_eq(value, "hidden") {
        Some(AnimationVisibility::Hidden)
    } else if str_eq(value, "collapse") {
        Some(AnimationVisibility::Collapse)
    } else {
        None
    }
}


/// The `stroke-linecap` keyword of each cap.
pub open spec fn linecap_keyword(c: LineCap) -> Seq<char> {
    match c {
        LineCap::Butt => "butt"@,
        LineCap::Round => "round"@,
        LineCap::Square => "square"@,
    }
}

/// The `stroke-linejoin` keyword of each join.
pub open spec fn linejoin_keyword(j: LineJoin) -> Seq<char> {
    match j {
        LineJoin::Miter => "miter"@,
        LineJoin::MiterClip => "miter-clip"@,
        LineJoin::Round => "round"@,
        LineJoin::Bevel => "bevel"@,
    }
}

/// The `fill-rule` keyword of each rule.
pub open spec fn fill_rule_keyword(r: FillRule) -> Seq<char> {
    match r {
        FillRule::NonZero => "nonzero"@,
        FillRule::EvenOdd => "evenodd"@,
    }
}

/// The `visibility` keyword of each state.
pub open spec fn visibility_keyword(v: AnimationVisibility) -> Seq<char> {
    match v {
        AnimationVisibility::Visible => "visible"@,
        AnimationVisibility::Hidden => "hidden"@,
        AnimationVisibility::Collapse => "collapse"@,
    }
}

/// Law: the keywords of `stroke-linecap`, `stroke-linejoin` and `fill-rule`
/// read as the values of the same name, and a value is read only from its own
/// keyword (so distinct keywords give distinct values).
pub proof fn lemma_stroke_keywords(value: Seq<char>, c: LineCap, j: LineJoin, r: FillRule)
    ensures
        linecap_of(linecap_keyword(c)) == Some(c),
        linecap_of(value) matches Some(x) ==> value == linecap_keyword(x),
        linejoin_of(linejoin_keyword(j)) == Some(j),
        linejoin_of(value) matches Some(x) ==> value == linejoin_keyword(x),
        fill_rule_of(fill_rule_keyword(r)) == Some(r),
        fill_rule_of(value) matches Some(x) ==> value == fill_rule_keyword(x),
{
    reveal_strlit("butt");
    reveal_strlit("round");
    reveal_strlit("square");
    reveal_strlit("miter");
    reveal_strlit("miter-clip");
    reveal_strlit("bevel");
    reveal_strlit("nonzero");
    reveal_strlit("evenodd");
    assert("butt"@.len() == 4);
    assert("round"@.len() == 5);
    assert("square"@.len() == 6);
    assert("miter"@.len() == 5);
    assert("miter-clip"@.len() == 10);
    assert("bevel"@.len() == 5);
    assert("nonzero"@.len() == 7);
    assert("evenodd"@.len() == 7);
    assert("round"@[0] != "miter"@[0]);
    assert("bevel"@[0] != "miter"@[0] && "bevel"@[0] != "round"@[0]);
    assert("evenodd"@[0] != "nonzero"@[0]);
}

/// Law: `display` hides only for `none` and follows the inherited state only
/// for `inherit`; a `visibility` keyword reads as the state of the same name,
/// `inherit` as the inherited state, and nothing else reads at all.
pub proof fn lemma_display_and_visibility_keywords(
    value: Seq<char>,
    inherited: bool,
    inherited_visibility: AnimationVisibility,
    v: AnimationVisibility,
)
    ensures
        !display_of(value, inherited) <==> (value == "none"@ || (value == "inherit"@
            && !inherited)),
        visibility_of(visibility_keyword(v), inherited_visibility) == Some(v),
        visibility_of(value, inherited_visibility) is Some <==> (value == "inherit"@ || exists|
            k: AnimationVisibility,
        | value == #[trigger] visibility_keyword(k)),
        visibility_of(value, inherited_visibility) matches Some(x) ==> (value == "inherit"@
            || value == visibility_keyword(x)),
{
    reveal_strlit("none");
    reveal_strlit("inherit");
    reveal_strlit("visible");
    reveal_strlit("hidden");
    reveal_strlit("collapse");
    assert("none"@.len() == 4);
    assert("inherit"@.len() == 7);
    assert("visible"@.len() == 7);
    assert("hidden"@.len() == 6);
    assert("collapse"@.len() == 8);
    assert("visible"@[0] != "inherit"@[0]);
    if value == "visible"@ {
        assert(value == visibility_keyword(AnimationVisibility::Visible));
    } else if value == "hidden"@ {
        assert(value == visibility_keyword(AnimationVisibility::Hidden));
    } else if value == "collapse"@ {
        assert(value == visibility_keyword(AnimationVisibility::Collapse));
    }
}

} // verus!
