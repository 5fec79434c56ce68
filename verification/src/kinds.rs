//! The keyword-valued parts of the animation model.

use vstd::prelude::*;
use crate::text::str_eq;

verus! {

broadcast use vstd::string::group_string_axioms;

/// The source of an animation — SMIL or CSS.
#[derive(Clone, Copy, Debug, PartialEq, Eq, Structural)]
pub enum AnimationSource {
    /// A SMIL animation element (`<animate>`, `<animateTransform>`, etc.).
    Smil,
    /// A CSS `@keyframes` animation.
    Css,
}

/// Whether an animation adds to or replaces the underlying value.
#[derive(Clone, Copy, Debug, PartialEq, Eq, Structural)]
pub enum Additive {
    /// The animation value replaces the underlying value.
    Replace,
    /// The animation value is added to the underlying value.
    Sum,
}

/// Whether an animation accumulates across iterations.
#[derive(Clone, Copy, Debug, PartialEq, Eq, Structural)]
pub enum Accumulate {
    /// No accumulation (`accumulate="none"`).
    NoAccumulate,
    /// Accumulate across iterations.
    Sum,
}

/// The visibility value for animation.
#[derive(Clone, Copy, Debug, PartialEq, Eq, Structural)]
pub enum AnimationVisibility {
    /// The element is visible.
    Visible,
    /// The element is hidden.
    Hidden,
    /// The element is collapsed.
    Collapse,
}

/// The animated component of a gradient's geometry.
///
/// The component is retained alongside resolved user-unit keyframes so renderers
/// never infer it from matching scalar values.
#[derive(Clone, Copy, Debug, PartialEq, Eq, Structural)]
pub enum GradientGeometryComponent {
    /// A linear gradient's `x1` endpoint.
    LinearX1,
    /// A linear gradient's `y1` endpoint.
    LinearY1,
    /// A linear gradient's `x2` endpoint.
    LinearX2,
    /// A linear gradient's `y2` endpoint.
    LinearY2,
    /// A radial gradient's center x coordinate.
    RadialCx,
    /// A radial gradient's center y coordinate.
    RadialCy,
    /// A radial gradient's radius.
    RadialR,
    /// A radial gradient's focal x coordinate.
    RadialFx,
    /// A radial gradient's focal y coordinate.
    RadialFy,
    /// A radial gradient's focal radius.
    RadialFr,
}

/// The gradient geometry component an attribute name animates.
pub open spec fn gradient_component_of(name: Seq<char>) -> Option<GradientGeometryComponent> {
    if name == "x1"@ {
        Some(GradientGeometryComponent::LinearX1)
    } else if name == "y1"@ {
        Some(GradientGeometryComponent::LinearY1)
    } else if name == "x2"@ {
        Some(GradientGeometryComponent::LinearX2)
    } else if name == "y2"@ {
        Some(GradientGeometryComponent::LinearY2)
    } else if name == "cx"@ {
        Some(GradientGeometryComponent::RadialCx)
    } else if name == "cy"@ {
        Some(GradientGeometryComponent::RadialCy)
    } else if name == "r"@ {
        Some(GradientGeometryComponent::RadialR)
    } else if name == "fx"@ {
        Some(GradientGeometryComponent::RadialFx)
    } else if name == "fy"@ {
        Some(GradientGeometryComponent::RadialFy)
    } else if name == "fr"@ {
        Some(GradientGeometryComponent::RadialFr)
    } else {
        None
    }
}

impl GradientGeometryComponent {
    /// The component an attribute name animates, if it is a gradient geometry attribute.
    pub fn from_attribute_name(name: &str) -> (r: Option<Self>)
        ensures
            r == gradient_component_of(name@),
    {
        if str_eq(name, "x1") {
            Some(Self::LinearX1)
        } else if str_eq(name, "y1") {
            Some(Self::LinearY1)
        } else if str_eq(name, "x2") {
            Some(Self::LinearX2)
        } else if str_eq(name, "y2") {
            Some(Self::LinearY2)
        } else if str_eq(name, "cx") {
            Some(Self::RadialCx)
        } else if str_eq(name, "cy") {
            Some(Self::RadialCy)
        } else if str_eq(name, "r") {
            Some(Self::RadialR)
        } else if str_eq(name, "fx") {
            Some(Self::RadialFx)
        } else if str_eq(name, "fy") {
            Some(Self::RadialFy)
        } else if str_eq(name, "fr") {
            Some(Self::RadialFr)
        } else {
            None
        }
    }
}

/// The step position for `steps()` easing.
#[derive(Clone, Copy, Debug, PartialEq, Eq, Structural)]
pub enum StepPosition {
    /// `jump-start` / `start`.
    JumpStart,
    /// `jump-end` / `end`.
    JumpEnd,
    /// `jump-none`.
    JumpNone,
    /// `jump-both`.
    JumpBoth,
}

/// The calculation mode for SMIL animations.
#[derive(Clone, Copy, Debug, PartialEq, Eq, Structural)]
pub enum CalcMode {
    /// Linear interpolation.
    Linear,
    /// Discrete stepping.
    Discrete,
    /// Paced (arc-length) interpolation.
    Paced,
    /// Cubic spline interpolation.
    Spline,
}

/// The direction applied to each iteration.
#[derive(Clone, Copy, Debug, PartialEq, Eq, Structural)]
pub enum Direction {
    /// Normal direction.
    Normal,
    /// Reverse direction.
    Reverse,
    /// Alternate direction.
    Alternate,
    /// Alternate-reverse direction.
    AlternateReverse,
}

/// The fill behavior of a SMIL animation.
#[derive(Clone, Copy, Debug, PartialEq, Eq, Structural)]
pub enum SmilFill {
    /// Hold the final value after the animation ends.
    Freeze,
    /// Remove the animation effect after it ends.
    Remove,
}

/// The restart behavior of a SMIL animation.
#[derive(Clone, Copy, Debug, PartialEq, Eq, Structural)]
pub enum Restart {
    /// Always restart.
    Always,
    /// Never restart.
    Never,
    /// Restart only when not active.
    WhenNotActive,
}

/// The fill mode of a CSS animation.
#[derive(Clone, Copy, Debug, PartialEq, Eq, Structural)]
pub enum CssFillMode {
    /// No fill (`animation-fill-mode: none`).
    NoFill,
    /// Hold the final value after the animation ends.
    Forwards,
    /// Apply the first keyframe before the animation starts.
    Backwards,
    /// Both forwards and backwards.
    Both,
}

/// The play state of a CSS animation.
#[derive(Clone, Copy, Debug, PartialEq, Eq, Structural)]
pub enum PlayState {
    /// The animation is running.
    Running,
    /// The animation is paused.
    Paused,
}

/// The kind of a SMIL transform animation.
#[derive(Clone, Copy, Debug, PartialEq, Eq, Structural)]
pub enum TransformKind {
    /// `translate(tx [ty])`.
    Translate,
    /// `scale(sx [sy])`.
    Scale,
    /// `rotate(angle [cx cy])`.
    Rotate,
    /// `skewX(angle)`.
    SkewX,
    /// `skewY(angle)`.
    SkewY,
}

/// The transform box for CSS animations.
#[derive(Clone, Copy, Debug, PartialEq, Eq, Structural)]
pub enum TransformBox {
    /// `content-box`.
    ContentBox,
    /// `border-box`.
    BorderBox,
    /// `fill-box`.
    FillBox,
    /// `stroke-box`.
    StrokeBox,
    /// `view-box`.
    ViewBox,
}

/// A fill rule.
#[derive(Clone, Copy, Debug, PartialEq, Eq, Structural)]
pub enum FillRule {
    /// `nonzero`.
    NonZero,
    /// `evenodd`.
    EvenOdd,
}


/// The attribute that names each gradient geometry component.
pub open spec fn gradient_attribute(c: GradientGeometryComponent) -> Seq<char> {
    match c {
        GradientGeometryComponent::LinearX1 => "x1"@,
        GradientGeometryComponent::LinearY1 => "y1"@,
        GradientGeometryComponent::LinearX2 => "x2"@,
        GradientGeometryComponent::LinearY2 => "y2"@,
        GradientGeometryComponent::RadialCx => "cx"@,
        GradientGeometryComponent::RadialCy => "cy"@,
        GradientGeometryComponent::RadialR => "r"@,
        GradientGeometryComponent::RadialFx => "fx"@,
        GradientGeometryComponent::RadialFy => "fy"@,
        GradientGeometryComponent::RadialFr => "fr"@,
    }
}

/// Law: each gradient geometry attribute animates the component of the same
/// name, and a component is animated only by its own attribute (so distinct
/// attributes animate distinct components).
pub proof fn lemma_gradient_components(name: Seq<char>, c: GradientGeometryComponent)
    ensures
        gradient_component_of(gradient_attribute(c)) == Some(c),
        gradient_component_of(name) matches Some(x) ==> name == gradient_attribute(x),
{
    reveal_strlit("x1");
    reveal_strlit("y1");
    reveal_strlit("x2");
    reveal_strlit("y2");
    reveal_strlit("cx");
    reveal_strlit("cy");
    reveal_strlit("r");
    reveal_strlit("fx");
    reveal_strlit("fy");
    reveal_strlit("fr");
    assert("x1"@.len() == 2 && "x1"@[0] == 'x' && "x1"@[1] == '1');
    assert("y1"@.len() == 2 && "y1"@[0] == 'y' && "y1"@[1] == '1');
    assert("x2"@.len() == 2 && "x2"@[0] == 'x' && "x2"@[1] == '2');
    assert("y2"@.len() == 2 && "y2"@[0] == 'y' && "y2"@[1] == '2');
    assert("cx"@.len() == 2 && "cx"@[0] == 'c' && "cx"@[1] == 'x');
    assert("cy"@.len() == 2 && "cy"@[0] == 'c' && "cy"@[1] == 'y');
    assert("r"@.len() == 1 && "r"@[0] == 'r');
    assert("fx"@.len() == 2 && "fx"@[0] == 'f' && "fx"@[1] == 'x');
    assert("fy"@.len() == 2 && "fy"@[0] == 'f' && "fy"@[1] == 'y');
    assert("fr"@.len() == 2 && "fr"@[0] == 'f' && "fr"@[1] == 'r');
}

} // verus!
