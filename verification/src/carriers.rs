//! Static state that an animated node carries next to its animations.

use vstd::prelude::*;
use crate::kinds::FillRule;

verus! {

/// The carrier state for a path animation on a node.
#[derive(Clone, Copy, Debug)]
pub struct PathCarrierState {
    pub underlying_renderable: bool,
}

impl PathCarrierState {
    /// Creates a new `PathCarrierState`.
    pub fn new(underlying_renderable: bool) -> (r: Self)
        ensures
            r.underlying_renderable == underlying_renderable,
    {
        Self { underlying_renderable }
    }

    /// Whether the static geometry, before any animation, was renderable.
    pub fn underlying_renderable(&self) -> (r: bool)
        ensures
            r == self.underlying_renderable,
    {
        self.underlying_renderable
    }
}

/// The carrier state for a fill animation on a node.
///
/// `P` is the resolved paint and `O` the opacity representation of the
/// document model that hosts the animation.
#[derive(Debug)]
pub struct FillCarrierState<P, O> {
    pub underlying_disabled: bool,
    pub paint: Option<P>,
    pub opacity: O,
    pub rule: FillRule,
}

impl<P, O: Copy> FillCarrierState<P, O> {
    /// Creates a new `FillCarrierState`.
    pub fn new(underlying_disabled: bool, paint: Option<P>, opacity: O, rule: FillRule) -> (r:
        Self)
        ensures
            r.underlying_disabled == underlying_disabled,
            r.paint == paint,
            r.opacity == opacity,
            r.rule == rule,
    {
        Self { underlying_disabled, paint, opacity, rule }
    }

    /// Whether the static fill was `none` or absent.
    pub fn underlying_disabled(&self) -> (r: bool)
        ensures
            r == self.underlying_disabled,
    {
        self.underlying_disabled
    }

    /// The pre-resolved underlying fill paint, if any.
    pub fn paint(&self) -> (r: Option<&P>)
        ensures
            r == match self.paint {
                Some(p) => Some(&p),
                None => None::<&P>,
            },
    {
        self.paint.as_ref()
    }

    /// The underlying fill opacity.
    pub fn opacity(&self) -> (r: O)
        ensures
            r == self.opacity,
    {
        self.opacity
    }

    /// The underlying fill rule.
    pub fn rule(&self) -> (r: FillRule)
        ensures
            r == self.rule,
    {
        self.rule
    }
}


impl<P: Clone, O: Copy> Clone for FillCarrierState<P, O> {
    /// A copy that keeps the flag, the opacity and the rule, and holds what
    /// the paint's own `clone` gives.
    fn clone(&self) -> (r: Self)
        ensures
            r.underlying_disabled == self.underlying_disabled,
            r.opacity == self.opacity,
            r.rule == self.rule,
            r.paint is Some <==> self.paint is Some,
            self.paint matches Some(p) ==> cloned::<P>(p, r.paint->Some_0),
    {
        let paint = match &self.paint {
            Some(p) => Some(p.clone()),
            None => None,
        };
        FillCarrierState {
            underlying_disabled: self.underlying_disabled,
            paint,
            opacity: self.opacity,
            rule: self.rule,
        }
    }
}

} // verus!
