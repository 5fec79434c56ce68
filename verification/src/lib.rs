//! Parsing and classification logic for SVG/CSS animation declarations.

pub mod text;
pub mod digits;
pub mod number;
pub mod scanner;
pub mod shorthand;
pub mod kinds;
pub mod carriers;
pub mod declarations;
pub mod keyframes;
pub mod metadata;
pub mod forms;
pub mod warnings;
pub mod paint;
pub mod presentation;
pub mod smil_values;
pub mod smil;
pub mod css_plan;
pub mod order;
pub mod elements;
pub mod css_values;
pub mod clock;
pub mod syncbase;
pub mod routing;
pub mod durations;
pub mod easing;
pub mod motion;
pub mod css_transform;
