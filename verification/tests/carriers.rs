use usvg_animation::carriers::{FillCarrierState, PathCarrierState};
use usvg_animation::kinds::FillRule;

#[test]
fn fill_carrier_keeps_rule_through_clone() {
    let state = FillCarrierState::new(false, Some(String::from("red")), 0.5f32, FillRule::EvenOdd);
    assert_eq!(state.rule(), FillRule::EvenOdd);
    let copy = state.clone();
    assert_eq!(copy.rule(), state.rule());
    assert!(!copy.underlying_disabled());
    assert_eq!(copy.opacity(), 0.5f32);
    assert_eq!(copy.paint(), Some(&String::from("red")));
}

#[test]
fn fill_carrier_without_paint() {
    let state: FillCarrierState<String, f32> =
        FillCarrierState::new(true, None, 1.0f32, FillRule::NonZero);
    assert!(state.underlying_disabled());
    assert!(state.paint().is_none());
    assert!(state.clone().paint().is_none());
    assert_eq!(state.clone().rule(), FillRule::NonZero);
}

#[test]
fn path_carrier_flag() {
    assert!(PathCarrierState::new(true).underlying_renderable());
    assert!(!PathCarrierState::new(false).underlying_renderable());
}
