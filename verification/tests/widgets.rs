use hyprbar::battery::{self, Battery};
use hyprbar::shared_widget::{spacer, CrossfadeIn, RevealStep};

#[test]
fn battery_label_shows_icon_marker_and_percent() {
    assert_eq!(Battery::fmt(Some(55), Some(b"Discharging\n".to_vec())), "\u{f007e}  55");
    assert_eq!(Battery::fmt(Some(55), Some(b"Charging\n".to_vec())), "\u{f007e}\u{f140b} 55");
    assert_eq!(Battery::fmt(Some(7), None), "\u{f008e}  7");
    assert_eq!(Battery::fmt(Some(100), None), "\u{f0083}  100");
    assert_eq!(Battery::fmt(None, Some(b"Charging".to_vec())), "");
}

#[test]
fn charging_needs_the_exact_trimmed_status() {
    assert_eq!(Battery::fmt(Some(20), Some(b"  Charging  ".to_vec())), "\u{f007b}\u{f140b} 20");
    assert_eq!(Battery::fmt(Some(20), Some(b"charging".to_vec())), "\u{f007b}  20");
    assert_eq!(Battery::fmt(Some(20), Some(b"".to_vec())), "\u{f007b}  20");
}

#[test]
fn battery_exists_only_with_all_three_files() {
    assert!(Battery::has(true, true, true));
    assert!(!Battery::has(true, true, false));
    assert!(battery::new(false, Some(10), None).is_none());
    let b = battery::new(true, Some(10), None).unwrap();
    assert_eq!(b.label, "\u{f007a}  10");
}

#[test]
fn crossfade_in_runs_its_two_stages_in_order() {
    let mut c = CrossfadeIn::new(600);
    assert!(!c.revealed());
    let steps = c.transition(true);
    assert_eq!(
        steps,
        vec![RevealStep::Slide(true), RevealStep::Wait(100), RevealStep::Crossfade(true)]
    );
    assert!(c.revealed());
    let steps = c.transition(false);
    assert_eq!(
        steps,
        vec![RevealStep::Crossfade(false), RevealStep::Wait(300), RevealStep::Slide(false)]
    );
    assert!(!c.revealed());
}

#[test]
fn spacer_splits_its_width_between_both_margins() {
    let s = spacer(15);
    assert_eq!(s.margin_start, 7);
    assert_eq!(s.margin_end, 7);
    let s = spacer(0);
    assert_eq!(s.margin_start, 0);
    assert_eq!(s.margin_end, 0);
}
