//! Automatic unit scaling.

use statline::scale::{BinScale, Duration, DummyScale, Scaled};

#[test]
fn max_scale_smoke() {
    let scale = DummyScale(2);
    let scale = Scaled::new(2 * 3 * 4 * 5 * 6, scale).max_scale(10);
    assert_eq!(scale.render(), "12_5")
}

#[test]
fn max_scale_exhaust() {
    let scale = DummyScale(253);
    let scale = Scaled::new(254 * 255 * 256, scale).max_scale(10);
    assert_eq!(scale.render(), "256_255")
}

#[test]
fn max_scale_binary() {
    let s = Scaled::new(4 * 1024u64, BinScale::Ident).max_scale(2);
    assert_eq!(s.value, 4);
    assert_eq!(s.scale, BinScale::Kibi);
    assert_eq!(s.render(), "4ki");
}

#[test]
fn max_scale_binary_keeps_above_minimum() {
    let s = Scaled::new(2 * 1024 * 1024u64, BinScale::Ident).max_scale(2);
    // A second step to mebi would fall to 2, not above the minimum.
    assert_eq!(s.render(), "2048ki");
}

#[test]
fn max_scale_duration() {
    let s = Scaled::new(7_200u64, Duration::Second).max_scale(1);
    assert_eq!(s.value, 2);
    assert_eq!(s.scale, Duration::Hour);
    assert_eq!(s.render(), "2h");
}
