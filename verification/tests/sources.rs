//! The staleness combinators, driven with explicit instants.

use statline::clock::Instant;
use statline::fixed::Fixed;
use statline::source::{Gated, LowerRate, MovingAverage, Source, Updateable, WantsProcessing};

/// A stand-in for pi, in millionths.
const PI_MICROS: i64 = 3_141_593;

fn pi() -> Fixed {
    Fixed::from_micros(PI_MICROS)
}

fn at(millis: u64) -> Instant {
    Instant::from_millis(millis)
}

#[test]
fn moving_average_no_update() {
    let avg = MovingAverage::new(5_000);
    assert_eq!(avg.value(), None);
}

#[test]
fn moving_average_single_update() {
    let mut avg = MovingAverage::new(5_000);
    avg.update(pi(), at(0));
    assert_eq!(avg.value(), Some(pi()));
}

#[test]
fn moving_average_early_update() {
    let mut avg = MovingAverage::new(300_000);
    avg.update(pi(), at(0));
    avg.update(Fixed::from_micros(0), at(5_000));
    assert_eq!(avg.value(), Some(pi()));
}

#[test]
fn moving_average_late_update() {
    let mut avg = MovingAverage::new(300_000);
    avg.update(pi(), at(0));
    avg.update(Fixed::from_micros(0), at(600_000));
    assert_eq!(avg.value(), Some(Fixed::from_micros(0)));
}

#[test]
fn moving_average_timely_update() {
    let mut avg = MovingAverage::new(300_000);
    avg.update(pi(), at(0));
    avg.update(Fixed::from_micros(0), at(60_000));
    let value = avg.value().expect("No average availible");
    assert!(value.as_micros() > 0);
    assert!(value.as_micros() < PI_MICROS);
}

#[test]
fn moving_average_timely_update_exact() {
    let mut avg = MovingAverage::new(300_000);
    avg.update(pi(), at(0));
    avg.update(Fixed::from_micros(0), at(60_000));
    // 60s of 300s moves a fifth of the way from pi towards zero.
    assert_eq!(
        avg.value(),
        Some(Fixed::from_micros(PI_MICROS * 4 / 5))
    );
}

#[test]
fn moving_average_retain_valid() {
    let mut avg = MovingAverage::new(300_000);
    avg.update(pi(), at(0));
    avg.update_invalid(at(60_000));
    assert_eq!(avg.value(), Some(pi()));
}

#[test]
fn moving_average_flush_valid() {
    let mut avg = MovingAverage::new(300_000);
    avg.update(pi(), at(0));
    avg.update_invalid(at(600_000));
    assert_eq!(avg.value(), None);
}

#[test]
fn moving_average_invalid_at_span_edge() {
    let mut avg = MovingAverage::new(300_000);
    avg.update(pi(), at(0));
    // Exactly one span old: still kept; one millisecond more: cleared.
    avg.update_invalid(at(300_000));
    assert_eq!(avg.value(), Some(pi()));
    avg.update_invalid(at(300_001));
    assert_eq!(avg.value(), None);
}

#[test]
fn moving_average_gate_follows_min_step() {
    let mut avg = MovingAverage::new(300_000);
    assert!(avg.wants_processing(at(0)));
    avg.update(pi(), at(0));
    // A fiftieth of the span is six seconds.
    assert!(!avg.wants_processing(at(5_999)));
    assert!(avg.wants_processing(at(6_000)));
}

#[test]
fn lower_rate_serves_every_update() {
    let mut source: LowerRate<Fixed> = LowerRate::new(5_000);
    assert_eq!(source.value(), None);
    source.update(Fixed::from_micros(420_000), at(0));
    assert_eq!(source.value(), Some(Fixed::from_micros(420_000)));
    source.update(Fixed::from_micros(990_000), at(1));
    assert_eq!(source.value(), Some(Fixed::from_micros(990_000)));
    source.update_invalid(at(2));
    assert_eq!(source.value(), None);
}

#[test]
fn lower_rate_gate_boundaries() {
    let mut source: LowerRate<Fixed> = LowerRate::new(5_000);
    assert!(source.wants_processing(at(0)));
    source.update(Fixed::from_micros(420_000), at(1_000));
    assert!(!source.wants_processing(at(1_001)));
    assert!(!source.wants_processing(at(5_999)));
    assert!(source.wants_processing(at(6_000)));
    assert!(source.wants_processing(at(7_000)));
}

#[test]
fn gated_suspends_polling_only() {
    let inner = MovingAverage::new(60_000);
    let mut gated = Gated::new(inner, false);
    assert!(!gated.wants_processing(at(0)));
    gated.set_condition(true);
    assert!(gated.wants_processing(at(0)));
    gated.update(Fixed::from_micros(100), at(0));
    assert_eq!(gated.value(), Some(Fixed::from_micros(100)));
    gated.set_condition(false);
    // Updates still pass through while its gate is closed.
    assert!(!gated.wants_processing(at(10_000)));
    assert_eq!(gated.value(), Some(Fixed::from_micros(100)));
}
