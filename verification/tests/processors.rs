//! Buffer processors on concrete file contents.

use statline::clock::Instant;
use statline::decode::SplitKind;
use statline::fixed::Fixed;
use statline::read::{BufProcessor, Simple, PSI};
use statline::source::Source;

fn t0() -> Instant {
    Instant::from_millis(0)
}

#[test]
fn simple_single() {
    let mut processor = Simple::<Option<u64>>::new_default(SplitKind::Whitespace);
    processor.process(b"123", t0());
    assert_eq!(processor.value(), Some(123));
}

#[test]
fn simple_multiple() {
    let mut processor = Simple::<Option<u64>>::new_default(SplitKind::Whitespace);
    processor.process(b"123 456", t0());
    assert_eq!(processor.value(), Some(123));
}

#[test]
fn simple_invalid_single() {
    let mut processor = Simple::<Option<u64>>::new_default(SplitKind::Whitespace);
    processor.process(b"foo", t0());
    assert_eq!(processor.value(), None);
}

#[test]
fn simple_invalid_multiple() {
    let mut processor = Simple::<Option<u64>>::new_default(SplitKind::Whitespace);
    processor.process(b"foo 123", t0());
    assert_eq!(processor.value(), None);
}

#[test]
fn simple_leading_whitespace() {
    let mut processor = Simple::<Option<u64>>::new_default(SplitKind::Whitespace);
    processor.process(b"   42\n", t0());
    assert_eq!(processor.value(), Some(42));
}

#[test]
fn simple_invalid_clears_previous() {
    let mut processor = Simple::<Option<u64>>::new_default(SplitKind::Whitespace);
    processor.process(b"123", t0());
    processor.process(b"", Instant::from_millis(1));
    assert_eq!(processor.value(), None);
}

#[test]
fn simple_control_split_keeps_spaces() {
    let mut processor = Simple::<Option<Fixed>>::new_default(SplitKind::Control);
    // Splitting at control bytes only, the token keeps inner spaces and
    // fails to decode; splitting at whitespace it would succeed.
    processor.process(b"1 2\n", t0());
    assert_eq!(processor.value(), None);
}

#[test]
fn psi_smoke() {
    let buf = "some avg10=1.23 avg60=4.56 avg300=7.89 total=123456\nfull avg10=2.34 avg60=5.67 avg300=8.90 total=789123\n";
    let mut processor = PSI::from(None::<Fixed>);
    processor.process(buf.as_ref(), t0());
    assert_eq!(processor.value(), Some(Fixed::from_micros(1_230_000)));
}

#[test]
fn psi_skips_other_records() {
    let buf = "full avg10=2.34 avg60=5.67 avg300=8.90 total=789123\nsome avg60=4.56 avg10=0.07 total=123456\n";
    let mut processor = PSI::from(None::<Fixed>);
    processor.process(buf.as_ref(), t0());
    assert_eq!(processor.value(), Some(Fixed::from_micros(70_000)));
}

#[test]
fn psi_without_average_invalidates() {
    let mut processor = PSI::from(Some(Fixed::from_micros(1)));
    processor.process(b"full avg10=2.34\n", t0());
    assert_eq!(processor.value(), None);
}
