//! Number and word decoding, and the tick-driver decisions.

use statline::decode::{first_token, parse_u64, trim, FromBytes, SplitKind};
use statline::fixed::Fixed;
use statline::power::{Kind, Status};
use statline::tick::{arm_outcome, tick_schedule, wait_outcome, ArmStep, WaitStep};

#[test]
fn parse_u64_values() {
    assert_eq!(parse_u64(b"0"), Some(0));
    assert_eq!(parse_u64(b"123"), Some(123));
    assert_eq!(parse_u64(b"18446744073709551615"), Some(u64::MAX));
}

#[test]
fn parse_u64_rejects() {
    assert_eq!(parse_u64(b""), None);
    assert_eq!(parse_u64(b"12a"), None);
    assert_eq!(parse_u64(b"-1"), None);
    assert_eq!(parse_u64(b"18446744073709551616"), None);
    assert_eq!(parse_u64(b"99999999999999999999999999"), None);
}

#[test]
fn parse_fixed_values() {
    assert_eq!(Fixed::parse(b"0"), Some(Fixed::from_micros(0)));
    assert_eq!(Fixed::parse(b"0.42"), Some(Fixed::from_micros(420_000)));
    assert_eq!(Fixed::parse(b"1.23"), Some(Fixed::from_micros(1_230_000)));
    assert_eq!(Fixed::parse(b"-1.5"), Some(Fixed::from_micros(-1_500_000)));
    assert_eq!(Fixed::parse(b"12345"), Some(Fixed::from_micros(12_345_000_000)));
    // The seventh fractional digit is cut off.
    assert_eq!(Fixed::parse(b"0.1234567"), Some(Fixed::from_micros(123_456)));
    assert_eq!(Fixed::parse(b"3.141593"), Some(Fixed::from_micros(3_141_593)));
}

#[test]
fn parse_fixed_rejects() {
    assert_eq!(Fixed::parse(b""), None);
    assert_eq!(Fixed::parse(b"-"), None);
    assert_eq!(Fixed::parse(b"."), None);
    assert_eq!(Fixed::parse(b".5"), None);
    assert_eq!(Fixed::parse(b"5."), None);
    assert_eq!(Fixed::parse(b"1..2"), None);
    assert_eq!(Fixed::parse(b"1.2.3"), None);
    assert_eq!(Fixed::parse(b"one"), None);
    // More millionths than a signed value can hold.
    assert_eq!(Fixed::parse(b"99999999999999999999"), None);
}

#[test]
fn blend_moves_part_of_the_way() {
    let v = Fixed::blend(
        Fixed::from_micros(0),
        Fixed::from_micros(3_141_593),
        60_000,
        300_000,
    );
    assert_eq!(v, Fixed::from_micros(2_513_274));
}

#[test]
fn first_token_skips_leading_separators() {
    let t = first_token(SplitKind::Whitespace, b"  \n abc def").unwrap();
    assert_eq!(t, b"abc".to_vec());
    assert_eq!(first_token(SplitKind::Whitespace, b"   \n"), None);
    assert_eq!(first_token(SplitKind::Whitespace, b""), None);
}

#[test]
fn trim_cuts_both_ends() {
    assert_eq!(trim(SplitKind::Whitespace, b"  1024 \n"), b"1024");
    assert_eq!(trim(SplitKind::Whitespace, b"1024"), b"1024");
    assert_eq!(trim(SplitKind::Whitespace, b"   "), b"");
    assert_eq!(trim(SplitKind::Whitespace, b""), b"");
}

#[test]
fn status_words() {
    assert_eq!(Status::parse_bytes(b"Unknown"), Some(Status::Unknown));
    assert_eq!(Status::parse_bytes(b"Charging"), Some(Status::Charging));
    assert_eq!(Status::parse_bytes(b"Discharging"), Some(Status::Discharging));
    assert_eq!(Status::parse_bytes(b"Not charging"), Some(Status::NotCharging));
    assert_eq!(Status::parse_bytes(b"Full"), Some(Status::Full));
    assert_eq!(Status::parse_bytes(b"Resting"), None);
    assert_eq!(Status::parse_bytes(b""), None);
}

#[test]
fn kind_words() {
    assert_eq!(Kind::parse_bytes(b"Battery"), Some(Kind::Battery));
    assert_eq!(Kind::parse_bytes(b"UPS"), Some(Kind::Ups));
    assert_eq!(Kind::parse_bytes(b"Mains"), Some(Kind::Mains));
    assert_eq!(Kind::parse_bytes(b"USB"), Some(Kind::Usb));
    assert_eq!(Kind::parse_bytes(b"Wireless"), Some(Kind::Wireless));
    assert_eq!(Kind::parse_bytes(b"Solar"), None);
}

#[test]
fn status_symbols_differ() {
    let all = [
        Status::Unknown,
        Status::Charging,
        Status::Discharging,
        Status::NotCharging,
        Status::Full,
    ];
    for (i, a) in all.iter().enumerate() {
        for (j, b) in all.iter().enumerate() {
            assert_eq!(i == j, a.symbol() == b.symbol());
        }
    }
    assert_eq!(Status::Discharging.symbol(), "🔋");
}

#[test]
fn schedule_is_second_aligned() {
    let s = tick_schedule(1_700_000_123);
    assert_eq!(s.first_secs, 1_700_000_123);
    assert_eq!(s.first_nsecs, 0);
    assert_eq!(s.interval_secs, 1);
    assert_eq!(s.interval_nsecs, 0);
}

#[test]
fn timer_decisions() {
    assert_eq!(arm_outcome(Ok(())), ArmStep::Armed);
    assert_eq!(arm_outcome(Err(125)), ArmStep::Retry);
    assert_eq!(arm_outcome(Err(22)), ArmStep::Fail { errno: 22 });
    assert_eq!(wait_outcome(Ok(1)), WaitStep::Proceed);
    assert_eq!(wait_outcome(Err(125)), WaitStep::Rearm);
    assert_eq!(wait_outcome(Err(5)), WaitStep::Fail { errno: 5 });
}
