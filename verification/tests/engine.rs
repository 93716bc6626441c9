//! The polling ring driven through whole ticks, without a kernel queue:
//! completions are handed in by hand, as the platform layer would.

use statline::clock::Instant;
use statline::decode::SplitKind;
use statline::fixed::Fixed;
use statline::read::Simple;
use statline::ring::{
    CellValue, InstallError, Item, ItemFault, Processor, ReadItemInstaller, Ring, TickError,
};
use statline::source::{Gated, LowerRate, MovingAverage, WantsProcessing};

fn at(millis: u64) -> Instant {
    Instant::from_millis(millis)
}

/// A rate-limited numeric processor with nothing read yet.
fn fresh_rate(rate_millis: u64) -> Processor {
    Processor::Rate(Simple::new(LowerRate::new(rate_millis), SplitKind::Whitespace))
}

/// A rate-limited numeric processor that was fed `micros` at `when`.
fn fed_rate(rate_millis: u64, micros: i64, when: Instant) -> Processor {
    Processor::Rate(Simple::new(
        LowerRate {
            data: Some((Fixed::from_micros(micros), when)),
            rate: rate_millis,
        },
        SplitKind::Whitespace,
    ))
}

/// The buffer of one item after the kernel wrote `content` over the
/// sentinel fill.
fn buffer_with(capacity: usize, content: &[u8]) -> Vec<u8> {
    let mut buf = vec![b'0'; capacity];
    buf[..content.len()].copy_from_slice(content);
    buf
}

#[test]
fn rate_limited_source_reads_once() {
    // A rate-limited cell: read at the first tick, then quiet for the whole
    // rate window even though the file changes underneath.
    let mut installer = ReadItemInstaller::new();
    let handle = installer
        .install_file(3, 10, 20, 64, fresh_rate(5_000))
        .expect("install failed");
    let mut ring = installer.into_ring();

    let ops = ring.prepare(at(0));
    assert_eq!(ops.len(), 1);
    assert_eq!(ops[0].tag, handle as u64);
    let buf = buffer_with(64, b"0.42");
    ring.dispatch(handle as u64, 4, &buf, at(0)).expect("dispatch failed");
    assert!(ring.tick_done());
    assert_eq!(
        ring.value(handle),
        Some(CellValue::Num(Fixed::from_micros(420_000)))
    );

    // One second later the file holds "0.99", but its gate is closed: no
    // operation is issued and the cell still serves the old value.
    let ops = ring.prepare(at(1_000));
    assert_eq!(ops.len(), 0);
    assert!(ring.tick_done());
    assert_eq!(
        ring.value(handle),
        Some(CellValue::Num(Fixed::from_micros(420_000)))
    );
}

#[test]
fn three_items_one_wanting() {
    // Three items; only the middle one's gate is open. Exactly one
    // operation is submitted, dispatched to that item, and the other two
    // cells are untouched.
    let early = at(0);
    let items = vec![
        Item::new(3, 16, fed_rate(1_000_000, 111, early)),
        Item::new(4, 16, fresh_rate(5_000)),
        Item::new(5, 16, fed_rate(1_000_000, 333, early)),
    ];
    let mut ring = Ring::new(items);

    let ops = ring.prepare(at(10_000));
    assert_eq!(ops.len(), 1);
    assert_eq!(ops[0].tag, 1);
    assert_eq!(ops[0].fd, 4);
    assert_eq!(ring.submitted, 1);

    let buf = buffer_with(16, b"7");
    ring.dispatch(1, 1, &buf, at(10_000)).expect("dispatch failed");
    assert!(ring.tick_done());
    assert_eq!(ring.dispatched, 1);
    assert_eq!(ring.submitted, ring.dispatched);

    assert_eq!(ring.value(0), Some(CellValue::Num(Fixed::from_micros(111))));
    assert_eq!(
        ring.value(1),
        Some(CellValue::Num(Fixed::from_micros(7_000_000)))
    );
    assert_eq!(ring.value(2), Some(CellValue::Num(Fixed::from_micros(333))));
}

#[test]
fn every_wanting_subset_balances() {
    // Whole ticks over changing subsets of wanting items: at each tick end,
    // the submitted count equals the dispatched count.
    let items = vec![
        Item::new(3, 8, fresh_rate(2_000)),
        Item::new(4, 8, fresh_rate(8_000)),
        Item::new(5, 8, fresh_rate(60_000)),
    ];
    let mut ring = Ring::new(items);
    let mut tick_millis: u64 = 0;
    for _ in 0..5 {
        let now = at(tick_millis);
        let ops = ring.prepare(now);
        assert_eq!(ring.submitted, ops.len());
        for op in &ops {
            let buf = buffer_with(8, b"1");
            ring.dispatch(op.tag, 1, &buf, now).expect("dispatch failed");
        }
        assert!(ring.tick_done());
        assert_eq!(ring.submitted, ring.dispatched);
        tick_millis += 1_000;
    }
}

#[test]
fn failed_read_aborts_the_tick() {
    let mut ring = Ring::new(vec![Item::new(3, 16, fresh_rate(1_000))]);
    let ops = ring.prepare(at(0));
    assert_eq!(ops.len(), 1);
    let buf = buffer_with(16, b"");
    // A negative completion code carries the platform error number negated.
    let r = ring.dispatch(0, -13, &buf, at(0));
    assert_eq!(
        r,
        Err(TickError::Item {
            id: 0,
            fault: ItemFault::Failed { errno: 13 },
        })
    );
}

#[test]
fn overlong_read_is_fatal() {
    let mut ring = Ring::new(vec![Item::new(3, 16, fresh_rate(1_000))]);
    ring.prepare(at(0));
    let buf = buffer_with(16, b"");
    let r = ring.dispatch(0, 17, &buf, at(0));
    assert_eq!(
        r,
        Err(TickError::Item {
            id: 0,
            fault: ItemFault::TooLong {
                length: 17,
                capacity: 16,
            },
        })
    );
}

#[test]
fn unknown_tag_is_fatal() {
    let mut ring = Ring::new(vec![Item::new(3, 16, fresh_rate(1_000))]);
    ring.prepare(at(0));
    let buf = buffer_with(16, b"");
    assert_eq!(
        ring.dispatch(7, 1, &buf, at(0)),
        Err(TickError::UnknownTag { tag: 7 })
    );
}

#[test]
fn stale_tail_bytes_never_leak() {
    // The buffer still holds nine digits of an earlier, longer read; only
    // the reported three bytes of the fresh read may reach the decoder.
    let mut ring = Ring::new(vec![Item::new(3, 16, fresh_rate(1_000))]);
    ring.prepare(at(0));
    let buf = buffer_with(16, b"123456789");
    ring.dispatch(0, 3, &buf, at(0)).expect("dispatch failed");
    assert_eq!(
        ring.value(0),
        Some(CellValue::Num(Fixed::from_micros(123_000_000)))
    );
}

#[test]
fn shared_file_shares_one_item() {
    let mut installer = ReadItemInstaller::new();
    let first = installer
        .install_file(3, 10, 20, 64, fresh_rate(5_000))
        .expect("install failed");
    // Same device and inode: the same handle comes back.
    let second = installer
        .install_file(9, 10, 20, 64, fresh_rate(15_000))
        .expect("install failed");
    assert_eq!(first, second);
    // A different inode gets its own item.
    let third = installer
        .install_file(9, 10, 21, 64, fresh_rate(5_000))
        .expect("install failed");
    assert_ne!(first, third);
    let ring = installer.into_ring();
    assert_eq!(ring.items.len(), 2);
}

#[test]
fn shared_file_needs_matching_kind() {
    let mut installer = ReadItemInstaller::new();
    installer
        .install_file(3, 10, 20, 64, fresh_rate(5_000))
        .expect("install failed");
    let r = installer.install_file(
        3,
        10,
        20,
        64,
        Processor::Stat(Simple::new(LowerRate::new(5_000), SplitKind::Control)),
    );
    assert_eq!(r, Err(InstallError::IncompatibleProcessor { handle: 0 }));
}

#[test]
fn gated_item_obeys_outside_condition() {
    let processor = Processor::GatedAvg(Simple::new(
        Gated::new(MovingAverage::new(60_000), false),
        SplitKind::Whitespace,
    ));
    let mut ring = Ring::new(vec![Item::new(3, 16, processor)]);
    let ops = ring.prepare(at(0));
    assert_eq!(ops.len(), 0);
    ring.set_condition(0, true);
    let ops = ring.prepare(at(1_000));
    assert_eq!(ops.len(), 1);
}

#[test]
fn gate_asks_one_lookahead_ahead() {
    // Preparing asks the gates about an instant a bit over a second ahead,
    // so a source refreshed this tick is not re-read next tick by jitter.
    let p = match fed_rate(2_000, 1, at(0)) {
        Processor::Rate(p) => p,
        _ => unreachable!(),
    };
    assert!(!p.wants_processing(at(900)));
    let mut ring = Ring::new(vec![Item::new(3, 16, Processor::Rate(p))]);
    // At 900ms the estimate is 2000ms: exactly one rate past the update.
    let ops = ring.prepare(at(900));
    assert_eq!(ops.len(), 1);
}
