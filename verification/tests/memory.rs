//! The memory-information table.

use statline::clock::Instant;
use statline::meminfo::{Item, MemInfo};
use statline::read::BufProcessor;

fn t0() -> Instant {
    Instant::from_millis(0)
}

#[test]
fn smoke() {
    let buf = "MemTotal:       32166268 kB\nMemFree:        27646592 kB\nMemAvailable:   30632568 kB\nBuffers:          432404 kB\nCached:          2595616 kB\nMlocked:           11808 kB\nSwapTotal:          1024 kB\nSwapFree:              0 kB\nDirty:                36 kB\nWriteback:             0 kB\nAnonPages:        459056 kB\nMapped:           376292 kB\nShmem:             96444 kB\n"
        .as_bytes();
    let mut meminfo = MemInfo::default();
    meminfo.process(buf, t0());
    assert_eq!(meminfo.get(Item::Total), Some(32166268));
    assert_eq!(meminfo.get(Item::Free), Some(27646592));
    assert_eq!(meminfo.get(Item::Avail), Some(30632568));
    assert_eq!(meminfo.get(Item::SwapTotal), Some(1024));
    assert_eq!(meminfo.get(Item::SwapFree), Some(0));
}

#[test]
fn incomplete() {
    let buf = "MemTotal:       32166268 kB\nMemFree:        27646592 kB\nMemAvailable:   30632568 kB\nBuffers:          432404 kB\n"
        .as_bytes();
    let mut meminfo = MemInfo::default();
    meminfo.set(Item::SwapTotal, Some(0));
    meminfo.set(Item::SwapFree, Some(0));
    meminfo.process(buf, t0());
    assert_eq!(meminfo.get(Item::Total), Some(32166268));
    assert_eq!(meminfo.get(Item::Free), Some(27646592));
    assert_eq!(meminfo.get(Item::Avail), Some(30632568));
    assert_eq!(meminfo.get(Item::SwapTotal), None);
    assert_eq!(meminfo.get(Item::SwapFree), None);
}

#[test]
fn value_without_unit_is_absent() {
    let buf = b"MemTotal:       32166268\n";
    let mut meminfo = MemInfo::default();
    meminfo.process(buf, t0());
    assert_eq!(meminfo.get(Item::Total), None);
}

#[test]
fn unparsable_value_is_absent() {
    let buf = b"MemFree:        lots kB\n";
    let mut meminfo = MemInfo::default();
    meminfo.process(buf, t0());
    assert_eq!(meminfo.get(Item::Free), None);
}
