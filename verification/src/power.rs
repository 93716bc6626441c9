//! Power-supply kinds and charging states.
//!
//! The power-supply interface exposes a supply's kind and its charging
//! status as one-word text files; the decoders here turn those words into
//! the enums the rest of the core works with. Opening and listing the
//! supply directories is platform plumbing and stays outside.

use vstd::prelude::*;

use crate::decode::{bytes_eq, FromBytes};

verus! {

/// Kind of power supply.
#[derive(Copy, Clone, PartialEq, Eq, Structural, Debug)]
pub enum Kind {
    /// A battery.
    Battery,
    /// An uninterruptible power supply.
    Ups,
    /// Mains power.
    Mains,
    /// A USB supply.
    Usb,
    /// A wireless supply.
    Wireless,
}

/// The bytes of the kind label `"Battery"`.
pub open spec fn battery_label() -> Seq<u8> {
    seq![66u8, 97u8, 116u8, 116u8, 101u8, 114u8, 121u8]
}

/// The bytes of the kind label `"UPS"`.
pub open spec fn ups_label() -> Seq<u8> {
    seq![85u8, 80u8, 83u8]
}

/// The bytes of the kind label `"Mains"`.
pub open spec fn mains_label() -> Seq<u8> {
    seq![77u8, 97u8, 105u8, 110u8, 115u8]
}

/// The bytes of the kind label `"USB"`.
pub open spec fn usb_label() -> Seq<u8> {
    seq![85u8, 83u8, 66u8]
}

/// The bytes of the kind label `"Wireless"`.
pub open spec fn wireless_label() -> Seq<u8> {
    seq![87u8, 105u8, 114u8, 101u8, 108u8, 101u8, 115u8, 115u8]
}

/// Which kind a label names, if any.
pub open spec fn spec_parse_kind(s: Seq<u8>) -> Option<Kind> {
    if s == battery_label() {
        Some(Kind::Battery)
    } else if s == ups_label() {
        Some(Kind::Ups)
    } else if s == mains_label() {
        Some(Kind::Mains)
    } else if s == usb_label() {
        Some(Kind::Usb)
    } else if s == wireless_label() {
        Some(Kind::Wireless)
    } else {
        None
    }
}

impl FromBytes for Kind {
    open spec fn spec_parse(s: Seq<u8>) -> Option<Kind> {
        spec_parse_kind(s)
    }

    fn parse_bytes(s: &[u8]) -> (r: Option<Kind>) {
        let battery: Vec<u8> = vec![66u8, 97, 116, 116, 101, 114, 121];
        let ups: Vec<u8> = vec![85u8, 80, 83];
        let mains: Vec<u8> = vec![77u8, 97, 105, 110, 115];
        let usb: Vec<u8> = vec![85u8, 83, 66];
        let wireless: Vec<u8> = vec![87u8, 105, 114, 101, 108, 101, 115, 115];
        proof {
            assert(battery@ =~= battery_label());
            assert(ups@ =~= ups_label());
            assert(mains@ =~= mains_label());
            assert(usb@ =~= usb_label());
            assert(wireless@ =~= wireless_label());
        }
        if bytes_eq(s, battery.as_slice()) {
            Some(Kind::Battery)
        } else if bytes_eq(s, ups.as_slice()) {
            Some(Kind::Ups)
        } else if bytes_eq(s, mains.as_slice()) {
            Some(Kind::Mains)
        } else if bytes_eq(s, usb.as_slice()) {
            Some(Kind::Usb)
        } else if bytes_eq(s, wireless.as_slice()) {
            Some(Kind::Wireless)
        } else {
            None
        }
    }
}

/// Power-supply charging status.
#[derive(Copy, Clone, PartialEq, Eq, Structural, Debug)]
pub enum Status {
    /// The state is not known.
    Unknown,
    /// The supply is charging.
    Charging,
    /// The supply is discharging.
    Discharging,
    /// The supply is idle, neither charging nor full.
    NotCharging,
    /// The supply is full.
    Full,
}

/// The bytes of the status label `"Unknown"`.
pub open spec fn unknown_label() -> Seq<u8> {
    seq![85u8, 110u8, 107u8, 110u8, 111u8, 119u8, 110u8]
}

/// The bytes of the status label `"Charging"`.
pub open spec fn charging_label() -> Seq<u8> {
    seq![67u8, 104u8, 97u8, 114u8, 103u8, 105u8, 110u8, 103u8]
}

/// The bytes of the status label `"Discharging"`.
pub open spec fn discharging_label() -> Seq<u8> {
    seq![68u8, 105u8, 115u8, 99u8, 104u8, 97u8, 114u8, 103u8, 105u8, 110u8, 103u8]
}

/// The bytes of the status label `"Not charging"`.
pub open spec fn not_charging_label() -> Seq<u8> {
    seq![78u8, 111u8, 116u8, 32u8, 99u8, 104u8, 97u8, 114u8, 103u8, 105u8, 110u8, 103u8]
}

/// The bytes of the status label `"Full"`.
pub open spec fn full_label() -> Seq<u8> {
    seq![70u8, 117u8, 108u8, 108u8]
}

/// Which status a label names, if any.
pub open spec fn spec_parse_status(s: Seq<u8>) -> Option<Status> {
    if s == unknown_label() {
        Some(Status::Unknown)
    } else if s == charging_label() {
        Some(Status::Charging)
    } else if s == discharging_label() {
        Some(Status::Discharging)
    } else if s == not_charging_label() {
        Some(Status::NotCharging)
    } else if s == full_label() {
        Some(Status::Full)
    } else {
        None
    }
}

impl FromBytes for Status {
    open spec fn spec_parse(s: Seq<u8>) -> Option<Status> {
        spec_parse_status(s)
    }

    fn parse_bytes(s: &[u8]) -> (r: Option<Status>) {
        let unknown: Vec<u8> = vec![85u8, 110, 107, 110, 111, 119, 110];
        let charging: Vec<u8> = vec![67u8, 104, 97, 114, 103, 105, 110, 103];
        let discharging: Vec<u8> = vec![68u8, 105, 115, 99, 104, 97, 114, 103, 105, 110, 103];
        let not_charging: Vec<u8> = vec![
            78u8,
            111,
            116,
            32,
            99,
            104,
            97,
            114,
            103,
            105,
            110,
            103,
        ];
        let full: Vec<u8> = vec![70u8, 117, 108, 108];
        proof {
            assert(unknown@ =~= unknown_label());
            assert(charging@ =~= charging_label());
            assert(discharging@ =~= discharging_label());
            assert(not_charging@ =~= not_charging_label());
            assert(full@ =~= full_label());
        }
        if bytes_eq(s, unknown.as_slice()) {
            Some(Status::Unknown)
        } else if bytes_eq(s, charging.as_slice()) {
            Some(Status::Charging)
        } else if bytes_eq(s, discharging.as_slice()) {
            Some(Status::Discharging)
        } else if bytes_eq(s, not_charging.as_slice()) {
            Some(Status::NotCharging)
        } else if bytes_eq(s, full.as_slice()) {
            Some(Status::Full)
        } else {
            None
        }
    }
}

impl Status {
    /// The symbol shown for this status, for specifications.
    pub open spec fn spec_symbol(self) -> Seq<char> {
        match self {
            Status::Unknown => "❓️"@,
            Status::Charging => "⚡️"@,
            Status::Discharging => "🔋"@,
            Status::NotCharging => "⭐️"@,
            Status::Full => "✨️"@,
        }
    }

    /// A symbol corresponding to the battery status.
    pub fn symbol(self) -> (r: &'static str)
        ensures
            r@ == self.spec_symbol(),
    {
        match self {
            Status::Unknown => "❓️",
            Status::Charging => "⚡️",
            Status::Discharging => "🔋",
            Status::NotCharging => "⭐️",
            Status::Full => "✨️",
        }
    }
}

} // verus!
