//! Decoding of the kernel's memory-information record.
//!
//! The record is a sequence of `Name:   value kB` lines. Processing rebuilds
//! the whole table from one read: every recognised field starts out absent
//! and is set from the last line that names it.

use vstd::prelude::*;

use crate::clock::Instant;
use crate::decode::{
    bytes_eq, first_sep, lemma_first_sep_at, spec_parse_u64, spec_split, spec_trim, split_bytes,
    parse_u64, trim, SplitKind,
};
use crate::read::BufProcessor;
use crate::source::{Source, WantsProcessing};

verus! {

/// Identification of a [`MemInfo`] field.
#[derive(Copy, Clone, PartialEq, Eq, Structural, Debug)]
pub enum Item {
    /// Total memory.
    Total,
    /// Free memory.
    Free,
    /// Available memory.
    Avail,
    /// Total swap space.
    SwapTotal,
    /// Free swap space.
    SwapFree,
}

/// The recognised fields of the memory-information record, each in
/// kibibytes when present.
#[derive(Copy, Clone, PartialEq, Eq, Structural, Debug)]
pub struct MemInfo {
    /// Total memory.
    pub total: Option<u64>,
    /// Free memory.
    pub free: Option<u64>,
    /// Available memory.
    pub avail: Option<u64>,
    /// Total swap space.
    pub swap_total: Option<u64>,
    /// Free swap space.
    pub swap_free: Option<u64>,
}

impl MemInfo {
    /// The table with every field absent.
    pub fn empty() -> (r: MemInfo)
        ensures
            r == spec_mem_empty(),
    {
        MemInfo { total: None, free: None, avail: None, swap_total: None, swap_free: None }
    }

    /// The field selected by `item`, for specifications.
    pub open spec fn spec_get(self, item: Item) -> Option<u64> {
        match item {
            Item::Total => self.total,
            Item::Free => self.free,
            Item::Avail => self.avail,
            Item::SwapTotal => self.swap_total,
            Item::SwapFree => self.swap_free,
        }
    }

    /// The field selected by `item`.
    pub fn get(&self, item: Item) -> (r: Option<u64>)
        ensures
            r == self.spec_get(item),
    {
        match item {
            Item::Total => self.total,
            Item::Free => self.free,
            Item::Avail => self.avail,
            Item::SwapTotal => self.swap_total,
            Item::SwapFree => self.swap_free,
        }
    }

    /// The table with the field selected by `item` set to `v`, for
    /// specifications.
    pub open spec fn spec_set(self, item: Item, v: Option<u64>) -> MemInfo {
        match item {
            Item::Total => MemInfo { total: v, ..self },
            Item::Free => MemInfo { free: v, ..self },
            Item::Avail => MemInfo { avail: v, ..self },
            Item::SwapTotal => MemInfo { swap_total: v, ..self },
            Item::SwapFree => MemInfo { swap_free: v, ..self },
        }
    }

    /// Set the field selected by `item` to `v`.
    pub fn set(&mut self, item: Item, v: Option<u64>)
        ensures
            *final(self) == old(self).spec_set(item, v),
    {
        match item {
            Item::Total => {
                self.total = v;
            },
            Item::Free => {
                self.free = v;
            },
            Item::Avail => {
                self.avail = v;
            },
            Item::SwapTotal => {
                self.swap_total = v;
            },
            Item::SwapFree => {
                self.swap_free = v;
            },
        }
    }
}

impl Default for MemInfo {
    fn default() -> (r: MemInfo)
        ensures
            r == spec_mem_empty(),
    {
        MemInfo::empty()
    }
}

/// The table with every field absent.
pub open spec fn spec_mem_empty() -> MemInfo {
    MemInfo { total: None, free: None, avail: None, swap_total: None, swap_free: None }
}

/// The bytes of the label `"MemTotal"`.
pub open spec fn total_label() -> Seq<u8> {
    seq![77u8, 101u8, 109u8, 84u8, 111u8, 116u8, 97u8, 108u8]
}

/// The bytes of the label `"MemFree"`.
pub open spec fn free_label() -> Seq<u8> {
    seq![77u8, 101u8, 109u8, 70u8, 114u8, 101u8, 101u8]
}

/// The bytes of the label `"MemAvailable"`.
pub open spec fn avail_label() -> Seq<u8> {
    seq![77u8, 101u8, 109u8, 65u8, 118u8, 97u8, 105u8, 108u8, 97u8, 98u8, 108u8, 101u8]
}

/// The bytes of the label `"SwapTotal"`.
pub open spec fn swap_total_label() -> Seq<u8> {
    seq![83u8, 119u8, 97u8, 112u8, 84u8, 111u8, 116u8, 97u8, 108u8]
}

/// The bytes of the label `"SwapFree"`.
pub open spec fn swap_free_label() -> Seq<u8> {
    seq![83u8, 119u8, 97u8, 112u8, 70u8, 114u8, 101u8, 101u8]
}

/// Which recognised field a line label names, if any.
pub open spec fn spec_item_of_key(k: Seq<u8>) -> Option<Item> {
    if k == total_label() {
        Some(Item::Total)
    } else if k == free_label() {
        Some(Item::Free)
    } else if k == avail_label() {
        Some(Item::Avail)
    } else if k == swap_total_label() {
        Some(Item::SwapTotal)
    } else if k == swap_free_label() {
        Some(Item::SwapFree)
    } else {
        None
    }
}

/// Which recognised field the bytes of a line label name, if any.
fn item_of_key(k: &[u8]) -> (r: Option<Item>)
    ensures
        r == spec_item_of_key(k@),
{
    let total: Vec<u8> = vec![77u8, 101, 109, 84, 111, 116, 97, 108];
    let free: Vec<u8> = vec![77u8, 101, 109, 70, 114, 101, 101];
    let avail: Vec<u8> = vec![77u8, 101, 109, 65, 118, 97, 105, 108, 97, 98, 108, 101];
    let swap_total: Vec<u8> = vec![83u8, 119, 97, 112, 84, 111, 116, 97, 108];
    let swap_free: Vec<u8> = vec![83u8, 119, 97, 112, 70, 114, 101, 101];
    proof {
        assert(total@ =~= total_label());
        assert(free@ =~= free_label());
        assert(avail@ =~= avail_label());
        assert(swap_total@ =~= swap_total_label());
        assert(swap_free@ =~= swap_free_label());
    }
    if bytes_eq(k, total.as_slice()) {
        Some(Item::Total)
    } else if bytes_eq(k, free.as_slice()) {
        Some(Item::Free)
    } else if bytes_eq(k, avail.as_slice()) {
        Some(Item::Avail)
    } else if bytes_eq(k, swap_total.as_slice()) {
        Some(Item::SwapTotal)
    } else if bytes_eq(k, swap_free.as_slice()) {
        Some(Item::SwapFree)
    } else {
        None
    }
}

/// The value of a field line: the text after the label, stripped of its
/// `kB` suffix, trimmed, and read as an integer; absent when any of that
/// fails.
pub open spec fn spec_mem_value(v: Seq<u8>) -> Option<u64> {
    if v.len() >= 2 && v[v.len() - 2] == 107 && v[v.len() - 1] == 66 {
        spec_parse_u64(spec_trim(SplitKind::Whitespace, v.take(v.len() - 2)))
    } else {
        None
    }
}

/// Decode the value text of a field line.
fn mem_value(v: &[u8]) -> (r: Option<u64>)
    ensures
        r == spec_mem_value(v@),
{
    if v.len() >= 2 && v[v.len() - 2] == 107 && v[v.len() - 1] == 66 {
        let w = &v[0..v.len() - 2];
        proof {
            assert(w@ =~= v@.take(v@.len() - 2));
        }
        parse_u64(trim(SplitKind::Whitespace, w))
    } else {
        None
    }
}

/// The table after one line: a recognised label sets its field to the
/// line's decoded value, anything else changes nothing.
pub open spec fn spec_mem_line(m: MemInfo, l: Seq<u8>) -> MemInfo {
    let i = first_sep(SplitKind::Colon, l);
    if i == l.len() {
        m
    } else {
        match spec_item_of_key(l.take(i)) {
            Some(item) => m.spec_set(item, spec_mem_value(l.skip(i + 1))),
            None => m,
        }
    }
}

/// The table built from the given lines, first to last.
pub open spec fn spec_mem_fold(m: MemInfo, lines: Seq<Seq<u8>>) -> MemInfo
    decreases lines.len(),
{
    if lines.len() == 0 {
        m
    } else {
        spec_mem_fold(spec_mem_line(m, lines[0]), lines.drop_first())
    }
}

/// What processing a whole record yields.
pub open spec fn spec_mem_table(buf: Seq<u8>) -> MemInfo {
    spec_mem_fold(spec_mem_empty(), spec_split(SplitKind::Newline, buf))
}

impl Source for MemInfo {
    type Value = MemInfo;

    open spec fn spec_value(self) -> Option<MemInfo> {
        Some(self)
    }

    fn value(&self) -> (r: Option<MemInfo>) {
        Some(*self)
    }
}

impl WantsProcessing for MemInfo {
    /// The table carries no rate limit of its own: it is refreshed whenever
    /// the control loop asks.
    open spec fn spec_wants(self, before: Instant) -> bool {
        true
    }

    fn wants_processing(&self, before: Instant) -> (r: bool) {
        true
    }
}

impl BufProcessor for MemInfo {
    /// Processing replaces the whole table with what the record's lines
    /// hold: fields the record does not carry become absent.
    open spec fn spec_processed(self, buf: Seq<u8>, now: Instant) -> MemInfo {
        spec_mem_table(buf)
    }

    #[verifier::loop_isolation(false)]
    fn process(&mut self, buf: &[u8], now: Instant) {
        let lines = split_bytes(SplitKind::Newline, buf);
        let ghost lv = lines@.map_values(|v: Vec<u8>| v@);
        let mut m = MemInfo::empty();
        let mut li: usize = 0;
        proof {
            assert(lv.skip(0) =~~= lv);
        }
        while li < lines.len()
            invariant
                0 <= li <= lines@.len(),
                spec_mem_fold(m, lv.skip(li as int)) == spec_mem_fold(spec_mem_empty(), lv),
            decreases lines@.len() - li,
        {
            proof {
                assert(lv[li as int] == lines@[li as int]@);
                assert(lv.skip(li as int)[0] == lv[li as int]);
                assert(lv.skip(li as int).drop_first() =~~= lv.skip(li + 1));
            }
            let line = &lines[li];
            let ghost l = line@;

            // Position of the colon separating label from value.
            let mut ci: usize = 0;
            while ci < line.len() && line[ci] != 58
                invariant
                    0 <= ci <= l.len(),
                    forall|i: int| 0 <= i < ci ==> #[trigger] l[i] != 58,
                decreases l.len() - ci,
            {
                ci = ci + 1;
            }
            proof {
                lemma_first_sep_at(SplitKind::Colon, l, ci as int);
            }
            if ci < line.len() {
                let key = &line.as_slice()[0..ci];
                proof {
                    assert(key@ =~= l.take(ci as int));
                }
                match item_of_key(key) {
                    Some(item) => {
                        let value = &line.as_slice()[ci + 1..line.len()];
                        proof {
                            assert(value@ =~= l.skip(ci + 1));
                        }
                        let v = mem_value(value);
                        m.set(item, v);
                    },
                    None => {},
                }
            }
            li = li + 1;
        }
        proof {
            assert(lv.skip(li as int) =~~= Seq::<Seq<u8>>::empty());
        }
        *self = m;
    }
}

} // verus!
