//! Buffer processors: decode-then-update logic for completed reads.
//!
//! A processor receives the meaningful bytes of one completed read of its
//! file and folds what they decode to into its value source. [`Simple`]
//! decodes the first token of the buffer; [`PSI`] digs the ten-minute
//! average out of a kernel pressure-stall record.

use vstd::prelude::*;

use crate::clock::Instant;
use crate::decode::{
    spec_first_token, spec_split, split_bytes, first_token, FromBytes, SplitKind,
};
use crate::fixed::{spec_parse_fixed, Fixed};
use crate::source::{Source, Updateable, WantsProcessing};

verus! {

/// Processor for buffer contents.
///
/// Buffer processors are the decode half of a read item: they receive the
/// read bytes via [`BufProcessor::process`] and update a value source.
pub trait BufProcessor: WantsProcessing {
    /// Well-formedness that processing relies on and preserves.
    open spec fn spec_wf(self) -> bool {
        true
    }

    /// The processor state after digesting `buf` at `now`, for
    /// specifications.
    spec fn spec_processed(self, buf: Seq<u8>, now: Instant) -> Self;

    /// Digest the bytes of one completed read, observed at `now`.
    fn process(&mut self, buf: &[u8], now: Instant)
        requires
            old(self).spec_wf(),
        ensures
            *final(self) == (*old(self)).spec_processed(buf@, now),
            final(self).spec_wf(),
    ;
}

/// A [`BufProcessor`] extracting a single decoded token.
pub struct Simple<U> {
    /// The value source updated with each decoded token.
    pub source: U,
    /// The separator class that cuts the token out of the buffer.
    pub split: SplitKind,
}

impl<U> Simple<U> {
    /// A processor feeding `source` with tokens cut at `split` bytes.
    pub fn new(source: U, split: SplitKind) -> (r: Simple<U>)
        ensures
            r.source == source,
            r.split == split,
    {
        Simple { source, split }
    }

    /// A processor around a default-valued source.
    pub fn new_default(split: SplitKind) -> (r: Simple<U>) where U: Default
        ensures
            r.split == split,
    {
        Simple { source: U::default(), split }
    }
}

impl<U: Source> Source for Simple<U> {
    type Value = U::Value;

    open spec fn spec_value(self) -> Option<U::Value> {
        self.source.spec_value()
    }

    fn value(&self) -> (r: Option<U::Value>) {
        self.source.value()
    }
}

impl<U: WantsProcessing> WantsProcessing for Simple<U> {
    open spec fn spec_wants(self, before: Instant) -> bool {
        self.source.spec_wants(before)
    }

    fn wants_processing(&self, before: Instant) -> (r: bool) {
        self.source.wants_processing(before)
    }
}

impl<U> BufProcessor for Simple<U> where
    U: Updateable + WantsProcessing,
    U::Value: FromBytes,
 {
    open spec fn spec_wf(self) -> bool {
        self.source.spec_wf()
    }

    /// The first token that decodes updates the source; a buffer without a
    /// decodable first token invalidates it.
    open spec fn spec_processed(self, buf: Seq<u8>, now: Instant) -> Simple<U> {
        let folded = match spec_first_token(self.split, buf) {
            Some(t) => match <U::Value as FromBytes>::spec_parse(t) {
                Some(v) => self.source.spec_updated(v, now),
                None => self.source.spec_invalidated(now),
            },
            None => self.source.spec_invalidated(now),
        };
        Simple { source: folded, split: self.split }
    }

    fn process(&mut self, buf: &[u8], now: Instant) {
        let data = match first_token(self.split, buf) {
            Some(t) => <U::Value as FromBytes>::parse_bytes(t.as_slice()),
            None => None,
        };
        match data {
            Some(v) => self.source.update(v, now),
            None => self.source.update_invalid(now),
        }
    }
}

/// True when `s` opens with the bytes of `p`.
pub open spec fn starts_with(s: Seq<u8>, p: Seq<u8>) -> bool {
    s.len() >= p.len() && s.take(p.len() as int) == p
}

/// The bytes of the line label `"some"`.
pub open spec fn some_label() -> Seq<u8> {
    seq![115u8, 111u8, 109u8, 101u8]
}

/// The bytes of the field label `"avg10="`.
pub open spec fn avg10_label() -> Seq<u8> {
    seq![97u8, 118u8, 103u8, 49u8, 48u8, 61u8]
}

/// The first word of `words` carrying the ten-minute-average label, without
/// the label.
pub open spec fn scan_avg10_words(words: Seq<Seq<u8>>) -> Option<Seq<u8>>
    decreases words.len(),
{
    if words.len() == 0 {
        None
    } else if starts_with(words[0], avg10_label()) {
        Some(words[0].skip(6))
    } else {
        scan_avg10_words(words.drop_first())
    }
}

/// The ten-minute-average field of the first `"some"` line that carries
/// one.
pub open spec fn scan_psi_lines(lines: Seq<Seq<u8>>) -> Option<Seq<u8>>
    decreases lines.len(),
{
    if lines.len() == 0 {
        None
    } else {
        let found = if starts_with(lines[0], some_label()) {
            scan_avg10_words(spec_split(SplitKind::Whitespace, lines[0].skip(4)))
        } else {
            None
        };
        match found {
            Some(t) => Some(t),
            None => scan_psi_lines(lines.drop_first()),
        }
    }
}

/// The byte token holding the ten-minute average of the `"some"` record.
pub open spec fn spec_psi_target(s: Seq<u8>) -> Option<Seq<u8>> {
    scan_psi_lines(spec_split(SplitKind::Newline, s))
}

/// Cut the ten-minute-average token of the `"some"` record out of a
/// pressure-stall record.
#[verifier::loop_isolation(false)]
pub fn psi_target(s: &[u8]) -> (r: Option<Vec<u8>>)
    ensures
        match r {
            Some(t) => spec_psi_target(s@) == Some(t@),
            None => spec_psi_target(s@) is None,
        },
{
    let lines = split_bytes(SplitKind::Newline, s);
    let ghost lv = lines@.map_values(|v: Vec<u8>| v@);
    let mut li: usize = 0;
    proof {
        assert(lv.skip(0) =~~= lv);
    }
    while li < lines.len()
        invariant
            0 <= li <= lines@.len(),
            lv == lines@.map_values(|v: Vec<u8>| v@),
            scan_psi_lines(lv) == scan_psi_lines(lv.skip(li as int)),
            spec_psi_target(s@) == scan_psi_lines(lv),
        decreases lines@.len() - li,
    {
        proof {
            assert(lv.skip(li as int)[0] == lv[li as int]);
            assert(lv.skip(li as int).drop_first() =~~= lv.skip(li + 1));
        }
        let line = &lines[li];
        proof {
            assert(lv[li as int] == line@);
        }
        if line.len() >= 4 && line[0] == 115 && line[1] == 111 && line[2] == 109 && line[3]
            == 101 {
            proof {
                assert(line@.take(4) =~= some_label());
                assert(starts_with(lv[li as int], some_label()));
            }
            let rest = &line.as_slice()[4..line.len()];
            proof {
                assert(rest@ =~= line@.skip(4));
            }
            let words = split_bytes(SplitKind::Whitespace, rest);
            let ghost wv = words@.map_values(|v: Vec<u8>| v@);
            let mut wi: usize = 0;
            proof {
                assert(wv.skip(0) =~~= wv);
            }
            while wi < words.len()
                invariant
                    0 <= wi <= words@.len(),
                    wv == words@.map_values(|v: Vec<u8>| v@),
                    wv == spec_split(SplitKind::Whitespace, lv[li as int].skip(4)),
                    scan_avg10_words(wv) == scan_avg10_words(wv.skip(wi as int)),
                decreases words@.len() - wi,
            {
                proof {
                    assert(wv.skip(wi as int)[0] == wv[wi as int]);
                    assert(wv.skip(wi as int).drop_first() =~~= wv.skip(wi + 1));
                }
                let w = &words[wi];
                if w.len() >= 6 && w[0] == 97 && w[1] == 118 && w[2] == 103 && w[3] == 49
                    && w[4] == 48 && w[5] == 61 {
                    proof {
                        assert(w@.take(6) =~= avg10_label());
                    }
                    let t = vstd::slice::slice_to_vec(&w.as_slice()[6..w.len()]);
                    proof {
                        assert(t@ =~= wv[wi as int].skip(6));
                        assert(starts_with(wv[wi as int], avg10_label()));
                        assert(scan_avg10_words(wv.skip(wi as int)) == Some(
                            wv[wi as int].skip(6),
                        ));
                        assert(starts_with(lv[li as int], some_label()));
                        assert(scan_psi_lines(lv.skip(li as int)) == Some(t@));
                    }
                    return Some(t);
                } else {
                    proof {
                        if wv[wi as int].len() >= 6 {
                            assert(!starts_with(wv[wi as int], avg10_label())) by {
                                if wv[wi as int].take(6) == avg10_label() {
                                    assert(wv[wi as int].take(6)[0] == wv[wi as int][0]);
                                    assert(wv[wi as int].take(6)[1] == wv[wi as int][1]);
                                    assert(wv[wi as int].take(6)[2] == wv[wi as int][2]);
                                    assert(wv[wi as int].take(6)[3] == wv[wi as int][3]);
                                    assert(wv[wi as int].take(6)[4] == wv[wi as int][4]);
                                    assert(wv[wi as int].take(6)[5] == wv[wi as int][5]);
                                }
                            }
                        }
                    }
                }
                wi = wi + 1;
            }
            proof {
                assert(wv.skip(wi as int) =~~= Seq::<Seq<u8>>::empty());
                assert(scan_avg10_words(wv) is None);
            }
        } else {
            proof {
                if lv[li as int].len() >= 4 {
                    assert(!starts_with(lv[li as int], some_label())) by {
                        if lv[li as int].take(4) == some_label() {
                            assert(lv[li as int].take(4)[0] == lv[li as int][0]);
                            assert(lv[li as int].take(4)[1] == lv[li as int][1]);
                            assert(lv[li as int].take(4)[2] == lv[li as int][2]);
                            assert(lv[li as int].take(4)[3] == lv[li as int][3]);
                        }
                    }
                }
            }
        }
        li = li + 1;
    }
    proof {
        assert(lv.skip(li as int) =~~= Seq::<Seq<u8>>::empty());
    }
    None
}

/// A [`BufProcessor`] for the ten-minute average of a pressure-stall record.
pub struct PSI<U> {
    /// The value source updated with each decoded average.
    pub source: U,
}

impl<U> PSI<U> {
    /// A processor feeding `source` with decoded ten-minute averages.
    pub fn new(source: U) -> (r: PSI<U>)
        ensures
            r.source == source,
    {
        PSI { source }
    }
}

impl<U> From<U> for PSI<U> {
    fn from(source: U) -> (r: PSI<U>) {
        PSI { source }
    }
}

impl<U> vstd::std_specs::convert::FromSpecImpl<U> for PSI<U> {
    open spec fn obeys_from_spec() -> bool {
        true
    }

    open spec fn from_spec(source: U) -> PSI<U> {
        PSI { source }
    }
}

impl<U: Source> Source for PSI<U> {
    type Value = U::Value;

    open spec fn spec_value(self) -> Option<U::Value> {
        self.source.spec_value()
    }

    fn value(&self) -> (r: Option<U::Value>) {
        self.source.value()
    }
}

impl<U: WantsProcessing> WantsProcessing for PSI<U> {
    open spec fn spec_wants(self, before: Instant) -> bool {
        self.source.spec_wants(before)
    }

    fn wants_processing(&self, before: Instant) -> (r: bool) {
        self.source.wants_processing(before)
    }
}

impl<U> BufProcessor for PSI<U> where U: Updateable<Value = Fixed> + WantsProcessing {
    open spec fn spec_wf(self) -> bool {
        self.source.spec_wf()
    }

    /// A decodable ten-minute average of the `"some"` record updates the
    /// source; a record without one invalidates it.
    open spec fn spec_processed(self, buf: Seq<u8>, now: Instant) -> PSI<U> {
        let folded = match spec_psi_target(buf) {
            Some(t) => match spec_parse_fixed(t) {
                Some(v) => self.source.spec_updated(v, now),
                None => self.source.spec_invalidated(now),
            },
            None => self.source.spec_invalidated(now),
        };
        PSI { source: folded }
    }

    fn process(&mut self, buf: &[u8], now: Instant) {
        let data = match psi_target(buf) {
            Some(t) => Fixed::parse(t.as_slice()),
            None => None,
        };
        match data {
            Some(v) => self.source.update(v, now),
            None => self.source.update_invalid(now),
        }
    }
}

} // verus!
