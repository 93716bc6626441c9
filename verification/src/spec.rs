//! Status-line entry specifications.
//!
//! An argument such as `"pressure:cpu,io"` selects one family of entries:
//! a main word, optionally followed by a colon and a comma-separated list
//! of sub-specifications. The parser here cuts an argument into that
//! shape; deciding what each word means, opening files and building the
//! entry tree happen in the platform layer.

use vstd::prelude::*;

use crate::decode::{bytes_eq, first_sep, lemma_first_sep_at, spec_split, SplitKind};
use vstd::string::StringSliceAdditionalSpecFns;
use vstd::utf8::{
    is_char_boundary, is_char_boundary_iff_not_is_continuation_byte,
    is_char_boundary_start_end_of_seq, partial_valid_utf8, partial_valid_utf8_extend_ascii_block,
    valid_utf8,
};

verus! {

/// An all-ASCII byte sequence is valid UTF-8 with a character boundary at
/// every position.
pub proof fn lemma_ascii_utf8(bytes: Seq<u8>)
    requires
        forall|j: int| 0 <= j < bytes.len() ==> (#[trigger] bytes[j]) < 128,
    ensures
        valid_utf8(bytes),
        forall|i: int| 0 <= i <= bytes.len() ==> #[trigger] is_char_boundary(bytes, i),
{
    assert(partial_valid_utf8(bytes, 0)) by {
        assert(bytes.subrange(0, 0) =~= Seq::<u8>::empty());
    }
    partial_valid_utf8_extend_ascii_block(bytes, 0, bytes.len() as int);
    assert(bytes.subrange(0, bytes.len() as int) =~= bytes);
    assert forall|i: int| 0 <= i <= bytes.len() implies #[trigger] is_char_boundary(
        bytes,
        i,
    ) by {
        if i == 0 || i == bytes.len() {
            is_char_boundary_start_end_of_seq(bytes);
        } else {
            is_char_boundary_iff_not_is_continuation_byte(bytes, i);
        }
    }
}

/// The main word of an argument: everything before the first colon.
pub open spec fn spec_main_of(s: Seq<u8>) -> Seq<u8> {
    s.take(first_sep(SplitKind::Colon, s))
}

/// The sub-specifications of an argument: the nonempty comma-separated
/// words after the first colon, or none without a colon.
pub open spec fn spec_subs_of(s: Seq<u8>) -> Seq<Seq<u8>> {
    let i = first_sep(SplitKind::Colon, s);
    if i == s.len() {
        Seq::empty()
    } else {
        spec_split(SplitKind::Comma, s.skip(i + 1)).filter(|t: Seq<u8>| t.len() > 0)
    }
}

/// A single parsed specification for status-line entries.
#[derive(PartialEq, Debug)]
pub struct Spec<'a> {
    /// The main word selecting the entry family.
    pub main: &'a str,
    /// The sub-specifications refining it.
    pub subs: Vec<&'a str>,
}

impl<'a> Spec<'a> {
    /// Cut an argument at the first colon and the commas after it.
    #[verifier::loop_isolation(false)]
    pub fn parse(s: &'a str) -> (r: Spec<'a>)
        requires
            s.is_ascii(),
        ensures
            r.main.spec_bytes() == spec_main_of(s.spec_bytes()),
            r.subs@.map_values(|t: &str| t.spec_bytes()) == spec_subs_of(s.spec_bytes()),
    {
        let ghost sb = s.spec_bytes();
        proof {
            vstd::string::is_ascii_spec_bytes(s);
            vstd::utf8::is_ascii_chars_nat_bound(s@);
            assert(forall|j: int| 0 <= j < sb.len() ==> (#[trigger] sb[j]) < 128);
            lemma_ascii_utf8(sb);
        }
        let bytes = s.as_bytes();
        let mut ci: usize = 0;
        while ci < bytes.len() && bytes[ci] != 58
            invariant
                0 <= ci <= sb.len(),
                forall|i: int| 0 <= i < ci ==> #[trigger] sb[i] != 58,
            decreases sb.len() - ci,
        {
            ci = ci + 1;
        }
        proof {
            lemma_first_sep_at(SplitKind::Colon, sb, ci as int);
        }
        if ci == bytes.len() {
            proof {
                assert(spec_main_of(sb) =~= sb);
                assert(Seq::<&str>::empty().map_values(|t: &str| t.spec_bytes())
                    =~~= Seq::<Seq<u8>>::empty());
            }
            return Spec { main: s, subs: Vec::new() };
        }
        let pieces = s.split_at(ci);
        let main = pieces.0;
        proof {
            assert(main.spec_bytes() =~= spec_main_of(sb));
            assert(pieces.1.spec_bytes() =~= sb.skip(ci as int));
            assert(forall|j: int|
                0 <= j < pieces.1.spec_bytes().len() ==> (#[trigger] pieces.1.spec_bytes()[j])
                    < 128);
            lemma_ascii_utf8(pieces.1.spec_bytes());
        }
        let rest = pieces.1.split_at(1).1;
        proof {
            assert(rest.spec_bytes() =~= sb.skip(ci + 1));
        }

        let mut subs: Vec<&'a str> = Vec::new();
        let mut rem: &'a str = rest;
        let mut done = false;
        while !done
            invariant
                forall|j: int|
                    0 <= j < rem.spec_bytes().len() ==> (#[trigger] rem.spec_bytes()[j]) < 128,
                !done ==> subs@.map_values(|t: &str| t.spec_bytes()) + spec_split(
                    SplitKind::Comma,
                    rem.spec_bytes(),
                ).filter(|t: Seq<u8>| t.len() > 0) == spec_subs_of(sb),
                forall|j: int|
                    0 <= j < subs@.len() ==> (#[trigger] subs@[j]).spec_bytes().len() > 0,
                done ==> subs@.map_values(|t: &str| t.spec_bytes()) == spec_subs_of(sb),
            decreases (if done {
                0int
            } else {
                1int
            }), rem.spec_bytes().len(),
        {
            let ghost rb = rem.spec_bytes();
            let rbytes = rem.as_bytes();
            let mut mi: usize = 0;
            while mi < rbytes.len() && rbytes[mi] != 44
                invariant
                    0 <= mi <= rb.len(),
                    forall|i: int| 0 <= i < mi ==> #[trigger] rb[i] != 44,
                decreases rb.len() - mi,
            {
                mi = mi + 1;
            }
            proof {
                lemma_first_sep_at(SplitKind::Comma, rb, mi as int);
                lemma_ascii_utf8(rb);
            }
            if mi == rbytes.len() {
                proof {
                    assert(spec_split(SplitKind::Comma, rb) =~~= seq![rb]);
                    reveal_with_fuel(Seq::<Seq<u8>>::filter, 2);
                    assert(seq![rb].drop_last() =~~= Seq::<Seq<u8>>::empty());
                }
                if rem.len() > 0 {
                    let ghost prev = subs@;
                    subs.push(rem);
                    proof {
                        assert(subs@.map_values(|t: &str| t.spec_bytes()) =~~= prev.map_values(
                            |t: &str| t.spec_bytes(),
                        ).push(rb));
                        assert(seq![rb].filter(|t: Seq<u8>| t.len() > 0) =~~= seq![rb]);
                        assert(subs@.map_values(|t: &str| t.spec_bytes()) =~~= spec_subs_of(sb));
                    }
                } else {
                    proof {
                        assert(seq![rb].filter(|t: Seq<u8>| t.len() > 0)
                            =~~= Seq::<Seq<u8>>::empty());
                        assert(subs@.map_values(|t: &str| t.spec_bytes()) =~~= spec_subs_of(sb));
                    }
                }
                done = true;
            } else {
                let halves = rem.split_at(mi);
                let piece = halves.0;
                proof {
                    assert(piece.spec_bytes() =~= rb.take(mi as int));
                    assert(halves.1.spec_bytes() =~= rb.skip(mi as int));
                    assert(forall|j: int|
                        0 <= j < halves.1.spec_bytes().len() ==> (
                        #[trigger] halves.1.spec_bytes()[j]) < 128);
                    lemma_ascii_utf8(halves.1.spec_bytes());
                }
                let tail = halves.1.split_at(1).1;
                proof {
                    assert(tail.spec_bytes() =~= rb.skip(mi + 1));
                    assert(spec_split(SplitKind::Comma, rb) =~~= seq![rb.take(mi as int)]
                        + spec_split(SplitKind::Comma, rb.skip(mi + 1)));
                    Seq::<Seq<u8>>::filter_distributes_over_add(
                        seq![rb.take(mi as int)],
                        spec_split(SplitKind::Comma, rb.skip(mi + 1)),
                        |t: Seq<u8>| t.len() > 0,
                    );
                    reveal_with_fuel(Seq::<Seq<u8>>::filter, 2);
                    assert(seq![rb.take(mi as int)].drop_last() =~~= Seq::<Seq<u8>>::empty());
                }
                if piece.len() > 0 {
                    let ghost prev = subs@;
                    subs.push(piece);
                    proof {
                        assert(seq![rb.take(mi as int)].filter(|t: Seq<u8>| t.len() > 0)
                            =~~= seq![rb.take(mi as int)]);
                        assert(subs@.map_values(|t: &str| t.spec_bytes()) =~~= prev.map_values(
                            |t: &str| t.spec_bytes(),
                        ).push(piece.spec_bytes()));
                        assert(subs@.map_values(|t: &str| t.spec_bytes()) + spec_split(
                            SplitKind::Comma,
                            tail.spec_bytes(),
                        ).filter(|t: Seq<u8>| t.len() > 0) =~~= spec_subs_of(sb));
                    }
                } else {
                    proof {
                        assert(seq![rb.take(mi as int)].filter(|t: Seq<u8>| t.len() > 0)
                            =~~= Seq::<Seq<u8>>::empty());
                        assert(subs@.map_values(|t: &str| t.spec_bytes()) + spec_split(
                            SplitKind::Comma,
                            tail.spec_bytes(),
                        ).filter(|t: Seq<u8>| t.len() > 0) =~~= spec_subs_of(sb));
                    }
                }
                rem = tail;
            }
        }
        Spec { main, subs }
    }

    /// Whether this specification carries no sub-specifications; an error
    /// names the spec as carrying unexpected ones.
    pub fn no_subs(&self) -> (r: Result<(), SpecError>)
        ensures
            r is Ok <==> self.subs@.len() == 0,
    {
        if self.subs.len() == 0 {
            Ok(())
        } else {
            Err(SpecError::UnexpectedSubs)
        }
    }
}

impl<'a> vstd::std_specs::convert::FromSpecImpl<&'a str> for Spec<'a> {
    /// Conversion is specified through [`Spec::parse`] instead: a list of
    /// sub-specifications cannot be written down as one specification value.
    open spec fn obeys_from_spec() -> bool {
        false
    }

    open spec fn from_spec(s: &'a str) -> Spec<'a> {
        arbitrary()
    }
}

impl<'a> From<&'a str> for Spec<'a> {
    /// Parse an argument; one that is not all ASCII is served whole as the
    /// main word, since no entry family is named that way.
    fn from(s: &'a str) -> (r: Spec<'a>) {
        if s.is_ascii() {
            Spec::parse(s)
        } else {
            Spec { main: s, subs: Vec::new() }
        }
    }
}

/// What is wrong with a specification.
#[derive(Copy, Clone, PartialEq, Eq, Structural, Debug)]
pub enum SpecError {
    /// The specification carries sub-specifications where none belong.
    UnexpectedSubs,
}

/// The pressure-stall resources an entry can watch.
#[derive(Copy, Clone, PartialEq, Eq, Structural, Debug)]
pub enum PSI {
    /// Processor pressure.
    Cpu,
    /// Memory pressure.
    Memory,
    /// Input-output pressure.
    Io,
}

impl PSI {
    /// The path of the file this resource's pressure record is read from,
    /// for specifications.
    pub open spec fn spec_path(self) -> Seq<char> {
        match self {
            PSI::Cpu => "/proc/pressure/cpu"@,
            PSI::Memory => "/proc/pressure/memory"@,
            PSI::Io => "/proc/pressure/io"@,
        }
    }

    /// The path of the file this resource's pressure record is read from.
    pub fn path(self) -> (r: &'static str)
        ensures
            r@ == self.spec_path(),
    {
        match self {
            PSI::Cpu => "/proc/pressure/cpu",
            PSI::Memory => "/proc/pressure/memory",
            PSI::Io => "/proc/pressure/io",
        }
    }

    /// Which resource a sub-specification names, if any.
    pub open spec fn spec_parse(s: Seq<u8>) -> Option<PSI> {
        if s == seq![99u8, 112u8, 117u8] || s == seq![99u8] {
            Some(PSI::Cpu)
        } else if s == seq![109u8, 101u8, 109u8, 111u8, 114u8, 121u8] || s == seq![
            109u8,
            101u8,
            109u8,
        ] || s == seq![109u8] {
            Some(PSI::Memory)
        } else if s == seq![105u8, 111u8] {
            Some(PSI::Io)
        } else {
            None
        }
    }

    /// Decode a sub-specification: `cpu`/`c`, `memory`/`mem`/`m` or `io`.
    pub fn parse(s: &[u8]) -> (r: Option<PSI>)
        ensures
            r == PSI::spec_parse(s@),
    {
        let cpu: Vec<u8> = vec![99u8, 112, 117];
        let c: Vec<u8> = vec![99u8];
        let memory: Vec<u8> = vec![109u8, 101, 109, 111, 114, 121];
        let mem: Vec<u8> = vec![109u8, 101, 109];
        let m: Vec<u8> = vec![109u8];
        let io: Vec<u8> = vec![105u8, 111];
        proof {
            assert(cpu@ =~= seq![99u8, 112u8, 117u8]);
            assert(c@ =~= seq![99u8]);
            assert(memory@ =~= seq![109u8, 101u8, 109u8, 111u8, 114u8, 121u8]);
            assert(mem@ =~= seq![109u8, 101u8, 109u8]);
            assert(m@ =~= seq![109u8]);
            assert(io@ =~= seq![105u8, 111u8]);
        }
        if bytes_eq(s, cpu.as_slice()) || bytes_eq(s, c.as_slice()) {
            Some(PSI::Cpu)
        } else if bytes_eq(s, memory.as_slice()) || bytes_eq(s, mem.as_slice()) || bytes_eq(
            s,
            m.as_slice(),
        ) {
            Some(PSI::Memory)
        } else if bytes_eq(s, io.as_slice()) {
            Some(PSI::Io)
        } else {
            None
        }
    }
}

} // verus!
