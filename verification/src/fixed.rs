//! Fixed-point decimal values.
//!
//! The sampled files carry small decimal numbers ("0.42", "1.23"). The core
//! stores them exactly, as a signed count of millionths, so that the
//! time-decayed averaging below is plain integer arithmetic. A value keeps
//! six fractional digits; further digits of a parsed literal are cut off.

use vstd::prelude::*;

use crate::decode::{
    all_digits, digit_val, digits_val, is_digit, lemma_digits_val_nonneg, FromBytes,
};

verus! {

/// Millionths in one unit.
pub const MICROS_PER_UNIT: i64 = 1000000;

/// A decimal number held as a count of millionths.
#[derive(Clone, Copy, PartialEq, Eq, Structural, Debug)]
pub struct Fixed {
    /// The signed count of millionths.
    pub micros: i64,
}

impl Fixed {
    /// The value `micros` millionths.
    pub fn from_micros(micros: i64) -> (r: Fixed)
        ensures
            r.spec_micros() == micros,
    {
        Fixed { micros }
    }

    /// This value as a count of millionths.
    pub fn as_micros(self) -> (r: i64)
        ensures
            r == self.spec_micros(),
    {
        self.micros
    }

    /// The count of millionths, for specifications.
    pub open spec fn spec_micros(self) -> int {
        self.micros as int
    }

    /// Decode a decimal literal: an optional `-`, one or more digits, and
    /// optionally a point followed by one or more digits.
    pub fn parse(s: &[u8]) -> (r: Option<Fixed>)
        ensures
            r == spec_parse_fixed(s@),
    {
        let (neg, body): (bool, &[u8]) = if s.len() > 0 && s[0] == 45 {
            (true, s.split_at(1).1)
        } else {
            (false, s)
        };
        assert(body@ =~= spec_body(s@));

        // Position of the decimal point, or the length if there is none.
        let mut d: usize = 0;
        while d < body.len() && body[d] != 46
            invariant
                0 <= d <= body@.len(),
                forall|i: int| 0 <= i < d ==> #[trigger] body@[i] != 46,
            decreases body@.len() - d,
        {
            d = d + 1;
        }
        proof {
            lemma_find_dot_at(body@, d as int);
        }

        let int_part = body.split_at(d).0;
        assert(int_part@ =~= spec_int_part(s@));
        let int_val = match scan_digits(int_part) {
            ScanDigits::NotDigits => {
                return None;
            },
            ScanDigits::Over => None,
            ScanDigits::Val(v) => Some(v),
        };

        let frac_val: u64 = if d == body.len() {
            assert(spec_frac_part(s@) =~= Seq::<u8>::empty());
            0
        } else {
            let frac_part = body.split_at(d + 1).1;
            assert(frac_part@ =~= spec_frac_part(s@));
            if frac_part.len() == 0 {
                return None;
            }
            match scan_frac_micros(frac_part) {
                Some(v) => v,
                None => {
                    return None;
                },
            }
        };

        proof {
            lemma_frac_micros_bound(spec_frac_part(s@));
            lemma_digits_val_nonneg(spec_int_part(s@));
        }
        let magnitude: u64 = match int_val {
            None => {
                // The integer part alone exceeds `u64::MAX` millionths of
                // a millionth of a unit, so the value cannot fit an `i64`.
                return None;
            },
            Some(iv) => match iv.checked_mul(1000000) {
                None => {
                    return None;
                },
                Some(m) => match m.checked_add(frac_val) {
                    None => {
                        return None;
                    },
                    Some(t) => t,
                },
            },
        };
        if magnitude > i64::MAX as u64 {
            return None;
        }
        if neg {
            Some(Fixed { micros: -(magnitude as i64) })
        } else {
            Some(Fixed { micros: magnitude as i64 })
        }
    }
}

impl FromBytes for Fixed {
    open spec fn spec_parse(s: Seq<u8>) -> Option<Fixed> {
        spec_parse_fixed(s)
    }

    fn parse_bytes(s: &[u8]) -> (r: Option<Fixed>) {
        Fixed::parse(s)
    }
}

/// The value `elapsed/span` of the way from `o` to `v`, as exact integer
/// arithmetic on millionths: `(v·elapsed + o·(span−elapsed)) / span`,
/// rounded towards zero.
pub open spec fn spec_blend(v: int, o: int, e: int, s: int) -> int
    recommends
        0 < s,
        0 <= e <= s,
{
    let n = v * e + o * (s - e);
    if n >= 0 {
        n / s
    } else {
        -((-n) / s)
    }
}

proof fn lemma_blend_in_range(vm: int, om: int, em: int, rm: int, bound: int, cap: int)
    by (nonlinear_arith)
    requires
        -bound - 1 <= vm <= bound,
        -bound - 1 <= om <= bound,
        0 <= em <= cap,
        0 <= rm <= cap,
        0 < bound,
        0 < cap,
    ensures
        (-bound - 1) * cap <= vm * em <= bound * cap,
        (-bound - 1) * cap <= om * rm <= bound * cap,
        vm * em + om * rm <= bound * (em + rm),
        vm * em + om * rm >= (-bound - 1) * (em + rm),
{
}

impl Fixed {
    /// Move `elapsed/span` of the way from `o` towards `v`.
    pub fn blend(v: Fixed, o: Fixed, elapsed: u64, span: u64) -> (r: Fixed)
        requires
            0 < span <= u32::MAX,
            elapsed <= span,
        ensures
            r.spec_micros() == spec_blend(
                v.spec_micros(),
                o.spec_micros(),
                elapsed as int,
                span as int,
            ),
    {
        let vm: i128 = v.micros as i128;
        let om: i128 = o.micros as i128;
        let em: i128 = elapsed as i128;
        let rm: i128 = (span - elapsed) as i128;
        proof {
            lemma_blend_in_range(
                vm as int,
                om as int,
                em as int,
                rm as int,
                i64::MAX as int,
                u32::MAX as int,
            );
        }
        let n: i128 = vm * em + om * rm;
        let su: u128 = span as u128;
        if n >= 0 {
            let q: u128 = (n as u128) / su;
            proof {
                vstd::arithmetic::div_mod::lemma_div_is_ordered(
                    n as int,
                    i64::MAX as int * span as int,
                    span as int,
                );
                vstd::arithmetic::div_mod::lemma_div_by_multiple(i64::MAX as int, span as int);
            }
            Fixed { micros: q as i64 }
        } else {
            let q: u128 = ((-n) as u128) / su;
            proof {
                assert(em as int + rm as int == span as int);
                assert(n as int >= (-(i64::MAX as int) - 1) * (em as int + rm as int));
                assert((-(i64::MAX as int) - 1) * (em as int + rm as int) == -((i64::MAX as int
                    + 1) * (em as int + rm as int))) by (nonlinear_arith);
                assert((-n) as int <= (i64::MAX as int + 1) * span as int);
                vstd::arithmetic::div_mod::lemma_div_is_ordered(
                    (-n) as int,
                    (i64::MAX as int + 1) * span as int,
                    span as int,
                );
                vstd::arithmetic::div_mod::lemma_div_by_multiple(
                    i64::MAX as int + 1,
                    span as int,
                );
            }
            let qn: i128 = -(q as i128);
            Fixed { micros: qn as i64 }
        }
    }
}

/// Outcome of scanning a digit string.
enum ScanDigits {
    /// Empty, or a byte is not a digit.
    NotDigits,
    /// All digits, but the value exceeds `u64::MAX`.
    Over,
    /// All digits, with this value.
    Val(u64),
}

/// Scan a base-ten digit string, reporting its value or why it has none.
fn scan_digits(s: &[u8]) -> (r: ScanDigits)
    ensures
        (r is NotDigits) <==> !(s@.len() > 0 && all_digits(s@)),
        (r is Over) <==> (s@.len() > 0 && all_digits(s@) && digits_val(s@) > u64::MAX),
        r matches ScanDigits::Val(v) ==> digits_val(s@) == v,
        (s@.len() > 0 && all_digits(s@) && digits_val(s@) <= u64::MAX) ==> (r matches
            ScanDigits::Val(v) && v == digits_val(s@)),
{
    if s.len() == 0 {
        return ScanDigits::NotDigits;
    }
    let mut acc: u64 = 0;
    let mut over: bool = false;
    let mut i: usize = 0;
    while i < s.len()
        invariant
            0 <= i <= s@.len(),
            all_digits(s@.subrange(0, i as int)),
            !over ==> acc == digits_val(s@.subrange(0, i as int)),
            over ==> digits_val(s@.subrange(0, i as int)) > u64::MAX,
        decreases s@.len() - i,
    {
        let b = s[i];
        if b < 48 || b > 57 {
            assert(!all_digits(s@));
            return ScanDigits::NotDigits;
        }
        proof {
            assert(s@.subrange(0, i + 1).drop_last() =~= s@.subrange(0, i as int));
            lemma_digits_val_nonneg(s@.subrange(0, i as int));
        }
        if !over {
            match acc.checked_mul(10) {
                Some(m) => match m.checked_add((b - 48) as u64) {
                    Some(a) => {
                        acc = a;
                    },
                    None => {
                        over = true;
                    },
                },
                None => {
                    over = true;
                },
            }
        }
        i = i + 1;
    }
    assert(s@.subrange(0, s@.len() as int) =~= s@);
    if over {
        ScanDigits::Over
    } else {
        ScanDigits::Val(acc)
    }
}

/// Scan a fractional digit string and give its value in millionths;
/// `None` when a byte is not a digit.
fn scan_frac_micros(s: &[u8]) -> (r: Option<u64>)
    requires
        s@.len() > 0,
    ensures
        r is Some <==> all_digits(s@),
        r matches Some(v) ==> v == frac_micros(s@) && v < 1000000,
{
    let mut acc: u64 = 0;
    let mut i: usize = 0;
    let six = if s.len() < 6 {
        s.len()
    } else {
        6
    };
    assert(six == spec_min6(s@.len() as int));
    while i < six
        invariant
            0 <= i <= six,
            six == spec_min6(s@.len() as int),
            six <= s@.len(),
            all_digits(s@.subrange(0, i as int)),
            acc == digits_val(s@.subrange(0, i as int)),
            acc < spec_pow10(i as nat),
        decreases six - i,
    {
        let b = s[i];
        if b < 48 || b > 57 {
            assert(!all_digits(s@));
            return None;
        }
        proof {
            assert(s@.subrange(0, i + 1).drop_last() =~= s@.subrange(0, i as int));
            lemma_pow10_step(i as nat);
            lemma_pow10_le(i as nat, 5);
            assert(spec_pow10(5nat) == 100000) by {
                reveal_with_fuel(spec_pow10, 6);
            }
        }
        acc = acc * 10 + (b - 48) as u64;
        i = i + 1;
    }
    // Validate the digits past the sixth; their value is cut off.
    let mut j: usize = six;
    while j < s.len()
        invariant
            six <= j <= s@.len(),
            forall|k: int| six <= k < j ==> is_digit(#[trigger] s@[k]),
        decreases s@.len() - j,
    {
        let b = s[j];
        if b < 48 || b > 57 {
            assert(!all_digits(s@));
            return None;
        }
        j = j + 1;
    }
    assert forall|k: int| 0 <= k < s@.len() implies is_digit(#[trigger] s@[k]) by {
        if k < six {
            assert(s@.subrange(0, six as int)[k] == s@[k]);
            assert(is_digit(s@.subrange(0, six as int)[k]));
        }
    }
    assert(all_digits(s@));
    // Pad short strings up to six places.
    let ghost base = digits_val(s@.subrange(0, six as int));
    let mut w: usize = i;
    proof {
        assert(spec_pow10(0nat) == 1);
        assert(base * spec_pow10(0nat) == base) by (nonlinear_arith);
    }
    while w < 6
        invariant
            i <= w <= 6,
            i == six,
            six == spec_min6(s@.len() as int),
            base == digits_val(s@.subrange(0, six as int)),
            acc == base * spec_pow10((w - six) as nat),
            acc < spec_pow10(w as nat),
        decreases 6 - w,
    {
        proof {
            lemma_pow10_step((w - six) as nat);
            lemma_pow10_step(w as nat);
            lemma_pow10_le(w as nat, 5);
            assert(spec_pow10(5nat) == 100000) by {
                reveal_with_fuel(spec_pow10, 6);
            }
            assert((base * spec_pow10((w - six) as nat)) * 10 == base * (spec_pow10(
                (w - six) as nat,
            ) * 10)) by (nonlinear_arith);
        }
        acc = acc * 10;
        w = w + 1;
    }
    proof {
        if s@.len() >= 6 {
            assert(s@.subrange(0, six as int) =~= s@.take(6));
        } else {
            assert(s@.subrange(0, six as int) =~= s@);
        }
        assert(spec_pow10(6nat) == 1000000) by {
            reveal_with_fuel(spec_pow10, 7);
        }
    }
    Some(acc)
}

/// Ten to the `n`th.
pub open spec fn spec_pow10(n: nat) -> int
    decreases n,
{
    if n == 0 {
        1
    } else {
        10 * spec_pow10((n - 1) as nat)
    }
}

proof fn lemma_pow10_step(n: nat)
    ensures
        spec_pow10(n + 1) == spec_pow10(n) * 10,
        spec_pow10(n) >= 1,
    decreases n,
{
    if n > 0 {
        lemma_pow10_step((n - 1) as nat);
    }
}

/// The value of a digit string is below ten to its length.
proof fn lemma_digits_val_pow_bound(s: Seq<u8>)
    requires
        all_digits(s),
    ensures
        digits_val(s) < spec_pow10(s.len()),
        digits_val(s) >= 0,
    decreases s.len(),
{
    if s.len() == 0 {
    } else {
        assert(all_digits(s.drop_last())) by {
            assert(forall|i: int|
                0 <= i < s.len() - 1 ==> #[trigger] s.drop_last()[i] == s[i]);
        }
        lemma_digits_val_pow_bound(s.drop_last());
        lemma_pow10_step((s.len() - 1) as nat);
    }
}

/// The smaller of six and `n`.
pub open spec fn spec_min6(n: int) -> int {
    if n < 6 {
        n
    } else {
        6
    }
}

/// The value, in millionths, of the digits after the decimal point; places
/// past the sixth are cut off.
pub open spec fn frac_micros(fp: Seq<u8>) -> int {
    if fp.len() >= 6 {
        digits_val(fp.take(6))
    } else {
        digits_val(fp) * spec_pow10((6 - fp.len()) as nat)
    }
}

/// A fractional part is below one unit.
proof fn lemma_frac_micros_bound(fp: Seq<u8>)
    requires
        all_digits(fp),
    ensures
        0 <= frac_micros(fp) < 1000000,
{
    assert(spec_pow10(6nat) == 1000000) by {
        reveal_with_fuel(spec_pow10, 7);
    }
    if fp.len() >= 6 {
        assert(all_digits(fp.take(6))) by {
            assert(forall|i: int| 0 <= i < 6 ==> #[trigger] fp.take(6)[i] == fp[i]);
        }
        lemma_digits_val_pow_bound(fp.take(6));
    } else {
        lemma_digits_val_pow_bound(fp);
        lemma_pow10_mul_bound(fp.len(), (6 - fp.len()) as nat);
        lemma_pow10_step((6 - fp.len()) as nat);
        vstd::arithmetic::mul::lemma_mul_nonnegative(
            digits_val(fp),
            spec_pow10((6 - fp.len()) as nat),
        );
        vstd::arithmetic::mul::lemma_mul_strict_inequality(
            digits_val(fp),
            spec_pow10(fp.len()),
            spec_pow10((6 - fp.len()) as nat),
        );
        vstd::arithmetic::mul::lemma_mul_is_commutative(
            spec_pow10(fp.len()),
            spec_pow10((6 - fp.len()) as nat),
        );
    }
}

/// Powers of ten grow with the exponent.
proof fn lemma_pow10_le(a: nat, b: nat)
    requires
        a <= b,
    ensures
        spec_pow10(a) <= spec_pow10(b),
    decreases b,
{
    if a < b {
        lemma_pow10_le(a, (b - 1) as nat);
        lemma_pow10_step((b - 1) as nat);
    }
}

proof fn lemma_pow10_mul_bound(a: nat, b: nat)
    ensures
        spec_pow10(a) * spec_pow10(b) == spec_pow10(a + b),
    decreases b,
{
    if b > 0 {
        lemma_pow10_mul_bound(a, (b - 1) as nat);
        lemma_pow10_step((a + b - 1) as nat);
        assert(spec_pow10(a) * spec_pow10(b) == spec_pow10(a) * (10 * spec_pow10((b - 1) as nat)))
            by {
            lemma_pow10_step((b - 1) as nat);
        }
        assert(spec_pow10(a) * (10 * spec_pow10((b - 1) as nat)) == (spec_pow10(a) * spec_pow10(
            (b - 1) as nat,
        )) * 10) by (nonlinear_arith);
    }
}

/// The first index of a decimal point in `s`, or the length if there is none.
pub open spec fn find_dot(s: Seq<u8>) -> int
    decreases s.len(),
{
    if s.len() == 0 {
        0
    } else if s[0] == 46 {
        0
    } else {
        1 + find_dot(s.drop_first())
    }
}

/// A position with no dot before it, and a dot or the end at it, is where
/// [`find_dot`] points.
proof fn lemma_find_dot_at(s: Seq<u8>, p: int)
    requires
        0 <= p <= s.len(),
        forall|i: int| 0 <= i < p ==> #[trigger] s[i] != 46,
        p < s.len() ==> s[p] == 46,
    ensures
        find_dot(s) == p,
    decreases s.len(),
{
    if s.len() == 0 {
    } else if s[0] == 46 {
        assert(p == 0);
    } else {
        assert(p >= 1);
        assert(forall|i: int| 0 <= i < p - 1 ==> #[trigger] s.drop_first()[i] != 46);
        lemma_find_dot_at(s.drop_first(), p - 1);
    }
}

/// True when the literal opens with a minus sign.
pub open spec fn spec_sign(s: Seq<u8>) -> bool {
    s.len() > 0 && s[0] == 45
}

/// The literal with any minus sign removed.
pub open spec fn spec_body(s: Seq<u8>) -> Seq<u8> {
    if spec_sign(s) {
        s.drop_first()
    } else {
        s
    }
}

/// The digits before the decimal point.
pub open spec fn spec_int_part(s: Seq<u8>) -> Seq<u8> {
    spec_body(s).take(find_dot(spec_body(s)))
}

/// The digits after the decimal point; empty if there is no point.
pub open spec fn spec_frac_part(s: Seq<u8>) -> Seq<u8> {
    let b = spec_body(s);
    let d = find_dot(b);
    if d == b.len() {
        Seq::empty()
    } else {
        b.skip(d + 1)
    }
}

/// True when `s` is a well-formed decimal literal.
pub open spec fn valid_decimal(s: Seq<u8>) -> bool {
    let b = spec_body(s);
    let d = find_dot(b);
    &&& spec_int_part(s).len() > 0
    &&& all_digits(spec_int_part(s))
    &&& (d == b.len() || (spec_frac_part(s).len() > 0 && all_digits(spec_frac_part(s))))
}

/// The magnitude of the literal, in millionths.
pub open spec fn spec_magnitude_micros(s: Seq<u8>) -> int {
    digits_val(spec_int_part(s)) * 1000000 + frac_micros(spec_frac_part(s))
}

/// What [`Fixed::parse`] returns: the literal's value when it is well formed
/// and fits, and nothing otherwise.
pub open spec fn spec_parse_fixed(s: Seq<u8>) -> Option<Fixed> {
    if valid_decimal(s) && spec_magnitude_micros(s) <= i64::MAX {
        if spec_sign(s) {
            Some(Fixed { micros: (-spec_magnitude_micros(s)) as i64 })
        } else {
            Some(Fixed { micros: spec_magnitude_micros(s) as i64 })
        }
    } else {
        None
    }
}

} // verus!
