//! Decoding of decimal numbers from raw bytes.
//!
//! The sampled files are tiny ASCII texts; the processors cut tokens out of
//! them and decode each token with the functions here. The accepted grammar
//! is deliberately plain: an unsigned integer is one or more ASCII digits, and
//! nothing else.

use vstd::prelude::*;

verus! {

/// True for the ASCII digits `'0'..='9'`.
pub open spec fn is_digit(b: u8) -> bool {
    48 <= b && b <= 57
}

/// The numeric value of one ASCII digit.
pub open spec fn digit_val(b: u8) -> int
    recommends
        is_digit(b),
{
    b - 48
}

/// True when every byte of `s` is an ASCII digit.
pub open spec fn all_digits(s: Seq<u8>) -> bool {
    forall|i: int| 0 <= i < s.len() ==> is_digit(#[trigger] s[i])
}

/// The value of a digit string read in base ten, most significant first.
pub open spec fn digits_val(s: Seq<u8>) -> int
    decreases s.len(),
{
    if s.len() == 0 {
        0
    } else {
        digits_val(s.drop_last()) * 10 + digit_val(s.last())
    }
}

/// A digit string never has a negative value.
pub proof fn lemma_digits_val_nonneg(s: Seq<u8>)
    requires
        all_digits(s),
    ensures
        digits_val(s) >= 0,
    decreases s.len(),
{
    if s.len() > 0 {
        assert(all_digits(s.drop_last())) by {
            assert(forall|i: int|
                0 <= i < s.len() - 1 ==> #[trigger] s.drop_last()[i] == s[i]);
        }
        lemma_digits_val_nonneg(s.drop_last());
    }
}

/// What [`parse_u64`] returns: the value of the digit string, if `s` is one
/// or more digits and the value fits in a `u64`.
pub open spec fn spec_parse_u64(s: Seq<u8>) -> Option<u64> {
    if s.len() > 0 && all_digits(s) && digits_val(s) <= u64::MAX {
        Some(digits_val(s) as u64)
    } else {
        None
    }
}

/// Decode an unsigned base-ten integer from `s`.
pub fn parse_u64(s: &[u8]) -> (r: Option<u64>)
    ensures
        r == spec_parse_u64(s@),
{
    if s.len() == 0 {
        return None;
    }
    let mut acc: u64 = 0;
    let mut over: bool = false;
    let mut i: usize = 0;
    while i < s.len()
        invariant
            0 < s@.len(),
            0 <= i <= s@.len(),
            all_digits(s@.subrange(0, i as int)),
            !over ==> acc == digits_val(s@.subrange(0, i as int)),
            over ==> digits_val(s@.subrange(0, i as int)) > u64::MAX,
        decreases s@.len() - i,
    {
        let b = s[i];
        if b < 48 || b > 57 {
            assert(!all_digits(s@));
            return None;
        }
        proof {
            assert(s@.subrange(0, i + 1).drop_last() =~= s@.subrange(0, i as int));
            lemma_digits_val_nonneg(s@.subrange(0, i as int));
        }
        if !over {
            match acc.checked_mul(10) {
                Some(m) => match m.checked_add((b - 48) as u64) {
                    Some(a) => {
                        acc = a;
                    },
                    None => {
                        over = true;
                    },
                },
                None => {
                    over = true;
                },
            }
        }
        i = i + 1;
    }
    assert(s@.subrange(0, s@.len() as int) =~= s@);
    if over {
        None
    } else {
        Some(acc)
    }
}

/// A value decodable from a byte token.
pub trait FromBytes: Sized {
    /// What [`FromBytes::parse_bytes`] returns, for specifications.
    spec fn spec_parse(s: Seq<u8>) -> Option<Self>;

    /// Decode a value from the bytes of one token.
    fn parse_bytes(s: &[u8]) -> (r: Option<Self>)
        ensures
            r == Self::spec_parse(s@),
    ;
}

impl FromBytes for u64 {
    open spec fn spec_parse(s: Seq<u8>) -> Option<u64> {
        spec_parse_u64(s)
    }

    fn parse_bytes(s: &[u8]) -> (r: Option<u64>) {
        parse_u64(s)
    }
}

/// The classes of separator bytes that tokens are cut at.
#[derive(Clone, Copy, PartialEq, Eq, Structural, Debug)]
pub enum SplitKind {
    /// ASCII whitespace: space, tab, newline, form feed, carriage return.
    Whitespace,
    /// ASCII control bytes, including newline and the delete byte.
    Control,
    /// The newline byte alone.
    Newline,
    /// The colon byte alone.
    Colon,
    /// The comma byte alone.
    Comma,
}

impl SplitKind {
    /// Whether `b` separates tokens of this kind.
    pub open spec fn spec_splits(self, b: u8) -> bool {
        match self {
            SplitKind::Whitespace => b == 9 || b == 10 || b == 12 || b == 13 || b == 32,
            SplitKind::Control => b < 32 || b == 127,
            SplitKind::Newline => b == 10,
            SplitKind::Colon => b == 58,
            SplitKind::Comma => b == 44,
        }
    }

    /// Whether `b` separates tokens of this kind.
    pub fn splits(self, b: u8) -> (r: bool)
        ensures
            r == self.spec_splits(b),
    {
        match self {
            SplitKind::Whitespace => b == 9 || b == 10 || b == 12 || b == 13 || b == 32,
            SplitKind::Control => b < 32 || b == 127,
            SplitKind::Newline => b == 10,
            SplitKind::Colon => b == 58,
            SplitKind::Comma => b == 44,
        }
    }
}

/// A position with no separator before it, holding one unless at the end,
/// is where [`first_sep`] points.
pub proof fn lemma_first_sep_at(k: SplitKind, s: Seq<u8>, p: int)
    requires
        0 <= p <= s.len(),
        forall|i: int| 0 <= i < p ==> !k.spec_splits(#[trigger] s[i]),
        p < s.len() ==> k.spec_splits(s[p]),
    ensures
        first_sep(k, s) == p,
    decreases s.len(),
{
    if s.len() == 0 {
    } else if k.spec_splits(s[0]) {
        assert(p == 0);
    } else {
        assert(p >= 1);
        assert(forall|i: int| 0 <= i < p - 1 ==> !k.spec_splits(#[trigger] s.drop_first()[i]));
        if p < s.len() {
            assert(s.drop_first()[p - 1] == s[p]);
        }
        lemma_first_sep_at(k, s.drop_first(), p - 1);
    }
}

/// The first index of a separator byte in `s`, or the length if none.
pub open spec fn first_sep(k: SplitKind, s: Seq<u8>) -> int
    decreases s.len(),
{
    if s.len() == 0 {
        0
    } else if k.spec_splits(s[0]) {
        0
    } else {
        1 + first_sep(k, s.drop_first())
    }
}

/// Where [`first_sep`] points: within the bytes, at a separator unless at
/// the end, with no separator before it.
pub proof fn lemma_first_sep_bounds(k: SplitKind, s: Seq<u8>)
    ensures
        0 <= first_sep(k, s) <= s.len(),
        first_sep(k, s) < s.len() ==> k.spec_splits(s[first_sep(k, s)]),
        forall|i: int| 0 <= i < first_sep(k, s) ==> !k.spec_splits(#[trigger] s[i]),
    decreases s.len(),
{
    if s.len() > 0 && !k.spec_splits(s[0]) {
        lemma_first_sep_bounds(k, s.drop_first());
        if first_sep(k, s) < s.len() {
            assert(s[first_sep(k, s)] == s.drop_first()[first_sep(k, s.drop_first())]);
        }
        assert forall|i: int| 0 <= i < first_sep(k, s) implies !k.spec_splits(
            #[trigger] s[i],
        ) by {
            if i > 0 {
                assert(s[i] == s.drop_first()[i - 1]);
            }
        }
    }
}

/// The tokens of `s`, cut at every separator byte; one token more than
/// there are separators, so an empty input has one empty token.
pub open spec fn spec_split(k: SplitKind, s: Seq<u8>) -> Seq<Seq<u8>>
    decreases s.len(),
    via spec_split_dec
{
    let i = first_sep(k, s);
    if i == s.len() {
        seq![s]
    } else {
        seq![s.take(i)] + spec_split(k, s.skip(i + 1))
    }
}

#[via_fn]
proof fn spec_split_dec(k: SplitKind, s: Seq<u8>) {
    lemma_first_sep_bounds(k, s);
}

/// Splitting never yields an empty token list.
pub proof fn lemma_split_nonempty(k: SplitKind, s: Seq<u8>)
    ensures
        spec_split(k, s).len() >= 1,
{
    lemma_first_sep_bounds(k, s);
}

/// How splitting consumes its first byte: a separator opens with an empty
/// token, any other byte joins the first token of the rest.
pub proof fn lemma_split_cons(k: SplitKind, s: Seq<u8>)
    requires
        s.len() > 0,
    ensures
        k.spec_splits(s[0]) ==> spec_split(k, s) == seq![Seq::<u8>::empty()] + spec_split(
            k,
            s.drop_first(),
        ),
        !k.spec_splits(s[0]) ==> spec_split(k, s.drop_first()).len() >= 1 && spec_split(k, s)
            == seq![seq![s[0]] + spec_split(k, s.drop_first())[0]] + spec_split(
            k,
            s.drop_first(),
        ).drop_first(),
{
    lemma_first_sep_bounds(k, s);
    lemma_first_sep_bounds(k, s.drop_first());
    lemma_split_nonempty(k, s.drop_first());
    let st = s.drop_first();
    if k.spec_splits(s[0]) {
        assert(first_sep(k, s) == 0);
        assert(s.take(0) =~= Seq::<u8>::empty());
        assert(s.skip(1) =~= st);
        assert(spec_split(k, s) =~~= seq![Seq::<u8>::empty()] + spec_split(k, st));
    } else {
        let i = first_sep(k, s);
        assert(i == 1 + first_sep(k, st));
        if i == s.len() {
            assert(first_sep(k, st) == st.len());
            assert(spec_split(k, st) =~~= seq![st]);
            assert(seq![s[0]] + st =~= s);
            assert(spec_split(k, s) =~~= seq![seq![s[0]] + spec_split(k, st)[0]] + spec_split(
                k,
                st,
            ).drop_first());
        } else {
            assert(s.take(i) =~= seq![s[0]] + st.take(i - 1));
            assert(s.skip(i + 1) =~= st.skip(i));
            assert(spec_split(k, s) =~~= seq![seq![s[0]] + spec_split(k, st)[0]] + spec_split(
                k,
                st,
            ).drop_first());
        }
    }
}

/// The token list with `c` joined onto the front of the first token.
pub open spec fn prepend_first(c: Seq<u8>, ss: Seq<Seq<u8>>) -> Seq<Seq<u8>>
    recommends
        ss.len() >= 1,
{
    seq![c + ss[0]] + ss.drop_first()
}

/// The bytes of each token of `s`, in order.
pub fn split_bytes(k: SplitKind, s: &[u8]) -> (r: Vec<Vec<u8>>)
    ensures
        r@.map_values(|v: Vec<u8>| v@) == spec_split(k, s@),
{
    let mut out: Vec<Vec<u8>> = Vec::new();
    let mut cur: Vec<u8> = Vec::new();
    let mut i: usize = 0;
    proof {
        assert(s@.skip(0) =~= s@);
    }
    while i < s.len()
        invariant
            0 <= i <= s@.len(),
            spec_split(k, s@.skip(i as int)).len() >= 1,
            spec_split(k, s@) =~~= out@.map_values(|v: Vec<u8>| v@) + prepend_first(
                cur@,
                spec_split(k, s@.skip(i as int)),
            ),
        decreases s@.len() - i,
    {
        let ghost pre = s@.skip(i as int);
        proof {
            lemma_split_cons(k, pre);
            lemma_split_nonempty(k, s@.skip(i + 1));
            assert(pre[0] == s@[i as int]);
            assert(pre.drop_first() =~= s@.skip(i + 1));
        }
        let b = s[i];
        if k.splits(b) {
            let full = cur;
            cur = Vec::new();
            out.push(full);
            proof {
                assert(out@.map_values(|v: Vec<u8>| v@) =~~= out@.drop_last().map_values(
                    |v: Vec<u8>| v@,
                ).push(full@));
                assert(full@ + Seq::<u8>::empty() =~= full@);
                assert(cur@ + spec_split(k, s@.skip(i + 1))[0] =~= spec_split(
                    k,
                    s@.skip(i + 1),
                )[0]);
                assert(spec_split(k, s@) =~~= out@.map_values(|v: Vec<u8>| v@) + prepend_first(
                    cur@,
                    spec_split(k, s@.skip(i + 1)),
                ));
            }
        } else {
            cur.push(b);
            proof {
                assert(cur@ + spec_split(k, s@.skip(i + 1))[0] =~= cur@.drop_last() + (seq![
                    s@[i as int],
                ] + spec_split(k, s@.skip(i + 1))[0]));
                assert(spec_split(k, s@) =~~= out@.map_values(|v: Vec<u8>| v@) + prepend_first(
                    cur@,
                    spec_split(k, s@.skip(i + 1)),
                ));
            }
        }
        i = i + 1;
    }
    proof {
        assert(s@.skip(i as int) =~= Seq::<u8>::empty());
        assert(first_sep(k, Seq::<u8>::empty()) == 0);
        assert(spec_split(k, s@.skip(i as int)) =~~= seq![Seq::<u8>::empty()]);
        assert(cur@ + Seq::<u8>::empty() =~= cur@);
    }
    let last = cur;
    out.push(last);
    proof {
        assert(out@.map_values(|v: Vec<u8>| v@) =~~= out@.drop_last().map_values(
            |v: Vec<u8>| v@,
        ).push(last@));
        assert(spec_split(k, s@) =~~= out@.map_values(|v: Vec<u8>| v@));
    }
    out
}

/// How many separator bytes open `s`.
pub open spec fn spec_leading(k: SplitKind, s: Seq<u8>) -> int
    decreases s.len(),
{
    if s.len() == 0 {
        0
    } else if !k.spec_splits(s[0]) {
        0
    } else {
        1 + spec_leading(k, s.drop_first())
    }
}

/// How many separator bytes close `s`.
pub open spec fn spec_trailing(k: SplitKind, s: Seq<u8>) -> int
    decreases s.len(),
{
    if s.len() == 0 {
        0
    } else if !k.spec_splits(s.last()) {
        0
    } else {
        1 + spec_trailing(k, s.drop_last())
    }
}

/// `s` with leading and trailing separator bytes cut off.
pub open spec fn spec_trim(k: SplitKind, s: Seq<u8>) -> Seq<u8> {
    let a = spec_leading(k, s);
    let b = spec_trailing(k, s);
    if a + b >= s.len() {
        Seq::empty()
    } else {
        s.subrange(a, s.len() - b)
    }
}

proof fn lemma_leading_at(k: SplitKind, s: Seq<u8>, p: int)
    requires
        0 <= p <= s.len(),
        forall|i: int| 0 <= i < p ==> k.spec_splits(#[trigger] s[i]),
        p < s.len() ==> !k.spec_splits(s[p]),
    ensures
        spec_leading(k, s) == p,
    decreases s.len(),
{
    if s.len() == 0 {
    } else if !k.spec_splits(s[0]) {
        assert(p == 0);
    } else {
        assert(s[0] == s[0]);
        assert(p >= 1);
        assert(forall|i: int| 0 <= i < p - 1 ==> k.spec_splits(#[trigger] s.drop_first()[i]));
        if p < s.len() {
            assert(s.drop_first()[p - 1] == s[p]);
        }
        lemma_leading_at(k, s.drop_first(), p - 1);
    }
}

proof fn lemma_trailing_nonneg(k: SplitKind, s: Seq<u8>)
    ensures
        spec_trailing(k, s) >= 0,
    decreases s.len(),
{
    if s.len() > 0 && k.spec_splits(s.last()) {
        lemma_trailing_nonneg(k, s.drop_last());
    }
}

proof fn lemma_trailing_at(k: SplitKind, s: Seq<u8>, p: int)
    requires
        0 <= p <= s.len(),
        forall|i: int| s.len() - p <= i < s.len() ==> k.spec_splits(#[trigger] s[i]),
        p < s.len() ==> !k.spec_splits(s[s.len() - p - 1]),
    ensures
        spec_trailing(k, s) == p,
    decreases s.len(),
{
    if s.len() == 0 {
    } else if !k.spec_splits(s.last()) {
        assert(p == 0);
    } else {
        assert(p >= 1);
        assert(forall|i: int|
            s.drop_last().len() - (p - 1) <= i < s.drop_last().len() ==> k.spec_splits(
                #[trigger] s.drop_last()[i],
            ));
        if p < s.len() {
            assert(s.drop_last()[s.len() - p - 1] == s[s.len() - p - 1]);
        }
        lemma_trailing_at(k, s.drop_last(), p - 1);
    }
}

/// `s` with leading and trailing separator bytes of kind `k` cut off.
#[verifier::loop_isolation(false)]
pub fn trim(k: SplitKind, s: &[u8]) -> (r: &[u8])
    ensures
        r@ == spec_trim(k, s@),
{
    let mut a: usize = 0;
    while a < s.len() && k.splits(s[a])
        invariant
            0 <= a <= s@.len(),
            forall|i: int| 0 <= i < a ==> k.spec_splits(#[trigger] s@[i]),
        decreases s@.len() - a,
    {
        a = a + 1;
    }
    proof {
        lemma_leading_at(k, s@, a as int);
    }
    if a == s.len() {
        proof {
            lemma_trailing_nonneg(k, s@);
            assert(s@.subrange(0, 0) =~= Seq::<u8>::empty());
        }
        return &s[0..0];
    }
    let mut e: usize = s.len();
    while e > a && k.splits(s[e - 1])
        invariant
            a <= e <= s@.len(),
            forall|i: int| e <= i < s@.len() ==> k.spec_splits(#[trigger] s@[i]),
        decreases e,
    {
        e = e - 1;
    }
    proof {
        assert(!k.spec_splits(s@[e - 1]));
        lemma_trailing_at(k, s@, s@.len() - e as int);
    }
    &s[a..e]
}

/// Whether two byte strings hold the same bytes.
pub fn bytes_eq(a: &[u8], b: &[u8]) -> (r: bool)
    ensures
        r == (a@ == b@),
{
    if a.len() != b.len() {
        proof {
            assert(a@ != b@);
        }
        return false;
    }
    let mut i: usize = 0;
    while i < a.len()
        invariant
            0 <= i <= a@.len(),
            a@.len() == b@.len(),
            forall|j: int| 0 <= j < i ==> a@[j] == b@[j],
        decreases a@.len() - i,
    {
        if a[i] != b[i] {
            proof {
                assert(a@[i as int] != b@[i as int]);
            }
            return false;
        }
        i = i + 1;
    }
    proof {
        assert(a@ =~= b@);
    }
    true
}

/// The first token with any bytes in it, if there is one.
pub open spec fn first_nonempty(ss: Seq<Seq<u8>>) -> Option<Seq<u8>>
    decreases ss.len(),
{
    if ss.len() == 0 {
        None
    } else if ss[0].len() > 0 {
        Some(ss[0])
    } else {
        first_nonempty(ss.drop_first())
    }
}

/// The first word of `s` when cut at separators of kind `k`: the first
/// token with any bytes in it.
pub open spec fn spec_first_token(k: SplitKind, s: Seq<u8>) -> Option<Seq<u8>> {
    first_nonempty(spec_split(k, s))
}

/// Cut `s` at separators of kind `k` and give the first nonempty token.
pub fn first_token(k: SplitKind, s: &[u8]) -> (r: Option<Vec<u8>>)
    ensures
        match r {
            Some(t) => spec_first_token(k, s@) == Some(t@),
            None => spec_first_token(k, s@) is None,
        },
{
    let mut parts = split_bytes(k, s);
    let ghost full = parts@.map_values(|v: Vec<u8>| v@);
    let mut idx: usize = 0;
    proof {
        assert(full.skip(0) =~~= full);
    }
    while idx < parts.len()
        invariant
            0 <= idx <= parts@.len(),
            full == parts@.map_values(|v: Vec<u8>| v@),
            first_nonempty(full) == first_nonempty(full.skip(idx as int)),
            spec_first_token(k, s@) == first_nonempty(full),
        decreases parts@.len() - idx,
    {
        proof {
            assert(full.skip(idx as int)[0] == full[idx as int]);
            assert(full.skip(idx as int).drop_first() =~~= full.skip(idx + 1));
        }
        if parts[idx].len() > 0 {
            let t = parts.remove(idx);
            return Some(t);
        }
        idx = idx + 1;
    }
    proof {
        assert(full.skip(idx as int) =~~= Seq::<Seq<u8>>::empty());
    }
    None
}

} // verus!
