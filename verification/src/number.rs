//! Numbers of the expression language.
//!
//! A number is NaN, an infinity, or a finite decimal held exactly as a digit
//! sequence `d1 d2 ... dn` (no leading or trailing zero digit) and a point
//! position `p`, standing for `0.d1d2...dn * 10^p`; zero has no digits.
//! Magnitudes at or above `10^309` become infinite and those below
//! `10^-324` become zero, the range of IEEE doubles at digit granularity.
use crate::text::{chars_of, trim_chars, trim_of, ascii_digit, ascii_hex_digit, decimal_digits, digit_chars, digit_to_char, digits_of_u64, is_ascii_digit, is_ascii_hex_digit, lemma_decimal_digits_small, nat_text, push_char, push_decimal, push_str};
use vstd::prelude::*;
use vstd::string::*;

verus! {

pub const MAX_POINT: i64 = 309;

pub const MIN_POINT: i64 = -323;

/// Largest exponent magnitude that is kept exactly while reading exponent
/// digits; anything larger lands outside the finite range either way.
pub const EXP_CAP: i128 = 1_000_000_000_000_000_000_000_000_000_000;

/// The stored form of a number.
#[derive(Debug, PartialEq)]
pub enum NumRepr {
    NaN,
    /// An infinity; `true` for the negative one.
    Infinite(bool),
    Finite { negative: bool, digits: Vec<u8>, point: i64 },
}

/// A number of the expression language, always in canonical form.
#[derive(Debug, PartialEq)]
pub struct Number {
    repr: NumRepr,
}

pub ghost enum SpecNumber {
    NaN,
    Infinite(bool),
    Finite(bool, Seq<u8>, int),
}

impl View for NumRepr {
    type V = SpecNumber;

    open spec fn view(&self) -> SpecNumber {
        match self {
            NumRepr::NaN => SpecNumber::NaN,
            NumRepr::Infinite(n) => SpecNumber::Infinite(*n),
            NumRepr::Finite { negative, digits, point } => SpecNumber::Finite(
                *negative,
                digits@,
                *point as int,
            ),
        }
    }
}

impl View for Number {
    type V = SpecNumber;

    closed spec fn view(&self) -> SpecNumber {
        self.repr@
    }
}

impl Number {
    #[verifier::type_invariant]
    closed spec fn inv(self) -> bool {
        number_wf(self.repr@)
    }

    fn from_repr(repr: NumRepr) -> (r: Number)
        requires
            number_wf(repr@),
        ensures
            r@ == repr@,
    {
        Number { repr }
    }

    /// Every number is in canonical form.
    pub fn canonical(&self)
        ensures
            number_wf(self@),
    {
        proof {
            use_type_invariant(self);
        }
    }

    /// NaN.
    pub fn nan() -> (r: Number)
        ensures
            r@ == SpecNumber::NaN,
    {
        Number::from_repr(NumRepr::NaN)
    }

    /// An infinity (`negative` selects the sign).
    pub fn infinity(negative: bool) -> (r: Number)
        ensures
            r@ == SpecNumber::Infinite(negative),
    {
        Number::from_repr(NumRepr::Infinite(negative))
    }
}

pub open spec fn digits_wf(ds: Seq<u8>) -> bool {
    forall|i: int| 0 <= i < ds.len() ==> #[trigger] ds[i] < 10
}

/// A number in canonical form.
pub open spec fn number_wf(n: SpecNumber) -> bool {
    match n {
        SpecNumber::Finite(neg, ds, p) => {
            &&& digits_wf(ds)
            &&& ds.len() == 0 ==> !neg && p == 0
            &&& ds.len() > 0 ==> ds[0] != 0 && ds.last() != 0 && MIN_POINT <= p <= MAX_POINT
        },
        _ => true,
    }
}

pub open spec fn spec_zero() -> SpecNumber {
    SpecNumber::Finite(false, Seq::empty(), 0)
}

pub open spec fn lead_zeros(ds: Seq<u8>) -> nat
    decreases ds.len(),
{
    if ds.len() > 0 && ds[0] == 0 {
        1 + lead_zeros(ds.drop_first())
    } else {
        0
    }
}

pub open spec fn trail_zeros(ds: Seq<u8>) -> nat
    decreases ds.len(),
{
    if ds.len() > 0 && ds.last() == 0 {
        1 + trail_zeros(ds.drop_last())
    } else {
        0
    }
}

/// The canonical number `(-1)^neg * 0.ds * 10^point`.
pub open spec fn normalize(neg: bool, ds: Seq<u8>, point: int) -> SpecNumber {
    let lz = lead_zeros(ds);
    if lz == ds.len() {
        spec_zero()
    } else {
        let core = ds.subrange(lz as int, ds.len() - trail_zeros(ds));
        let p = point - lz;
        if p > MAX_POINT {
            SpecNumber::Infinite(neg)
        } else if p < MIN_POINT {
            spec_zero()
        } else {
            SpecNumber::Finite(neg, core, p)
        }
    }
}

pub proof fn lemma_lead_zeros(ds: Seq<u8>, i: int)
    requires
        0 <= i <= ds.len(),
        forall|j: int| 0 <= j < i ==> #[trigger] ds[j] == 0,
        i == ds.len() || ds[i] != 0,
    ensures
        lead_zeros(ds) == i,
    decreases i,
{
    if i > 0 {
        lemma_lead_zeros(ds.drop_first(), i - 1);
    }
}

pub proof fn lemma_trail_zeros(ds: Seq<u8>, i: int)
    requires
        0 <= i <= ds.len(),
        forall|j: int| ds.len() - i <= j < ds.len() ==> #[trigger] ds[j] == 0,
        i == ds.len() || ds[ds.len() - i - 1] != 0,
    ensures
        trail_zeros(ds) == i,
    decreases i,
{
    if i > 0 {
        lemma_trail_zeros(ds.drop_last(), i - 1);
    }
}

/// Builds the canonical number `(-1)^neg * 0.ds * 10^point`.
pub fn make_number(neg: bool, ds: &Vec<u8>, point: i128) -> (r: Number)
    requires
        digits_wf(ds@),
        -EXP_CAP * 4 <= point <= EXP_CAP * 4,
    ensures
        r@ == normalize(neg, ds@, point as int),
        number_wf(r@),
{
    let n = ds.len();
    let mut lz: usize = 0;
    while lz < n && ds[lz] == 0
        invariant
            lz <= n == ds@.len(),
            forall|j: int| 0 <= j < lz ==> #[trigger] ds@[j] == 0,
        decreases n - lz,
    {
        lz += 1;
    }
    proof {
        lemma_lead_zeros(ds@, lz as int);
    }
    if lz == n {
        return zero();
    }
    let mut end: usize = n;
    while end > lz && ds[end - 1] == 0
        invariant
            lz < n == ds@.len(),
            lz <= end <= n,
            ds@[lz as int] != 0,
            forall|j: int| end <= j < n ==> #[trigger] ds@[j] == 0,
        decreases end,
    {
        end -= 1;
    }
    proof {
        if end == lz {
            assert(ds@[lz as int] == 0);
        }
        lemma_trail_zeros(ds@, (n - end) as int);
    }
    let p: i128 = point - lz as i128;
    if p > MAX_POINT as i128 {
        return Number::infinity(neg);
    }
    if p < MIN_POINT as i128 {
        return zero();
    }
    let mut core: Vec<u8> = Vec::new();
    let mut i = lz;
    while i < end
        invariant
            lz <= i <= end <= n == ds@.len(),
            core@ == ds@.subrange(lz as int, i as int),
        decreases end - i,
    {
        core.push(ds[i]);
        i += 1;
    }
    Number::from_repr(NumRepr::Finite { negative: neg, digits: core, point: p as i64 })
}

/// The value of an ASCII decimal digit character.
pub open spec fn digit_value(c: char) -> u8 {
    ((c as int) - ('0' as int)) as u8
}

pub open spec fn digit_values(cs: Seq<char>) -> Seq<u8> {
    cs.map_values(|c: char| digit_value(c))
}

/// The natural number written by decimal digit characters.
pub open spec fn decimal_value(cs: Seq<char>) -> nat
    decreases cs.len(),
{
    if cs.len() == 0 {
        0
    } else {
        decimal_value(cs.drop_last()) * 10 + digit_value(cs.last()) as nat
    }
}

/// The value of an ASCII hexadecimal digit character.
pub open spec fn hex_value(c: char) -> nat {
    if '0' <= c && c <= '9' {
        ((c as int) - ('0' as int)) as nat
    } else if 'a' <= c && c <= 'f' {
        ((c as int) - ('a' as int) + 10) as nat
    } else {
        ((c as int) - ('A' as int) + 10) as nat
    }
}

/// The natural number written by hexadecimal digit characters.
pub open spec fn hex_digits_value(cs: Seq<char>) -> nat
    decreases cs.len(),
{
    if cs.len() == 0 {
        0
    } else {
        hex_digits_value(cs.drop_last()) * 16 + hex_value(cs.last())
    }
}

pub open spec fn all_digits(cs: Seq<char>) -> bool {
    forall|i: int| 0 <= i < cs.len() ==> ascii_digit(#[trigger] cs[i])
}

pub open spec fn all_hex_digits(cs: Seq<char>) -> bool {
    forall|i: int| 0 <= i < cs.len() ==> ascii_hex_digit(#[trigger] cs[i])
}

/// End of the run of ASCII digits starting at `from`.
pub open spec fn digit_run(cs: Seq<char>, from: int) -> int
    decreases cs.len() - from,
{
    if 0 <= from < cs.len() && ascii_digit(cs[from]) {
        digit_run(cs, from + 1)
    } else {
        from
    }
}

/// End of the run of ASCII hex digits starting at `from`.
pub open spec fn hex_run(cs: Seq<char>, from: int) -> int
    decreases cs.len() - from,
{
    if 0 <= from < cs.len() && ascii_hex_digit(cs[from]) {
        hex_run(cs, from + 1)
    } else {
        from
    }
}

pub proof fn lemma_digit_run(cs: Seq<char>, from: int)
    requires
        0 <= from <= cs.len(),
    ensures
        from <= digit_run(cs, from) <= cs.len(),
        all_digits(cs.subrange(from, digit_run(cs, from))),
        digit_run(cs, from) == cs.len() || !ascii_digit(cs[digit_run(cs, from)]),
    decreases cs.len() - from,
{
    if from < cs.len() && ascii_digit(cs[from]) {
        lemma_digit_run(cs, from + 1);
        let e = digit_run(cs, from);
        assert forall|i: int| 0 <= i < e - from implies ascii_digit(
            #[trigger] cs.subrange(from, e)[i],
        ) by {
            if i > 0 {
                assert(cs.subrange(from, e)[i] == cs.subrange(from + 1, e)[i - 1]);
            }
        }
    }
}

pub proof fn lemma_hex_run(cs: Seq<char>, from: int)
    requires
        0 <= from <= cs.len(),
    ensures
        from <= hex_run(cs, from) <= cs.len(),
        all_hex_digits(cs.subrange(from, hex_run(cs, from))),
        hex_run(cs, from) == cs.len() || !ascii_hex_digit(cs[hex_run(cs, from)]),
    decreases cs.len() - from,
{
    if from < cs.len() && ascii_hex_digit(cs[from]) {
        lemma_hex_run(cs, from + 1);
        let e = hex_run(cs, from);
        assert forall|i: int| 0 <= i < e - from implies ascii_hex_digit(
            #[trigger] cs.subrange(from, e)[i],
        ) by {
            if i > 0 {
                assert(cs.subrange(from, e)[i] == cs.subrange(from + 1, e)[i - 1]);
            }
        }
    }
}

/// End of the run of ASCII digits starting at `from`.
pub fn scan_digits(cs: &[char], from: usize) -> (r: usize)
    requires
        from <= cs@.len(),
    ensures
        r == digit_run(cs@, from as int),
{
    let mut i = from;
    while i < cs.len() && is_ascii_digit(cs[i])
        invariant
            from <= i <= cs@.len(),
            digit_run(cs@, from as int) == digit_run(cs@, i as int),
        decreases cs@.len() - i,
    {
        i += 1;
    }
    i
}

/// End of the run of ASCII hex digits starting at `from`.
pub fn scan_hex_digits(cs: &[char], from: usize) -> (r: usize)
    requires
        from <= cs@.len(),
    ensures
        r == hex_run(cs@, from as int),
{
    let mut i = from;
    while i < cs.len() && is_ascii_hex_digit(cs[i])
        invariant
            from <= i <= cs@.len(),
            hex_run(cs@, from as int) == hex_run(cs@, i as int),
        decreases cs@.len() - i,
    {
        i += 1;
    }
    i
}

/// Appends the values of the digit characters `cs[from..to]` to `ds`.
pub fn push_digit_values(ds: &mut Vec<u8>, cs: &[char], from: usize, to: usize)
    requires
        from <= to <= cs@.len(),
        all_digits(cs@.subrange(from as int, to as int)),
        digits_wf(old(ds)@),
    ensures
        final(ds)@ == old(ds)@ + digit_values(cs@.subrange(from as int, to as int)),
        digits_wf(final(ds)@),
{
    let ghost start = ds@;
    let mut i = from;
    while i < to
        invariant
            from <= i <= to <= cs@.len(),
            all_digits(cs@.subrange(from as int, to as int)),
            ds@ == start + digit_values(cs@.subrange(from as int, i as int)),
            digits_wf(ds@),
        decreases to - i,
    {
        assert(ascii_digit(cs@.subrange(from as int, to as int)[i - from]));
        let c = cs[i];
        let d = (c as u32 - '0' as u32) as u8;
        ds.push(d);
        assert(digit_values(cs@.subrange(from as int, i + 1)) =~= digit_values(
            cs@.subrange(from as int, i as int),
        ).push(d));
        i += 1;
    }
}

/// `min(v, EXP_CAP)` for the number written by `cs[from..to]`.
pub open spec fn capped(v: nat) -> int {
    if v >= EXP_CAP {
        EXP_CAP as int
    } else {
        v as int
    }
}

pub fn capped_decimal_value(cs: &[char], from: usize, to: usize) -> (r: i128)
    requires
        from <= to <= cs@.len(),
        all_digits(cs@.subrange(from as int, to as int)),
    ensures
        r == capped(decimal_value(cs@.subrange(from as int, to as int))),
{
    let mut acc: i128 = 0;
    let mut i = from;
    while i < to
        invariant
            from <= i <= to <= cs@.len(),
            all_digits(cs@.subrange(from as int, to as int)),
            acc == capped(decimal_value(cs@.subrange(from as int, i as int))),
        decreases to - i,
    {
        assert(ascii_digit(cs@.subrange(from as int, to as int)[i - from]));
        let d = (cs[i] as u32 - '0' as u32) as i128;
        let ghost prefix = cs@.subrange(from as int, i as int);
        let ghost next = cs@.subrange(from as int, i + 1);
        assert(next.drop_last() =~= prefix);
        assert(decimal_value(next) == decimal_value(prefix) * 10 + d);
        let t = acc * 10 + d;
        acc = if t >= EXP_CAP {
            EXP_CAP
        } else {
            t
        };
        i += 1;
    }
    acc
}

/// The value of the hex digits `cs[from..to]`, or `None` when it does not
/// fit in 64 bits.
pub fn hex_u64(cs: &[char], from: usize, to: usize) -> (r: Option<u64>)
    requires
        from <= to <= cs@.len(),
        all_hex_digits(cs@.subrange(from as int, to as int)),
    ensures
        r matches Some(v) ==> v as nat == hex_digits_value(cs@.subrange(from as int, to as int)),
        r is None ==> hex_digits_value(cs@.subrange(from as int, to as int)) > u64::MAX,
{
    let mut acc: u64 = 0;
    let mut i = from;
    while i < to
        invariant
            from <= i <= to <= cs@.len(),
            all_hex_digits(cs@.subrange(from as int, to as int)),
            acc as nat == hex_digits_value(cs@.subrange(from as int, i as int)),
        decreases to - i,
    {
        assert(ascii_hex_digit(cs@.subrange(from as int, to as int)[i - from]));
        let c = cs[i];
        let d: u64 = if '0' <= c && c <= '9' {
            (c as u32 - '0' as u32) as u64
        } else if 'a' <= c && c <= 'f' {
            (c as u32 - 'a' as u32 + 10) as u64
        } else {
            (c as u32 - 'A' as u32 + 10) as u64
        };
        let ghost prefix = cs@.subrange(from as int, i as int);
        let ghost next = cs@.subrange(from as int, i + 1);
        assert(next.drop_last() =~= prefix);
        assert(hex_digits_value(next) == hex_digits_value(prefix) * 16 + d);
        if acc > (u64::MAX - d) / 16 {
            proof {
                assert(acc * 16 + d > u64::MAX) by (nonlinear_arith)
                    requires
                        acc > (u64::MAX - d) / 16,
                        d < 16,
                ;
                lemma_hex_value_grows(cs@.subrange(from as int, to as int), i + 1 - from);
                assert(cs@.subrange(from as int, to as int).take(i + 1 - from) =~= next);
            }
            return None;
        }
        assert(acc * 16 + d <= u64::MAX) by (nonlinear_arith)
            requires
                acc <= (u64::MAX - d) / 16,
                d < 16,
        ;
        acc = acc * 16 + d;
        i += 1;
    }
    assert(cs@.subrange(from as int, i as int) =~= cs@.subrange(from as int, to as int));
    Some(acc)
}

/// A longer hex digit string never has a smaller value.
pub proof fn lemma_hex_value_grows(cs: Seq<char>, k: int)
    requires
        0 <= k <= cs.len(),
    ensures
        hex_digits_value(cs) >= hex_digits_value(cs.take(k)),
    decreases cs.len() - k,
{
    if k < cs.len() {
        lemma_hex_value_grows(cs, k + 1);
        assert(cs.take(k + 1).drop_last() =~= cs.take(k));
    } else {
        assert(cs.take(k) =~= cs);
    }
}

/// A longer digit string never has a smaller decimal value.
pub proof fn lemma_decimal_value_grows(cs: Seq<char>, k: int)
    requires
        0 <= k <= cs.len(),
    ensures
        decimal_value(cs) >= decimal_value(cs.take(k)),
    decreases cs.len() - k,
{
    if k < cs.len() {
        lemma_decimal_value_grows(cs, k + 1);
        assert(cs.take(k + 1).drop_last() =~= cs.take(k));
    } else {
        assert(cs.take(k) =~= cs);
    }
}

/// The number written by a natural number value.
pub open spec fn nat_number(v: nat) -> SpecNumber {
    normalize(false, decimal_digits(v), decimal_digits(v).len() as int)
}

pub fn number_from_u64(v: u64) -> (r: Number)
    ensures
        r@ == nat_number(v as nat),
        number_wf(r@),
{
    let ds = digits_of_u64(v);
    proof {
        lemma_decimal_digits_small(v as nat);
        lemma_decimal_digits_len(v as nat);
    }
    make_number(false, &ds, ds.len() as i128)
}

pub proof fn lemma_decimal_digits_len(n: nat)
    ensures
        decimal_digits(n).len() <= n,
    decreases n,
{
    if n > 0 {
        lemma_decimal_digits_len(n / 10);
    }
}

/// The number one.
pub fn one() -> (r: Number)
    ensures
        r@ == SpecNumber::Finite(false, seq![1u8], 1),
        number_wf(r@),
{
    let mut ds: Vec<u8> = Vec::new();
    ds.push(1);
    Number::from_repr(NumRepr::Finite { negative: false, digits: ds, point: 1 })
}

/// The number zero.
pub fn zero() -> (r: Number)
    ensures
        r@ == spec_zero(),
        number_wf(r@),
{
    Number::from_repr(NumRepr::Finite { negative: false, digits: Vec::new(), point: 0 })
}

/// The number written by a decimal literal: sign, integer digits, fraction
/// digits and a decimal exponent.
pub open spec fn decimal_number(neg: bool, int_part: Seq<char>, frac: Seq<char>, exp: int) -> SpecNumber {
    normalize(neg, digit_values(int_part + frac), int_part.len() + exp)
}

pub proof fn lemma_normalize_cap(neg: bool, ds: Seq<u8>, len: int, exp: int)
    requires
        0 <= len <= u64::MAX,
        ds.len() <= u64::MAX,
    ensures
        normalize(neg, ds, len + exp) == normalize(neg, ds, len + (if exp >= EXP_CAP {
            EXP_CAP as int
        } else if exp <= -EXP_CAP {
            -EXP_CAP
        } else {
            exp
        })),
{
    lemma_lead_zeros_bound(ds);
}

pub proof fn lemma_lead_zeros_bound(ds: Seq<u8>)
    ensures
        lead_zeros(ds) <= ds.len(),
    decreases ds.len(),
{
    if ds.len() > 0 && ds[0] == 0 {
        lemma_lead_zeros_bound(ds.drop_first());
    }
}

/// `0.d1...dn * 10^p` written out in positional notation without exponent.
pub open spec fn zeros(k: int) -> Seq<char> {
    Seq::new(if k > 0 {
        k as nat
    } else {
        0
    }, |i: int| '0')
}

pub open spec fn magnitude_text(ds: Seq<u8>, p: int) -> Seq<char> {
    if ds.len() == 0 {
        seq!['0']
    } else if p <= 0 {
        seq!['0', '.'] + zeros(-p) + digit_chars(ds)
    } else if p >= ds.len() {
        digit_chars(ds) + zeros(p - ds.len())
    } else {
        digit_chars(ds.take(p)) + seq!['.'] + digit_chars(ds.skip(p))
    }
}

pub open spec fn signed_text(neg: bool, t: Seq<char>) -> Seq<char> {
    if neg {
        seq!['-'] + t
    } else {
        t
    }
}

/// The text of a number when coerced to a string (`Infinity`, `NaN`, or
/// positional digits with no trailing `.0`).
pub open spec fn number_text(n: SpecNumber) -> Seq<char> {
    match n {
        SpecNumber::NaN => seq!['N', 'a', 'N'],
        SpecNumber::Infinite(neg) => signed_text(
            neg,
            seq!['I', 'n', 'f', 'i', 'n', 'i', 't', 'y'],
        ),
        SpecNumber::Finite(neg, ds, p) => signed_text(neg, magnitude_text(ds, p)),
    }
}

/// The text of a number used as a property name after `.` (`inf` for the
/// infinities, as doubles print).
pub open spec fn index_text(n: SpecNumber) -> Seq<char> {
    match n {
        SpecNumber::NaN => seq!['N', 'a', 'N'],
        SpecNumber::Infinite(neg) => signed_text(neg, seq!['i', 'n', 'f']),
        SpecNumber::Finite(neg, ds, p) => signed_text(neg, magnitude_text(ds, p)),
    }
}

/// The debug text of a double (`{:?}`): `NaN`, `inf`, positional form
/// with at least one fraction digit when the decimal exponent lies within
/// `-4..=15` (and for zero), and `d.ddde-x` form otherwise.
pub open spec fn debug_number_text(n: SpecNumber) -> Seq<char> {
    match n {
        SpecNumber::NaN => seq!['N', 'a', 'N'],
        SpecNumber::Infinite(neg) => signed_text(neg, seq!['i', 'n', 'f']),
        SpecNumber::Finite(neg, ds, p) => {
            if ds.len() == 0 {
                signed_text(neg, seq!['0', '.', '0'])
            } else if -4 <= p - 1 <= 15 {
                signed_text(
                    neg,
                    if p >= ds.len() {
                        magnitude_text(ds, p) + seq!['.', '0']
                    } else {
                        magnitude_text(ds, p)
                    },
                )
            } else {
                signed_text(
                    neg,
                    digit_chars(ds.take(1)) + (if ds.len() > 1 {
                        seq!['.'] + digit_chars(ds.skip(1))
                    } else {
                        Seq::empty()
                    }) + seq!['e'] + (if p - 1 < 0 {
                        seq!['-']
                    } else {
                        Seq::empty()
                    }) + nat_text(
                        (if p - 1 < 0 {
                            1 - p
                        } else {
                            p - 1
                        }) as nat,
                    ),
                )
            }
        },
    }
}

/// The JSON text of a number: `null` when not finite, positional form with at
/// least one fraction digit when the decimal exponent is within `-5..=15`,
/// and `d.ddde±x` form otherwise.
pub open spec fn json_number_text(n: SpecNumber) -> Seq<char> {
    match n {
        SpecNumber::Finite(neg, ds, p) => {
            if ds.len() == 0 {
                seq!['0', '.', '0']
            } else if -5 <= p - 1 <= 15 {
                signed_text(
                    neg,
                    if p >= ds.len() {
                        magnitude_text(ds, p) + seq!['.', '0']
                    } else {
                        magnitude_text(ds, p)
                    },
                )
            } else {
                signed_text(
                    neg,
                    digit_chars(ds.take(1)) + (if ds.len() > 1 {
                        seq!['.'] + digit_chars(ds.skip(1))
                    } else {
                        Seq::empty()
                    }) + seq!['e'] + (if p - 1 < 0 {
                        seq!['-']
                    } else {
                        seq!['+']
                    }) + nat_text(
                        (if p - 1 < 0 {
                            1 - p
                        } else {
                            p - 1
                        }) as nat,
                    ),
                )
            }
        },
        _ => seq!['n', 'u', 'l', 'l'],
    }
}

fn push_zeros(out: &mut String, k: i64)
    ensures
        final(out)@ == old(out)@ + zeros(k as int),
{
    let ghost start = out@;
    let mut i: i64 = 0;
    while i < k
        invariant
            0 <= i <= (if k > 0 {
                k
            } else {
                0
            }),
            out@ == start + zeros(i as int),
        decreases k - i,
    {
        push_char(out, '0');
        assert(zeros(i + 1) =~= zeros(i as int).push('0'));
        i += 1;
    }
    assert(zeros(i as int) =~= zeros(k as int));
}

fn push_digit_chars(out: &mut String, ds: &Vec<u8>, from: usize, to: usize)
    requires
        from <= to <= ds@.len(),
        digits_wf(ds@),
    ensures
        final(out)@ == old(out)@ + digit_chars(ds@.subrange(from as int, to as int)),
{
    let ghost start = out@;
    let mut i = from;
    while i < to
        invariant
            from <= i <= to <= ds@.len(),
            digits_wf(ds@),
            out@ == start + digit_chars(ds@.subrange(from as int, i as int)),
        decreases to - i,
    {
        let c = digit_to_char(ds[i]);
        push_char(out, c);
        assert(digit_chars(ds@.subrange(from as int, i + 1)) =~= digit_chars(
            ds@.subrange(from as int, i as int),
        ).push(c));
        i += 1;
    }
}

/// Appends `magnitude_text(digits, point)`.
fn push_magnitude(out: &mut String, ds: &Vec<u8>, p: i64)
    requires
        digits_wf(ds@),
        MIN_POINT <= p <= MAX_POINT,
    ensures
        final(out)@ == old(out)@ + magnitude_text(ds@, p as int),
{
    let ghost start = out@;
    let n = ds.len();
    if n == 0 {
        push_char(out, '0');
    } else if p <= 0 {
        push_char(out, '0');
        push_char(out, '.');
        push_zeros(out, -p);
        push_digit_chars(out, ds, 0, n);
        assert(ds@.subrange(0, n as int) =~= ds@);
        assert(out@ =~= start + magnitude_text(ds@, p as int));
    } else if p as u64 >= n as u64 {
        push_digit_chars(out, ds, 0, n);
        assert(ds@.subrange(0, n as int) =~= ds@);
        push_zeros(out, p - n as i64);
        assert(out@ =~= start + magnitude_text(ds@, p as int));
    } else {
        let k = p as usize;
        push_digit_chars(out, ds, 0, k);
        push_char(out, '.');
        push_digit_chars(out, ds, k, n);
        assert(ds@.subrange(0, k as int) =~= ds@.take(k as int));
        assert(ds@.subrange(k as int, n as int) =~= ds@.skip(k as int));
        assert(out@ =~= start + magnitude_text(ds@, p as int));
    }
}

impl Number {
    pub fn is_nan(&self) -> (b: bool)
        ensures
            b == (self@ is NaN),
    {
        matches!(self.repr, NumRepr::NaN)
    }

    /// Whether the number is zero (the only falsy number besides NaN being
    /// truthy).
    pub fn is_zero(&self) -> (b: bool)
        ensures
            b == (self@ matches SpecNumber::Finite(_, ds, _) && ds.len() == 0),
    {
        match &self.repr {
            NumRepr::Finite { digits, .. } => digits.len() == 0,
            _ => false,
        }
    }

    /// A copy of the number.
    pub fn copy(&self) -> (r: Number)
        ensures
            r@ == self@,
    {
        proof {
            use_type_invariant(self);
        }
        let r = match &self.repr {
            NumRepr::NaN => NumRepr::NaN,
            NumRepr::Infinite(n) => NumRepr::Infinite(*n),
            NumRepr::Finite { negative, digits, point } => NumRepr::Finite {
                negative: *negative,
                digits: digits.clone(),
                point: *point,
            },
        };
        Number::from_repr(r)
    }

    /// The number as text (`number_text`).
    pub fn to_text(&self) -> (s: String)
        ensures
            s@ == number_text(self@),
    {
        proof {
            use_type_invariant(self);
        }
        match &self.repr {
            NumRepr::NaN => {
                proof {
                    reveal_strlit("NaN");
                }
                String::from_str("NaN")
            },
            NumRepr::Infinite(neg) => {
                proof {
                    reveal_strlit("-Infinity");
                    reveal_strlit("Infinity");
                }
                if *neg {
                    String::from_str("-Infinity")
                } else {
                    String::from_str("Infinity")
                }
            },
            NumRepr::Finite { negative, digits, point } => {
                let mut s = String::new();
                if *negative {
                    push_char(&mut s, '-');
                }
                push_magnitude(&mut s, digits, *point);
                assert(s@ =~= number_text(self@));
                s
            },
        }
    }

    /// The number as a property name (`index_text`).
    pub fn to_index_text(&self) -> (s: String)
        ensures
            s@ == index_text(self@),
    {
        proof {
            use_type_invariant(self);
        }
        match &self.repr {
            NumRepr::NaN => {
                proof {
                    reveal_strlit("NaN");
                }
                String::from_str("NaN")
            },
            NumRepr::Infinite(neg) => {
                proof {
                    reveal_strlit("-inf");
                    reveal_strlit("inf");
                }
                if *neg {
                    String::from_str("-inf")
                } else {
                    String::from_str("inf")
                }
            },
            NumRepr::Finite { negative, digits, point } => {
                let mut s = String::new();
                if *negative {
                    push_char(&mut s, '-');
                }
                push_magnitude(&mut s, digits, *point);
                assert(s@ =~= index_text(self@));
                s
            },
        }
    }

    /// Appends the debug text of the number (`debug_number_text`).
    pub fn push_debug(&self, out: &mut String)
        ensures
            final(out)@ == old(out)@ + debug_number_text(self@),
    {
        proof {
            use_type_invariant(self);
        }
        let ghost start = out@;
        match &self.repr {
            NumRepr::Finite { negative, digits, point } => {
                push_debug_finite(out, *negative, digits, *point);
            },
            NumRepr::NaN => {
                push_str(out, "NaN");
                proof {
                    reveal_strlit("NaN");
                }
                assert(out@ =~= start + debug_number_text(self@));
            },
            NumRepr::Infinite(neg) => {
                if *neg {
                    push_char(out, '-');
                }
                push_str(out, "inf");
                proof {
                    reveal_strlit("inf");
                }
                assert(out@ =~= start + debug_number_text(self@));
            },
        }
    }

    /// Appends the JSON text of the number (`json_number_text`).
    pub fn push_json(&self, out: &mut String)
        ensures
            final(out)@ == old(out)@ + json_number_text(self@),
    {
        proof {
            use_type_invariant(self);
        }
        let ghost start = out@;
        match &self.repr {
            NumRepr::Finite { negative, digits, point } => {
                push_json_finite(out, *negative, digits, *point);
            },
            _ => {
                push_str(out, "null");
                proof {
                    reveal_strlit("null");
                }
                assert(out@ =~= start + json_number_text(self@));
            },
        }
    }
}

fn push_json_finite(out: &mut String, negative: bool, digits: &Vec<u8>, p: i64)
    requires
        number_wf(SpecNumber::Finite(negative, digits@, p as int)),
    ensures
        final(out)@ == old(out)@ + json_number_text(SpecNumber::Finite(negative, digits@, p as int)),
{
    let ghost start = out@;
    let ghost num = SpecNumber::Finite(negative, digits@, p as int);
    let n = digits.len();
    if n == 0 {
        push_char(out, '0');
        push_char(out, '.');
        push_char(out, '0');
        assert(out@ =~= start + json_number_text(num));
        return ;
    }
    if negative {
        push_char(out, '-');
    }
    if -5 <= p - 1 && p - 1 <= 15 {
        push_magnitude(out, digits, p);
        if p > 0 && p as u64 >= n as u64 {
            push_char(out, '.');
            push_char(out, '0');
        }
        assert(out@ =~= start + json_number_text(num));
    } else {
        push_digit_chars(out, digits, 0, 1);
        assert(digits@.subrange(0, 1) =~= digits@.take(1));
        if n > 1 {
            push_char(out, '.');
            push_digit_chars(out, digits, 1, n);
            assert(digits@.subrange(1, n as int) =~= digits@.skip(1));
        }
        push_char(out, 'e');
        let e: i64 = p - 1;
        if e < 0 {
            push_char(out, '-');
            push_decimal(out, (-e) as u64);
        } else {
            push_char(out, '+');
            push_decimal(out, e as u64);
        }
        assert(out@ =~= start + json_number_text(num));
    }
}

fn push_debug_finite(out: &mut String, negative: bool, digits: &Vec<u8>, p: i64)
    requires
        number_wf(SpecNumber::Finite(negative, digits@, p as int)),
    ensures
        final(out)@ == old(out)@ + debug_number_text(SpecNumber::Finite(negative, digits@, p as int)),
{
    let ghost start = out@;
    let ghost num = SpecNumber::Finite(negative, digits@, p as int);
    let n = digits.len();
    if negative {
        push_char(out, '-');
    }
    if n == 0 {
        push_char(out, '0');
        push_char(out, '.');
        push_char(out, '0');
        assert(out@ =~= start + debug_number_text(num));
        return ;
    }
    if -4 <= p - 1 && p - 1 <= 15 {
        push_magnitude(out, digits, p);
        if p > 0 && p as u64 >= n as u64 {
            push_char(out, '.');
            push_char(out, '0');
        }
        assert(out@ =~= start + debug_number_text(num));
    } else {
        push_digit_chars(out, digits, 0, 1);
        assert(digits@.subrange(0, 1) =~= digits@.take(1));
        if n > 1 {
            push_char(out, '.');
            push_digit_chars(out, digits, 1, n);
            assert(digits@.subrange(1, n as int) =~= digits@.skip(1));
        }
        push_char(out, 'e');
        let e: i64 = p - 1;
        if e < 0 {
            push_char(out, '-');
            push_decimal(out, (-e) as u64);
        } else {
            push_decimal(out, e as u64);
        }
        assert(out@ =~= start + debug_number_text(num));
    }
}

pub open spec fn ascii_lower(c: char) -> char {
    if 'A' <= c && c <= 'Z' {
        ((c as int) + 32) as char
    } else {
        c
    }
}

/// ASCII case-insensitive equality with a lowercase word.
pub open spec fn eq_ignore_case(a: Seq<char>, word: Seq<char>) -> bool {
    a.len() == word.len() && forall|i: int| 0 <= i < a.len() ==> ascii_lower(#[trigger] a[i])
        == word[i]
}

fn eq_ignore_case_exec(a: &[char], from: usize, word: &[char]) -> (r: bool)
    requires
        from <= a@.len(),
    ensures
        r == eq_ignore_case(a@.skip(from as int), word@),
{
    let alen = a.len();
    if alen - from != word.len() {
        return false;
    }
    let mut i: usize = 0;
    while i < word.len()
        invariant
            i <= word@.len(),
            alen == a@.len(),
            from + word@.len() == a@.len(),
            forall|k: int| 0 <= k < i ==> ascii_lower(#[trigger] a@.skip(from as int)[k])
                == word@[k],
        decreases word@.len() - i,
    {
        let c = a[from + i];
        let l = if 'A' <= c && c <= 'Z' {
            ((c as u32) + 32) as u8 as char
        } else {
            c
        };
        assert(a@.skip(from as int)[i as int] == c);
        if l != word[i] {
            return false;
        }
        i += 1;
    }
    true
}

/// The number that `u64::from_str_radix(h, 16)` yields (an optional `+`,
/// then at least one hex digit, value below `2^64`), NaN on failure.
pub open spec fn radix16_number(h: Seq<char>) -> SpecNumber {
    let body = if h.len() > 0 && h[0] == '+' {
        h.skip(1)
    } else {
        h
    };
    if body.len() > 0 && all_hex_digits(body) && hex_digits_value(body) <= u64::MAX {
        nat_number(hex_digits_value(body))
    } else {
        SpecNumber::NaN
    }
}

/// The number that parsing `b` (already without sign) as a double yields:
/// `inf`, `infinity`, `nan` in any ASCII case, or digits with an optional
/// point and an optional exponent; NaN when the text is not of that form.
pub open spec fn unsigned_float_number(neg: bool, b: Seq<char>) -> SpecNumber {
    if eq_ignore_case(b, seq!['i', 'n', 'f']) || eq_ignore_case(
        b,
        seq!['i', 'n', 'f', 'i', 'n', 'i', 't', 'y'],
    ) {
        SpecNumber::Infinite(neg)
    } else if eq_ignore_case(b, seq!['n', 'a', 'n']) {
        SpecNumber::NaN
    } else {
        plain_float_number(neg, b)
    }
}

/// The number a string coerces to: zero when blank, `0x`/`0X` hexadecimal,
/// otherwise the double syntax with an optional sign.
pub open spec fn string_number(s: Seq<char>) -> SpecNumber {
    let t = trim_of(s);
    if t.len() == 0 {
        spec_zero()
    } else if t.len() >= 2 && t[0] == '0' && (t[1] == 'x' || t[1] == 'X') {
        radix16_number(t.skip(2))
    } else {
        let has_sign = t[0] == '-' || t[0] == '+';
        unsigned_float_number(
            t[0] == '-',
            if has_sign {
                t.skip(1)
            } else {
                t
            },
        )
    }
}

/// The number written by `b` when it is neither `inf`, `infinity` nor `nan`
/// (see `unsigned_float_number`).
pub open spec fn plain_float_number(neg: bool, b: Seq<char>) -> SpecNumber {
    let i = digit_run(b, 0);
    let has_point = i < b.len() && b[i] == '.';
    let fs = if has_point {
        i + 1
    } else {
        i
    };
    let fe = digit_run(b, fs);
    let int_part = b.subrange(0, i);
    let frac = b.subrange(fs, fe);
    if i + (fe - fs) == 0 {
        SpecNumber::NaN
    } else if fe == b.len() {
        decimal_number(neg, int_part, frac, 0)
    } else if b[fe] == 'e' || b[fe] == 'E' {
        exponent_number(neg, int_part, frac, b, fe + 1)
    } else {
        SpecNumber::NaN
    }
}

/// The number with mantissa `int_part.frac` and the exponent written in
/// `b[es..]` (an optional sign and at least one digit, up to the end).
pub open spec fn exponent_number(
    neg: bool,
    int_part: Seq<char>,
    frac: Seq<char>,
    b: Seq<char>,
    es: int,
) -> SpecNumber {
    let has_sign = es < b.len() && (b[es] == '-' || b[es] == '+');
    let eneg = es < b.len() && b[es] == '-';
    let ds = if has_sign {
        es + 1
    } else {
        es
    };
    let de = digit_run(b, ds);
    if de == ds || de != b.len() {
        SpecNumber::NaN
    } else {
        let v = decimal_value(b.subrange(ds, de)) as int;
        decimal_number(
            neg,
            int_part,
            frac,
            if eneg {
                -v
            } else {
                v
            },
        )
    }
}

fn parse_exponent(neg: bool, ds: &Vec<u8>, int_len: usize, b: &[char], es: usize) -> (r: Number)
    requires
        es <= b@.len(),
        int_len <= b@.len(),
        digits_wf(ds@),
        ds@.len() <= b@.len(),
    ensures
        forall|ip: Seq<char>, fr: Seq<char>|
            ip.len() == int_len && digit_values(ip + fr) == ds@ ==> r@ == exponent_number(
                neg,
                ip,
                fr,
                b@,
                es as int,
            ),
{
    let n = b.len();
    let has_sign = es < n && (b[es] == '-' || b[es] == '+');
    let eneg = es < n && b[es] == '-';
    let dstart = if has_sign {
        es + 1
    } else {
        es
    };
    let de = scan_digits(b, dstart);
    proof {
        lemma_digit_run(b@, dstart as int);
    }
    if de == dstart || de != n {
        return Number::nan();
    }
    let v = capped_decimal_value(b, dstart, de);
    let e = if eneg {
        -v
    } else {
        v
    };
    proof {
        let tv = decimal_value(b@.subrange(dstart as int, de as int)) as int;
        lemma_normalize_cap(
            neg,
            ds@,
            int_len as int,
            if eneg {
                -tv
            } else {
                tv
            },
        );
    }
    make_number(neg, ds, int_len as i128 + e)
}

fn parse_plain_float(neg: bool, b: &[char]) -> (r: Number)
    ensures
        r@ == plain_float_number(neg, b@),
{
    let n = b.len();
    let i = scan_digits(b, 0);
    proof {
        lemma_digit_run(b@, 0);
    }
    let has_point = i < n && b[i] == '.';
    let fs = if has_point {
        i + 1
    } else {
        i
    };
    let fe = scan_digits(b, fs);
    proof {
        lemma_digit_run(b@, fs as int);
    }
    if i + (fe - fs) == 0 {
        return Number::nan();
    }
    let mut ds: Vec<u8> = Vec::new();
    push_digit_values(&mut ds, b, 0, i);
    push_digit_values(&mut ds, b, fs, fe);
    let ghost ip = b@.subrange(0, i as int);
    let ghost fr = b@.subrange(fs as int, fe as int);
    proof {
        assert(ds@ =~= digit_values(ip + fr));
    }
    if fe == n {
        return make_number(neg, &ds, i as i128);
    }
    if b[fe] == 'e' || b[fe] == 'E' {
        return parse_exponent(neg, &ds, i, b, fe + 1);
    }
    Number::nan()
}

/// Digits with optional point and exponent, or `inf`/`infinity`/`nan`
/// (see `unsigned_float_number`).
fn parse_unsigned_float(neg: bool, b: &[char]) -> (r: Number)
    ensures
        r@ == unsigned_float_number(neg, b@),
{
    let inf: [char; 3] = ['i', 'n', 'f'];
    let infinity: [char; 8] = ['i', 'n', 'f', 'i', 'n', 'i', 't', 'y'];
    let nan: [char; 3] = ['n', 'a', 'n'];
    assert(inf@ =~= seq!['i', 'n', 'f']);
    assert(infinity@ =~= seq!['i', 'n', 'f', 'i', 'n', 'i', 't', 'y']);
    assert(nan@ =~= seq!['n', 'a', 'n']);
    assert(b@.skip(0) =~= b@);
    if eq_ignore_case_exec(b, 0, &inf) || eq_ignore_case_exec(b, 0, &infinity) {
        return Number::infinity(neg);
    }
    if eq_ignore_case_exec(b, 0, &nan) {
        return Number::nan();
    }
    parse_plain_float(neg, b)
}

/// The number that a string coerces to (`string_number`).
pub fn parse_number_text(s: &str) -> (r: Number)
    ensures
        r@ == string_number(s@),
{
    let raw = chars_of(s);
    let t = trim_chars(raw.as_slice());
    let n = t.len();
    if n == 0 {
        return zero();
    }
    if n >= 2 && t[0] == '0' && (t[1] == 'x' || t[1] == 'X') {
        let start: usize = if n > 2 && t[2] == '+' {
            3
        } else {
            2
        };
        let ghost h = t@.skip(2);
        let ghost body = t@.skip(start as int);
        proof {
            if n > 2 && t@[2] == '+' {
                assert(h.skip(1) =~= body);
            } else {
                assert(h =~= body);
            }
        }
        let he = scan_hex_digits(t.as_slice(), start);
        proof {
            lemma_hex_run(t@, start as int);
        }
        if he != n || he == start {
            proof {
                if he != n {
                    assert(!ascii_hex_digit(body[he - start]));
                }
            }
            return Number::nan();
        }
        assert(t@.subrange(start as int, n as int) =~= body);
        return match hex_u64(t.as_slice(), start, n) {
            Some(v) => number_from_u64(v),
            None => Number::nan(),
        };
    }
    let has_sign = t[0] == '-' || t[0] == '+';
    let from: usize = if has_sign {
        1
    } else {
        0
    };
    let mut b: Vec<char> = Vec::new();
    let mut k = from;
    while k < n
        invariant
            from <= k <= n == t@.len(),
            b@ == t@.subrange(from as int, k as int),
        decreases n - k,
    {
        b.push(t[k]);
        k += 1;
    }
    assert(b@ =~= t@.skip(from as int));
    assert(t@.skip(0) =~= t@);
    parse_unsigned_float(t[0] == '-', b.as_slice())
}

/// Lexicographic order of digit sequences from position `i` on (a proper
/// prefix is smaller).
pub open spec fn digits_lt_from(a: Seq<u8>, b: Seq<u8>, i: int) -> bool
    decreases a.len() - i,
{
    if i < 0 {
        false
    } else if i >= a.len() {
        i < b.len()
    } else if i >= b.len() {
        false
    } else if a[i] < b[i] {
        true
    } else if a[i] > b[i] {
        false
    } else {
        digits_lt_from(a, b, i + 1)
    }
}

pub open spec fn digits_lt(a: Seq<u8>, b: Seq<u8>) -> bool {
    digits_lt_from(a, b, 0)
}

/// Order class: negative infinity, negative, zero, positive, positive
/// infinity.
pub open spec fn num_class(n: SpecNumber) -> int {
    match n {
        SpecNumber::NaN => -1,
        SpecNumber::Infinite(neg) => if neg {
            0
        } else {
            4
        },
        SpecNumber::Finite(neg, ds, _) => if ds.len() == 0 {
            2
        } else if neg {
            1
        } else {
            3
        },
    }
}

/// `|a| < |b|` for two nonzero finite numbers.
pub open spec fn mag_lt(a: SpecNumber, b: SpecNumber) -> bool {
    match (a, b) {
        (SpecNumber::Finite(_, d1, p1), SpecNumber::Finite(_, d2, p2)) => p1 < p2 || (p1 == p2
            && digits_lt(d1, d2)),
        _ => false,
    }
}

/// Numeric `<`; false whenever NaN is involved.
pub open spec fn num_lt(a: SpecNumber, b: SpecNumber) -> bool {
    &&& !(a is NaN)
    &&& !(b is NaN)
    &&& (num_class(a) < num_class(b) || (num_class(a) == num_class(b) && ((num_class(a) == 3
        && mag_lt(a, b)) || (num_class(a) == 1 && mag_lt(b, a)))))
}

/// Numeric `==`; false whenever NaN is involved.
pub open spec fn num_eq(a: SpecNumber, b: SpecNumber) -> bool {
    !(a is NaN) && !(b is NaN) && a == b
}

fn digits_less(a: &Vec<u8>, b: &Vec<u8>) -> (r: bool)
    ensures
        r == digits_lt(a@, b@),
{
    let mut i: usize = 0;
    while i < a.len() && i < b.len() && a[i] == b[i]
        invariant
            i <= a@.len(),
            i <= b@.len(),
            digits_lt(a@, b@) == digits_lt_from(a@, b@, i as int),
        decreases a@.len() - i,
    {
        i += 1;
    }
    if i >= a.len() {
        i < b.len()
    } else if i >= b.len() {
        false
    } else {
        a[i] < b[i]
    }
}

fn digits_equal(a: &Vec<u8>, b: &Vec<u8>) -> (r: bool)
    ensures
        r == (a@ == b@),
{
    if a.len() != b.len() {
        assert(a@.len() != b@.len());
        return false;
    }
    let mut i: usize = 0;
    while i < a.len()
        invariant
            i <= a@.len() == b@.len(),
            forall|k: int| 0 <= k < i ==> a@[k] == b@[k],
        decreases a@.len() - i,
    {
        if a[i] != b[i] {
            assert(a@[i as int] != b@[i as int]);
            return false;
        }
        i += 1;
    }
    assert(a@ =~= b@);
    true
}

fn class_of(n: &Number) -> (c: i8)
    ensures
        c as int == num_class(n@),
{
    match &n.repr {
        NumRepr::NaN => -1,
        NumRepr::Infinite(neg) => if *neg {
            0
        } else {
            4
        },
        NumRepr::Finite { negative, digits, .. } => if digits.len() == 0 {
            2
        } else if *negative {
            1
        } else {
            3
        },
    }
}

fn magnitude_less(a: &Number, b: &Number) -> (r: bool)
    ensures
        r == mag_lt(a@, b@),
{
    match (&a.repr, &b.repr) {
        (
            NumRepr::Finite { digits: d1, point: p1, .. },
            NumRepr::Finite { digits: d2, point: p2, .. },
        ) => *p1 < *p2 || (*p1 == *p2 && digits_less(d1, d2)),
        _ => false,
    }
}

impl Number {
    /// Numeric `<` (`num_lt`).
    pub fn less_than(&self, other: &Number) -> (r: bool)
        ensures
            r == num_lt(self@, other@),
    {
        if self.is_nan() || other.is_nan() {
            return false;
        }
        let ca = class_of(self);
        let cb = class_of(other);
        if ca != cb {
            return ca < cb;
        }
        if ca == 3 {
            magnitude_less(self, other)
        } else if ca == 1 {
            magnitude_less(other, self)
        } else {
            false
        }
    }

    /// Numeric `==` (`num_eq`).
    pub fn equals(&self, other: &Number) -> (r: bool)
        ensures
            r == num_eq(self@, other@),
    {
        match (&self.repr, &other.repr) {
            (NumRepr::NaN, _) | (_, NumRepr::NaN) => false,
            (NumRepr::Infinite(a), NumRepr::Infinite(b)) => *a == *b,
            (
                NumRepr::Finite { negative: n1, digits: d1, point: p1 },
                NumRepr::Finite { negative: n2, digits: d2, point: p2 },
            ) => *n1 == *n2 && *p1 == *p2 && digits_equal(d1, d2),
            _ => false,
        }
    }

    /// Whether the two numbers are the same value (NaN is the same as NaN).
    pub fn same_as(&self, other: &Number) -> (r: bool)
        ensures
            r == (self@ == other@),
    {
        match (&self.repr, &other.repr) {
            (NumRepr::NaN, NumRepr::NaN) => true,
            (NumRepr::Infinite(a), NumRepr::Infinite(b)) => *a == *b,
            (
                NumRepr::Finite { negative: n1, digits: d1, point: p1 },
                NumRepr::Finite { negative: n2, digits: d2, point: p2 },
            ) => *n1 == *n2 && *p1 == *p2 && digits_equal(d1, d2),
            _ => false,
        }
    }
}

pub proof fn lemma_digits_lt_irreflexive(a: Seq<u8>, i: int)
    requires
        0 <= i,
    ensures
        !digits_lt_from(a, a, i),
    decreases a.len() - i,
{
    if i < a.len() {
        lemma_digits_lt_irreflexive(a, i + 1);
    }
}

pub proof fn lemma_digits_lt_total(a: Seq<u8>, b: Seq<u8>, i: int)
    requires
        0 <= i <= a.len(),
        i <= b.len(),
        a.take(i) == b.take(i),
    ensures
        a == b || digits_lt_from(a, b, i) || digits_lt_from(b, a, i),
        !(digits_lt_from(a, b, i) && digits_lt_from(b, a, i)),
    decreases a.len() - i,
{
    if i < a.len() && i < b.len() && a[i] == b[i] {
        assert(a.take(i + 1) =~= a.take(i).push(a[i]));
        assert(b.take(i + 1) =~= b.take(i).push(b[i]));
        lemma_digits_lt_total(a, b, i + 1);
    } else if i == a.len() && i == b.len() {
        assert(a =~= a.take(i));
        assert(b =~= b.take(i));
    }
}

pub proof fn lemma_digits_lt_trans(a: Seq<u8>, b: Seq<u8>, c: Seq<u8>, i: int)
    requires
        0 <= i,
        digits_lt_from(a, b, i),
        digits_lt_from(b, c, i),
    ensures
        digits_lt_from(a, c, i),
    decreases a.len() - i,
{
    if i < a.len() && i < b.len() && i < c.len() && a[i] == b[i] && b[i] == c[i] {
        lemma_digits_lt_trans(a, b, c, i + 1);
    }
}

/// Numeric order is a strict total order on the numbers that are not NaN:
/// exactly one of `a < b`, `a == b`, `b < a` holds.
pub proof fn law_number_order_trichotomy(a: SpecNumber, b: SpecNumber)
    requires
        number_wf(a),
        number_wf(b),
        !(a is NaN),
        !(b is NaN),
    ensures
        num_lt(a, b) || num_eq(a, b) || num_lt(b, a),
        !(num_lt(a, b) && num_eq(a, b)),
        !(num_lt(a, b) && num_lt(b, a)),
{
    match (a, b) {
        (SpecNumber::Finite(n1, d1, p1), SpecNumber::Finite(n2, d2, p2)) => {
            assert(d1.take(0) =~= d2.take(0));
            lemma_digits_lt_total(d1, d2, 0);
            lemma_digits_lt_irreflexive(d1, 0);
            if num_class(a) == num_class(b) && (num_class(a) == 1 || num_class(a) == 3) && p1
                == p2 && d1 == d2 {
                assert(n1 == n2);
            }
            if num_class(a) == 2 && num_class(b) == 2 {
                assert(n1 == false && n2 == false);
            }
        },
        _ => {},
    }
}

/// Numeric `<` is transitive.
pub proof fn law_number_order_transitive(a: SpecNumber, b: SpecNumber, c: SpecNumber)
    requires
        num_lt(a, b),
        num_lt(b, c),
    ensures
        num_lt(a, c),
{
    match (a, b, c) {
        (
            SpecNumber::Finite(_, d1, p1),
            SpecNumber::Finite(_, d2, p2),
            SpecNumber::Finite(_, d3, p3),
        ) => {
            if p1 == p2 && p2 == p3 {
                if num_class(a) == 3 && num_class(b) == 3 && num_class(c) == 3 {
                    if digits_lt(d1, d2) && digits_lt(d2, d3) {
                        lemma_digits_lt_trans(d1, d2, d3, 0);
                    }
                }
                if num_class(a) == 1 && num_class(b) == 1 && num_class(c) == 1 {
                    if digits_lt(d3, d2) && digits_lt(d2, d1) {
                        lemma_digits_lt_trans(d3, d2, d1, 0);
                    }
                }
            }
        },
        _ => {},
    }
}

/// No number comes before itself.
pub proof fn lemma_num_lt_irreflexive(a: SpecNumber)
    ensures
        !num_lt(a, a),
{
    if let SpecNumber::Finite(_, d, _) = a {
        lemma_digits_lt_irreflexive(d, 0);
    }
}

/// Two numbers never come each before the other.
pub proof fn lemma_num_lt_asymmetric(a: SpecNumber, b: SpecNumber)
    ensures
        !(num_lt(a, b) && num_lt(b, a)),
{
    if num_lt(a, b) && num_lt(b, a) {
        law_number_order_transitive(a, b, a);
        lemma_num_lt_irreflexive(a);
    }
}

} // verus!
