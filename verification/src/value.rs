//! The numeric value model for metric samples.
//!
//! Exposition lines carry decimal numbers (optionally signed, with an
//! optional fraction and exponent, or the words `inf` / `nan`). The model
//! holds a finite value exactly as a sign plus a count of millionths
//! (truncated toward zero), and keeps infinities and not-a-number apart so
//! that invalid samples can be rejected rather than conflated with zero.
//!
//! Magnitudes beyond what fits in the millionths counter saturate to the
//! infinite value, and exponents saturate at a bound far beyond what any
//! line that fits in memory could need; within those bounds the value is
//! exact decimal arithmetic.

use vstd::prelude::*;
use crate::text::{is_digit, digit_val, digits_value, all_digits, lower_char};

verus! {

/// Exponents at or above this bound saturate; the value of a line is
/// unchanged, because a mantissa long enough to compensate cannot fit in
/// an address space.
pub const EXP_CAP: u128 = 1_000_000_000_000_000_000_000_000_000_000;

/// A parsed numeric metric value: a sign and a count of millionths, or an
/// infinity, or not-a-number.
#[derive(Debug, Clone, Copy, PartialEq, Eq, Structural)]
pub enum MetricValue {
    /// A finite value; its magnitude is `micro` millionths.
    Num { neg: bool, micro: u128 },
    /// An overflowing or infinite value.
    Infinite { neg: bool },
    /// An explicit not-a-number.
    NotANumber,
}

/// Ten to the `n`.
pub open spec fn pow10(n: nat) -> nat
    decreases n,
{
    if n == 0 {
        1
    } else {
        10 * pow10((n - 1) as nat)
    }
}

impl MetricValue {
    /// Whether the value is finite.
    pub open spec fn spec_is_finite(self) -> bool {
        self is Num
    }

    /// Whether the value is strictly greater than zero.
    pub open spec fn spec_gt_zero(self) -> bool {
        match self {
            MetricValue::Num { neg, micro } => !neg && micro > 0,
            MetricValue::Infinite { neg } => !neg,
            MetricValue::NotANumber => false,
        }
    }

    /// The value as a whole-unit count: finite, non-negative values
    /// truncate toward zero (saturating at `u64::MAX`); negative,
    /// infinite and not-a-number values are rejected.
    pub open spec fn spec_to_u64(self) -> Option<u64> {
        match self {
            MetricValue::Num { neg, micro } => {
                if neg {
                    None
                } else if micro / 1_000_000 > u64::MAX {
                    Some(u64::MAX)
                } else {
                    Some((micro / 1_000_000) as u64)
                }
            },
            _ => None,
        }
    }

    /// The value divided by `k` as a whole-unit count, with the same
    /// validity rules as `spec_to_u64`.
    pub open spec fn spec_to_u64_div(self, k: u128) -> Option<u64>
        recommends k > 0,
    {
        match self {
            MetricValue::Num { neg, micro } => {
                if neg {
                    None
                } else if micro / 1_000_000 / k > u64::MAX {
                    Some(u64::MAX)
                } else {
                    Some((micro / 1_000_000 / k) as u64)
                }
            },
            _ => None,
        }
    }

    /// Whether the value is strictly greater than zero.
    pub fn gt_zero(&self) -> (r: bool)
        ensures
            r == self.spec_gt_zero(),
    {
        match self {
            MetricValue::Num { neg, micro } => !*neg && *micro > 0,
            MetricValue::Infinite { neg } => !*neg,
            MetricValue::NotANumber => false,
        }
    }

    /// Whether the value is finite.
    pub fn is_finite(&self) -> (r: bool)
        ensures
            r == self.spec_is_finite(),
    {
        match self {
            MetricValue::Num { .. } => true,
            _ => false,
        }
    }

    /// Truncate to whole units; rejects negative and non-finite values.
    pub fn to_u64(&self) -> (r: Option<u64>)
        ensures
            r == self.spec_to_u64(),
    {
        match self {
            MetricValue::Num { neg, micro } => {
                if *neg {
                    None
                } else {
                    let units = *micro / 1_000_000;
                    if units > u64::MAX as u128 {
                        Some(u64::MAX)
                    } else {
                        Some(units as u64)
                    }
                }
            },
            _ => None,
        }
    }

    /// Divide by `k` and truncate to whole units; rejects negative and
    /// non-finite values.
    pub fn to_u64_div(&self, k: u128) -> (r: Option<u64>)
        requires
            k > 0,
        ensures
            r == self.spec_to_u64_div(k),
    {
        match self {
            MetricValue::Num { neg, micro } => {
                if *neg {
                    None
                } else {
                    let units = *micro / 1_000_000 / k;
                    if units > u64::MAX as u128 {
                        Some(u64::MAX)
                    } else {
                        Some(units as u64)
                    }
                }
            },
            _ => None,
        }
    }

    /// The finite value with exactly `n` whole units.
    pub fn from_u64(n: u64) -> (r: Self)
        ensures
            r == (MetricValue::Num { neg: false, micro: (n * 1_000_000) as u128 }),
    {
        MetricValue::Num { neg: false, micro: n as u128 * 1_000_000 }
    }

    /// The finite value with the given sign and count of millionths.
    pub fn from_micros(neg: bool, micro: u128) -> (r: Self)
        ensures
            r == (MetricValue::Num { neg, micro }),
    {
        MetricValue::Num { neg, micro }
    }
}

/// The lowercase image of a character sequence.
pub open spec fn seq_lower(t: Seq<char>) -> Seq<char> {
    t.map(|i: int, c: char| lower_char(c))
}

/// Whether the sequence spells `inf` or `infinity`, ignoring ASCII case.
pub open spec fn is_inf_lit(t: Seq<char>) -> bool {
    seq_lower(t) == seq!['i', 'n', 'f'] || seq_lower(t) == seq!['i', 'n', 'f', 'i', 'n', 'i', 't', 'y']
}

/// Whether the sequence spells `nan`, ignoring ASCII case.
pub open spec fn is_nan_lit(t: Seq<char>) -> bool {
    seq_lower(t) == seq!['n', 'a', 'n']
}

/// The end of the run of digits starting at `i`.
pub open spec fn digits_end(t: Seq<char>, i: int) -> int
    decreases t.len() - i,
{
    if 0 <= i < t.len() && is_digit(t[i]) {
        digits_end(t, i + 1)
    } else {
        i
    }
}

/// The value denoted by a parsed number: sign, mantissa digits, fraction
/// length and a signed exponent. Yields the millionths count truncated
/// toward zero, saturating to the infinite value when it cannot be held.
pub open spec fn spec_number_value(neg: bool, digs: Seq<char>, frac_len: nat, eneg: bool, eval: nat) -> MetricValue {
    spec_number_value_capped(
        neg,
        digs,
        frac_len,
        eneg,
        if eval > EXP_CAP as nat { EXP_CAP as nat } else { eval },
    )
}

/// As `spec_number_value`, with the exponent already saturated.
pub open spec fn spec_number_value_capped(neg: bool, digs: Seq<char>, frac_len: nat, eneg: bool, e: nat) -> MetricValue {
    let shift = (if eneg { -(e as int) } else { e as int }) + 6 - frac_len;
    let d = digits_value(digs);
    if d == 0 {
        MetricValue::Num { neg: false, micro: 0 }
    } else if shift >= 0 {
        if d * pow10(shift as nat) > u128::MAX {
            MetricValue::Infinite { neg }
        } else {
            MetricValue::Num { neg, micro: (d * pow10(shift as nat)) as u128 }
        }
    } else {
        if d / pow10((-shift) as nat) > u128::MAX {
            MetricValue::Infinite { neg }
        } else {
            MetricValue::Num { neg, micro: (d / pow10((-shift) as nat)) as u128 }
        }
    }
}

/// Parse the body of a number (after any leading sign).
pub open spec fn spec_parse_number(neg: bool, b: Seq<char>) -> Option<MetricValue> {
    let i1 = digits_end(b, 0);
    let has_dot = i1 < b.len() && b[i1] == '.';
    let fs = if has_dot { i1 + 1 } else { i1 };
    let i2 = digits_end(b, fs);
    let digs = b.subrange(0, i1) + b.subrange(fs, i2);
    let frac_len = (i2 - fs) as nat;
    if digs.len() == 0 {
        None
    } else if i2 == b.len() {
        Some(spec_number_value(neg, digs, frac_len, false, 0))
    } else if b[i2] == 'e' || b[i2] == 'E' {
        let es = i2 + 1;
        if es >= b.len() {
            None
        } else {
            let eneg = b[es] == '-';
            let ds = if b[es] == '-' || b[es] == '+' { es + 1 } else { es };
            let i3 = digits_end(b, ds);
            if ds < i3 && i3 == b.len() {
                Some(spec_number_value(neg, digs, frac_len, eneg, digits_value(b.subrange(ds, i3))))
            } else {
                None
            }
        }
    } else {
        None
    }
}

/// Parse a decimal value token: an optional sign, then `inf`, `infinity`
/// or `nan` (ignoring case), or digits with an optional fraction and an
/// optional exponent; at least one mantissa digit is required and nothing
/// may follow.
pub open spec fn spec_parse_value(t: Seq<char>) -> Option<MetricValue> {
    if t.len() == 0 {
        None
    } else {
        let neg = t[0] == '-';
        let body = if t[0] == '-' || t[0] == '+' { t.drop_first() } else { t };
        if is_inf_lit(body) {
            Some(MetricValue::Infinite { neg })
        } else if is_nan_lit(body) {
            Some(MetricValue::NotANumber)
        } else {
            spec_parse_number(neg, body)
        }
    }
}

/// ASCII-lowercase a character.
fn to_lower(c: char) -> (r: char)
    ensures
        r == lower_char(c),
{
    if c >= 'A' && c <= 'Z' {
        (((c as u32) + 32) as u8) as char
    } else {
        c
    }
}

/// Find the end of the digit run starting at `i`.
pub(crate) fn scan_digits(s: &Vec<char>, i: usize, to: usize) -> (r: usize)
    requires
        i <= to <= s@.len(),
    ensures
        i <= r <= to,
        forall|j: int| i <= j < r ==> is_digit(s@[j]),
        r < to ==> !is_digit(s@[r as int]),
{
    let mut k: usize = i;
    while k < to && s[k] >= '0' && s[k] <= '9'
        invariant
            i <= k <= to <= s@.len(),
            forall|j: int| i <= j < k ==> is_digit(s@[j]),
        decreases to - k,
    {
        k = k + 1;
    }
    k
}

/// A run of digits followed by a non-digit (or the end) pins `digits_end`.
pub(crate) proof fn lemma_digits_end_char(t: Seq<char>, i: int, r: int)
    requires
        0 <= i <= r <= t.len(),
        forall|j: int| i <= j < r ==> is_digit(t[j]),
        r == t.len() || !is_digit(t[r]),
    ensures
        digits_end(t, i) == r,
    decreases r - i,
{
    if i < r {
        lemma_digits_end_char(t, i + 1, r);
    }
}

/// Digit values below ten keep `acc * 10 + d` within `u128` as long as
/// `acc` stays under the saturation bound.
fn saturating_digit_push(acc: u128, d: u128) -> (r: u128)
    requires
        acc <= EXP_CAP,
        d < 10,
    ensures
        r == if acc * 10 + d > EXP_CAP { EXP_CAP as int } else { acc * 10 + d },
{
    let next = acc * 10 + d;
    if next > EXP_CAP { EXP_CAP } else { next }
}

/// Accumulate the exponent digits `s[from..to]`, saturating at `EXP_CAP`.
fn parse_exponent(s: &Vec<char>, from: usize, to: usize) -> (r: u128)
    requires
        from <= to <= s@.len(),
        forall|j: int| from <= j < to ==> is_digit(s@[j]),
    ensures
        r == if digits_value(s@.subrange(from as int, to as int)) > EXP_CAP as nat {
            EXP_CAP as int
        } else {
            digits_value(s@.subrange(from as int, to as int)) as int
        },
{
    let ghost sub = s@.subrange(from as int, to as int);
    let mut acc: u128 = 0;
    let mut k: usize = from;
    while k < to
        invariant
            from <= k <= to <= s@.len(),
            sub == s@.subrange(from as int, to as int),
            forall|j: int| from <= j < to ==> is_digit(s@[j]),
            acc == if digits_value(sub.take(k - from)) > EXP_CAP as nat {
                EXP_CAP as int
            } else {
                digits_value(sub.take(k - from)) as int
            },
        decreases to - k,
    {
        let c = s[k];
        let d = (c as u32 - '0' as u32) as u128;
        proof {
            assert(sub.take(k + 1 - from).drop_last() =~= sub.take(k - from));
            assert(sub.take(k + 1 - from).last() == c);
            assert(is_digit(c));
            if digits_value(sub.take(k - from)) > EXP_CAP as nat {
                assert(digits_value(sub.take(k + 1 - from))
                    == digits_value(sub.take(k - from)) * 10 + digit_val(c));
                assert(digits_value(sub.take(k - from)) * 10
                    >= digits_value(sub.take(k - from))) by (nonlinear_arith);
            }
        }
        acc = saturating_digit_push(acc, d);
        k = k + 1;
    }
    proof {
        assert(sub.take(to - from) =~= sub);
    }
    acc
}

/// One more decimal digit multiplies by ten.
pub proof fn lemma_pow10_succ(n: nat)
    ensures
        pow10(n + 1) == 10 * pow10(n),
{
}

/// `pow10` is positive.
pub proof fn lemma_pow10_pos(n: nat)
    ensures
        pow10(n) >= 1,
    decreases n,
{
    if n > 0 {
        lemma_pow10_pos((n - 1) as nat);
    }
}

/// `pow10` is monotonic.
pub proof fn lemma_pow10_mono(a: nat, b: nat)
    requires
        a <= b,
    ensures
        pow10(a) <= pow10(b),
    decreases b,
{
    if a < b {
        lemma_pow10_mono(a, (b - 1) as nat);
        lemma_pow10_pos((b - 1) as nat);
    }
}

/// `digits_end` stays within the text.
pub proof fn lemma_digits_end_bounds(t: Seq<char>, i: int)
    requires
        0 <= i <= t.len(),
    ensures
        i <= digits_end(t, i) <= t.len(),
    decreases t.len() - i,
{
    if i < t.len() && is_digit(t[i]) {
        lemma_digits_end_bounds(t, i + 1);
    }
}

/// Forty decimal digits exceed `u128`.
pub proof fn lemma_pow10_40_large()
    ensures
        pow10(40) > u128::MAX,
{
    reveal_with_fuel(pow10, 41);
}

/// A number of `n` digits is below `pow10(n)`.
pub proof fn lemma_digits_value_upper(s: Seq<char>)
    requires
        all_digits(s),
    ensures
        digits_value(s) < pow10(s.len()),
    decreases s.len(),
{
    if s.len() == 0 {
    } else {
        assert(all_digits(s.drop_last())) by {
            assert(forall|i: int| 0 <= i < s.len() - 1 ==> s.drop_last()[i] == s[i]);
        }
        lemma_digits_value_upper(s.drop_last());
        assert(is_digit(s.last()));
        assert(digit_val(s.last()) <= 9);
    }
}

/// Dropping the last `m` digits of a number divides it by `pow10(m)`.
pub proof fn lemma_digits_div_pow10(s: Seq<char>, m: nat)
    requires
        all_digits(s),
        m <= s.len(),
    ensures
        digits_value(s) / pow10(m) == digits_value(s.take(s.len() - m)),
    decreases m,
{
    if m == 0 {
        assert(s.take(s.len() as int) =~= s);
        assert(digits_value(s) / 1 == digits_value(s)) by (nonlinear_arith);
    } else {
        let s0 = s.drop_last();
        assert(all_digits(s0)) by {
            assert(forall|i: int| 0 <= i < s.len() - 1 ==> s0[i] == s[i]);
        }
        let d = digit_val(s.last());
        assert(d < 10);
        assert(digits_value(s) == digits_value(s0) * 10 + d);
        assert((digits_value(s0) * 10 + d) / 10 == digits_value(s0)) by (nonlinear_arith)
            requires d < 10;
        lemma_digits_div_pow10(s0, (m - 1) as nat);
        assert(s0.take(s0.len() - (m - 1)) =~= s.take(s.len() - m));
        // (x / 10) / pow10(m-1) == x / (10 * pow10(m-1)) == x / pow10(m)
        lemma_pow10_pos((m - 1) as nat);
        vstd::arithmetic::div_mod::lemma_div_denominator(
            digits_value(s) as int, 10, pow10((m - 1) as nat) as int);
    }
}

/// A number whose digit-prefix already exceeds a bound exceeds it too.
pub proof fn lemma_digits_prefix_le(s: Seq<char>, k: int)
    requires
        0 <= k <= s.len(),
    ensures
        digits_value(s) >= digits_value(s.take(k)),
    decreases s.len() - k,
{
    if k < s.len() {
        lemma_digits_prefix_le(s, k + 1);
        assert(s.take(k + 1).drop_last() =~= s.take(k));
        assert(digits_value(s.take(k + 1))
            == digits_value(s.take(k)) * 10 + digit_val(s.take(k + 1).last()));
        assert(digits_value(s.take(k)) * 10 >= digits_value(s.take(k))) by (nonlinear_arith);
    } else {
        assert(s.take(k) =~= s);
    }
}

/// The mantissa digits of a number: the integer digits followed by the
/// fraction digits.
pub open spec fn mantissa_digits(s: Seq<char>, a1: int, b1: int, a2: int, b2: int) -> Seq<char> {
    s.subrange(a1, b1) + s.subrange(a2, b2)
}

/// Accumulate the first `keep` mantissa digits into a `u128`; `None`
/// when their value does not fit.
fn accumulate_digits(s: &Vec<char>, a1: usize, b1: usize, a2: usize, b2: usize, keep: usize)
    -> (r: Option<u128>)
    requires
        a1 <= b1 <= s@.len(),
        a2 <= b2 <= s@.len(),
        keep <= (b1 - a1) + (b2 - a2),
        forall|j: int| a1 <= j < b1 ==> is_digit(s@[j]),
        forall|j: int| a2 <= j < b2 ==> is_digit(s@[j]),
    ensures
        ({
            let digs = mantissa_digits(s@, a1 as int, b1 as int, a2 as int, b2 as int);
            r == if digits_value(digs.take(keep as int)) > u128::MAX {
                None::<u128>
            } else {
                Some(digits_value(digs.take(keep as int)) as u128)
            }
        }),
{
    let ghost digs = mantissa_digits(s@, a1 as int, b1 as int, a2 as int, b2 as int);
    let len1 = b1 - a1;
    let mut acc: u128 = 0;
    let mut k: usize = 0;
    while k < keep
        invariant
            0 <= k <= keep,
            a1 <= b1 <= s@.len(),
            a2 <= b2 <= s@.len(),
            keep <= (b1 - a1) + (b2 - a2),
            len1 == b1 - a1,
            forall|j: int| a1 <= j < b1 ==> is_digit(s@[j]),
            forall|j: int| a2 <= j < b2 ==> is_digit(s@[j]),
            digs == mantissa_digits(s@, a1 as int, b1 as int, a2 as int, b2 as int),
            acc == digits_value(digs.take(k as int)),
            digits_value(digs.take(k as int)) <= u128::MAX,
        decreases keep - k,
    {
        let c: char = if k < len1 { s[a1 + k] } else { s[a2 + (k - len1)] };
        proof {
            assert(digs[k as int] == c);
            assert(is_digit(c));
            assert(digs.take(k + 1).drop_last() =~= digs.take(k as int));
            assert(digs.take(k + 1).last() == c);
        }
        let d = (c as u32 - '0' as u32) as u128;
        if acc > (u128::MAX - d) / 10 {
            proof {
                assert(digits_value(digs.take(k + 1)) == acc * 10 + d);
                assert(acc * 10 + d > u128::MAX) by (nonlinear_arith)
                    requires acc > (u128::MAX - d) / 10, d < 10;
                lemma_digits_prefix_le(digs.take(keep as int), k + 1);
                assert(digs.take(keep as int).take(k + 1) =~= digs.take(k + 1));
            }
            return None;
        }
        proof {
            assert(acc * 10 + d <= u128::MAX) by (nonlinear_arith)
                requires acc <= (u128::MAX - d) / 10, d < 10;
        }
        acc = acc * 10 + d;
        k = k + 1;
    }
    Some(acc)
}

/// Whether the first `keep` mantissa digits are all zero.
fn mantissa_all_zero(s: &Vec<char>, a1: usize, b1: usize, a2: usize, b2: usize) -> (r: bool)
    requires
        a1 <= b1 <= s@.len(),
        a2 <= b2 <= s@.len(),
        (b1 - a1) + (b2 - a2) <= s@.len(),
    ensures
        ({
            let digs = mantissa_digits(s@, a1 as int, b1 as int, a2 as int, b2 as int);
            r == (forall|i: int| 0 <= i < digs.len() ==> digs[i] == '0')
        }),
{
    let ghost digs = mantissa_digits(s@, a1 as int, b1 as int, a2 as int, b2 as int);
    let n = s.len();
    let len1 = b1 - a1;
    let len2 = b2 - a2;
    let total = len1 + len2;
    let mut k: usize = 0;
    while k < total
        invariant
            0 <= k <= total,
            a1 <= b1 <= s@.len(),
            a2 <= b2 <= s@.len(),
            len1 == b1 - a1,
            len2 == b2 - a2,
            total == len1 + len2,
            digs == mantissa_digits(s@, a1 as int, b1 as int, a2 as int, b2 as int),
            forall|i: int| 0 <= i < k ==> digs[i] == '0',
        decreases total - k,
    {
        let c: char = if k < len1 { s[a1 + k] } else { s[a2 + (k - len1)] };
        proof {
            assert(digs[k as int] == c);
        }
        if c != '0' {
            return false;
        }
        k = k + 1;
    }
    true
}

/// Compute the value of a parsed number from its digit ranges, fraction
/// length and saturated exponent.
#[verifier::loop_isolation(false)]
fn compute_number(s: &Vec<char>, neg: bool, a1: usize, b1: usize, a2: usize, b2: usize, eneg: bool, e: u128)
    -> (r: MetricValue)
    requires
        a1 <= b1 <= s@.len(),
        a2 <= b2 <= s@.len(),
        (b1 - a1) + (b2 - a2) <= s@.len(),
        e <= EXP_CAP,
        forall|j: int| a1 <= j < b1 ==> is_digit(s@[j]),
        forall|j: int| a2 <= j < b2 ==> is_digit(s@[j]),
    ensures
        r == spec_number_value_capped(
            neg,
            mantissa_digits(s@, a1 as int, b1 as int, a2 as int, b2 as int),
            (b2 - a2) as nat,
            eneg,
            e as nat,
        ),
{
    let ghost digs = mantissa_digits(s@, a1 as int, b1 as int, a2 as int, b2 as int);
    let ghost d = digits_value(digs);
    let n = s.len();
    let frac_len = b2 - a2;
    let total_len = (b1 - a1) + frac_len;
    proof {
        assert(all_digits(digs));
        assert(digs.len() == total_len);
    }
    if mantissa_all_zero(s, a1, b1, a2, b2) {
        proof {
            lemma_digits_value_zero(digs);
        }
        return MetricValue::Num { neg: false, micro: 0 };
    }
    proof {
        lemma_digits_value_zero(digs);
        assert(d > 0);
    }
    let shift: i128 = (if eneg { -(e as i128) } else { e as i128 }) + 6 - (frac_len as i128);
    if shift >= 0 {
        let ghost sh = shift as nat;
        if shift >= 40 {
            proof {
                lemma_pow10_40_large();
                lemma_pow10_mono(40, sh);
                assert(d * pow10(sh) >= pow10(sh)) by (nonlinear_arith)
                    requires d >= 1, pow10(sh) >= 0;
            }
            return MetricValue::Infinite { neg };
        }
        match accumulate_digits(s, a1, b1, a2, b2, total_len) {
            None => {
                proof {
                    assert(digs.take(total_len as int) =~= digs);
                    lemma_pow10_pos(sh);
                    assert(d * pow10(sh) >= d) by (nonlinear_arith)
                        requires d >= 0, pow10(sh) >= 1;
                }
                MetricValue::Infinite { neg }
            },
            Some(acc0) => {
                proof {
                    assert(digs.take(total_len as int) =~= digs);
                    assert(pow10(0) == 1);
                    assert(d * pow10(0) == d) by (nonlinear_arith)
                        requires pow10(0) == 1;
                }
                let mut acc: u128 = acc0;
                let mut j: u64 = 0;
                while j < shift as u64
                    invariant
                        0 <= j <= shift <= 39,
                        sh == shift as nat,
                        acc == d * pow10(j as nat),
                        d * pow10(j as nat) <= u128::MAX,
                        d > 0,
                    decreases shift - j,
                {
                    match acc.checked_mul(10) {
                        None => {
                            proof {
                                lemma_pow10_succ(j as nat);
                                assert(d * pow10((j + 1) as nat) == acc * 10) by (nonlinear_arith)
                                    requires acc == d * pow10(j as nat),
                                        pow10((j + 1) as nat) == 10 * pow10(j as nat);
                                lemma_pow10_mono((j + 1) as nat, sh);
                                assert(d * pow10((j + 1) as nat) <= d * pow10(sh)) by (nonlinear_arith)
                                    requires d >= 0, pow10((j + 1) as nat) <= pow10(sh);
                            }
                            return MetricValue::Infinite { neg };
                        },
                        Some(next) => {
                            proof {
                                lemma_pow10_succ(j as nat);
                                assert(d * pow10((j + 1) as nat) == acc * 10) by (nonlinear_arith)
                                    requires acc == d * pow10(j as nat),
                                        pow10((j + 1) as nat) == 10 * pow10(j as nat);
                            }
                            acc = next;
                        },
                    }
                    j = j + 1;
                }
                MetricValue::Num { neg, micro: acc }
            },
        }
    } else {
        let m: i128 = -shift;
        if m >= total_len as i128 {
            proof {
                lemma_digits_value_upper(digs);
                lemma_pow10_mono(digs.len(), m as nat);
                vstd::arithmetic::div_mod::lemma_basic_div(d as int, pow10(m as nat) as int);
            }
            return MetricValue::Num { neg, micro: 0 };
        }
        let keep = total_len - (m as usize);
        proof {
            lemma_digits_div_pow10(digs, m as nat);
        }
        match accumulate_digits(s, a1, b1, a2, b2, keep) {
            None => MetricValue::Infinite { neg },
            Some(acc) => MetricValue::Num { neg, micro: acc },
        }
    }
}

/// Recognize the words `inf`, `infinity` and `nan`, ignoring ASCII case,
/// in `s[bs..to]`.
fn keyword_value(s: &Vec<char>, bs: usize, to: usize, neg: bool) -> (r: Option<MetricValue>)
    requires
        bs <= to <= s@.len(),
    ensures
        ({
            let body = s@.subrange(bs as int, to as int);
            r == if is_inf_lit(body) {
                Some(MetricValue::Infinite { neg })
            } else if is_nan_lit(body) {
                Some(MetricValue::NotANumber)
            } else {
                None::<MetricValue>
            }
        }),
{
    let ghost body = s@.subrange(bs as int, to as int);
    proof {
        assert(seq_lower(body).len() == body.len());
        assert(forall|j: int| 0 <= j < body.len()
            ==> seq_lower(body)[j] == lower_char(body[j]));
        assert(seq!['i', 'n', 'f'].len() == 3);
        assert(seq!['n', 'a', 'n'].len() == 3);
        assert(seq!['i', 'n', 'f', 'i', 'n', 'i', 't', 'y'].len() == 8);
    }
    let blen = to - bs;
    if blen == 3 {
        let l0 = to_lower(s[bs]);
        let l1 = to_lower(s[bs + 1]);
        let l2 = to_lower(s[bs + 2]);
        if l0 == 'i' && l1 == 'n' && l2 == 'f' {
            proof {
                assert(seq_lower(body) =~= seq!['i', 'n', 'f']);
            }
            return Some(MetricValue::Infinite { neg });
        }
        if l0 == 'n' && l1 == 'a' && l2 == 'n' {
            proof {
                assert(seq_lower(body) =~= seq!['n', 'a', 'n']);
                assert(seq_lower(body)[0] == 'n' && seq!['i', 'n', 'f'][0] == 'i');
                assert(!is_inf_lit(body));
            }
            return Some(MetricValue::NotANumber);
        }
        proof {
            assert(!is_inf_lit(body)) by {
                if is_inf_lit(body) {
                    assert(seq_lower(body) == seq!['i', 'n', 'f']);
                    assert(lower_char(body[0]) == seq!['i', 'n', 'f'][0]);
                    assert(lower_char(body[1]) == seq!['i', 'n', 'f'][1]);
                    assert(lower_char(body[2]) == seq!['i', 'n', 'f'][2]);
                }
            }
            assert(!is_nan_lit(body)) by {
                if is_nan_lit(body) {
                    assert(lower_char(body[0]) == seq!['n', 'a', 'n'][0]);
                    assert(lower_char(body[1]) == seq!['n', 'a', 'n'][1]);
                    assert(lower_char(body[2]) == seq!['n', 'a', 'n'][2]);
                }
            }
        }
        None
    } else if blen == 8 {
        let l0 = to_lower(s[bs]);
        let l1 = to_lower(s[bs + 1]);
        let l2 = to_lower(s[bs + 2]);
        let l3 = to_lower(s[bs + 3]);
        let l4 = to_lower(s[bs + 4]);
        let l5 = to_lower(s[bs + 5]);
        let l6 = to_lower(s[bs + 6]);
        let l7 = to_lower(s[bs + 7]);
        if l0 == 'i' && l1 == 'n' && l2 == 'f' && l3 == 'i' && l4 == 'n' && l5 == 'i'
            && l6 == 't' && l7 == 'y' {
            proof {
                assert(seq_lower(body) =~= seq!['i', 'n', 'f', 'i', 'n', 'i', 't', 'y']);
            }
            return Some(MetricValue::Infinite { neg });
        }
        proof {
            assert(!is_inf_lit(body)) by {
                if is_inf_lit(body) {
                    let lit = seq!['i', 'n', 'f', 'i', 'n', 'i', 't', 'y'];
                    assert(seq_lower(body) == lit);
                    assert(lower_char(body[0]) == lit[0]);
                    assert(lower_char(body[1]) == lit[1]);
                    assert(lower_char(body[2]) == lit[2]);
                    assert(lower_char(body[3]) == lit[3]);
                    assert(lower_char(body[4]) == lit[4]);
                    assert(lower_char(body[5]) == lit[5]);
                    assert(lower_char(body[6]) == lit[6]);
                    assert(lower_char(body[7]) == lit[7]);
                }
            }
            assert(!is_nan_lit(body));
        }
        None
    } else {
        proof {
            assert(!is_inf_lit(body));
            assert(!is_nan_lit(body));
        }
        None
    }
}

/// Parse the value token `s[from..to]` as the decimal grammar of
/// `spec_parse_value` describes.
#[verifier::loop_isolation(false)]
#[verifier::rlimit(100)]
pub fn parse_value_range(s: &Vec<char>, from: usize, to: usize) -> (r: Option<MetricValue>)
    requires
        from <= to <= s@.len(),
    ensures
        r == spec_parse_value(s@.subrange(from as int, to as int)),
{
    let ghost t = s@.subrange(from as int, to as int);
    if from == to {
        return None;
    }
    let c0 = s[from];
    let neg = c0 == '-';
    let bs: usize = if c0 == '-' || c0 == '+' { from + 1 } else { from };
    let ghost body = s@.subrange(bs as int, to as int);
    proof {
        if t[0] == '-' || t[0] == '+' {
            assert(body =~= t.drop_first());
        } else {
            assert(body =~= t);
        }
    }
    match keyword_value(s, bs, to, neg) {
        Some(v) => {
            return Some(v);
        },
        None => {},
    }
    parse_number_token(s, bs, to, neg)
}

/// Parse the digits / fraction / exponent form in `s[bs..to]`.
#[verifier::loop_isolation(false)]
#[verifier::rlimit(100)]
fn parse_number_token(s: &Vec<char>, bs: usize, to: usize, neg: bool) -> (r: Option<MetricValue>)
    requires
        bs <= to <= s@.len(),
    ensures
        r == spec_parse_number(neg, s@.subrange(bs as int, to as int)),
{
    let ghost body = s@.subrange(bs as int, to as int);
    // number: integer digits, optional fraction, optional exponent
    let i1 = scan_digits(s, bs, to);
    proof {
        assert(forall|j: int| 0 <= j < body.len() ==> body[j] == s@[bs + j]);
        lemma_digits_end_char(body, 0, i1 - bs);
        assert(digits_end(body, 0) == i1 - bs);
    }
    let has_dot = i1 < to && s[i1] == '.';
    let fs: usize = if has_dot { i1 + 1 } else { i1 };
    let i2 = scan_digits(s, fs, to);
    proof {
        lemma_digits_end_char(body, fs - bs, i2 - bs);
        assert(digits_end(body, fs - bs) == i2 - bs);
        assert(body.subrange(0, i1 - bs) =~= s@.subrange(bs as int, i1 as int));
        assert(body.subrange(fs - bs, i2 - bs) =~= s@.subrange(fs as int, i2 as int));
    }
    let int_len = i1 - bs;
    let frac_len = i2 - fs;
    if int_len + frac_len == 0 {
        return None;
    }
    let ghost digs = body.subrange(0, i1 - bs) + body.subrange(fs - bs, i2 - bs);
    proof {
        assert(digs =~= mantissa_digits(s@, bs as int, i1 as int, fs as int, i2 as int));
    }
    if i2 == to {
        let r = compute_number(s, neg, bs, i1, fs, i2, false, 0);
        proof {
            assert(spec_number_value(neg, digs, frac_len as nat, false, 0)
                == spec_number_value_capped(neg, digs, frac_len as nat, false, 0));
        }
        return Some(r);
    }
    let ec = s[i2];
    if !(ec == 'e' || ec == 'E') {
        return None;
    }
    let es = i2 + 1;
    if es >= to {
        return None;
    }
    let esc = s[es];
    let eneg = esc == '-';
    let ds: usize = if esc == '-' || esc == '+' { es + 1 } else { es };
    let i3 = scan_digits(s, ds, to);
    proof {
        lemma_digits_end_char(body, ds - bs, i3 - bs);
        assert(digits_end(body, ds - bs) == i3 - bs);
    }
    if !(ds < i3 && i3 == to) {
        return None;
    }
    proof {
        assert(body.subrange(ds - bs, i3 - bs) =~= s@.subrange(ds as int, i3 as int));
    }
    let e = parse_exponent(s, ds, i3);
    let ghost eval = digits_value(body.subrange(ds - bs, i3 - bs));
    let r = compute_number(s, neg, bs, i1, fs, i2, eneg, e);
    proof {
        assert(e as nat == if eval > EXP_CAP as nat { EXP_CAP as nat } else { eval });
        assert(spec_number_value(neg, digs, frac_len as nat, eneg, eval)
            == spec_number_value_capped(neg, digs, frac_len as nat, eneg, e as nat));
    }
    Some(r)
}

/// A digit string denotes zero exactly when all its digits are `0`.
pub proof fn lemma_digits_value_zero(s: Seq<char>)
    requires
        all_digits(s),
    ensures
        (digits_value(s) == 0) <==> (forall|i: int| 0 <= i < s.len() ==> s[i] == '0'),
    decreases s.len(),
{
    if s.len() > 0 {
        let s0 = s.drop_last();
        assert(all_digits(s0)) by {
            assert(forall|i: int| 0 <= i < s.len() - 1 ==> s0[i] == s[i]);
        }
        lemma_digits_value_zero(s0);
        assert(is_digit(s.last()));
        assert(digits_value(s) == digits_value(s0) * 10 + digit_val(s.last()));
        if digits_value(s) == 0 {
            assert(digits_value(s0) * 10 >= 0) by (nonlinear_arith);
            assert(digits_value(s0) == 0) by (nonlinear_arith)
                requires digits_value(s0) * 10 + digit_val(s.last()) == 0;
            assert(digit_val(s.last()) == 0);
            assert(s.last() == '0');
            assert(forall|i: int| 0 <= i < s.len() ==> s[i] == '0') by {
                assert(forall|i: int| 0 <= i < s.len() - 1 ==> s[i] == s0[i]);
            }
        } else {
            if forall|i: int| 0 <= i < s.len() ==> s[i] == '0' {
                assert(forall|i: int| 0 <= i < s0.len() ==> s0[i] == '0');
                assert(digits_value(s0) == 0);
                assert(s.last() == '0');
                assert(digit_val(s.last()) == 0);
                assert(digits_value(s) == 0) by (nonlinear_arith)
                    requires digits_value(s0) == 0, digit_val(s.last()) == 0,
                        digits_value(s) == digits_value(s0) * 10 + digit_val(s.last());
            }
        }
    }
}

} // verus!
