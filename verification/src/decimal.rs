//! Exact decimal numbers and their text form.
//!
//! Kernel-machine model files carry real numbers as decimal literals.  The
//! library keeps them exact, as an integer mantissa over a power of ten,
//! so that what was parsed can be stated precisely; the surrounding
//! application converts to machine floating point only where the kernel
//! arithmetic itself happens.

use vstd::arithmetic::power::pow;
use vstd::prelude::*;

use crate::textparse::{all_digits, before_char, digits_value, is_digit, parse_usize};

verus! {

/// `10^e`.
pub open spec fn pow10(e: nat) -> int {
    pow(10, e)
}

/// An exact decimal number: `mantissa / 10^exp`.
#[derive(Debug, Clone, Copy, PartialEq)]
pub struct Decimal {
    mantissa: i64,
    exp: u32,
}

impl Decimal {
    /// Mantissa.
    pub closed spec fn mantissa(self) -> int {
        self.mantissa as int
    }

    /// Power-of-ten scale of the mantissa.
    pub closed spec fn exp(self) -> nat {
        self.exp as nat
    }

    /// The decimal value with the given parts, for use in specifications.
    pub closed spec fn spec_decimal(mantissa: int, exp: nat) -> Decimal {
        Decimal { mantissa: mantissa as i64, exp: exp as u32 }
    }

    /// `spec_decimal` returns exactly the given parts whenever they fit
    /// the machine words.
    pub proof fn lemma_spec_decimal(mantissa: int, exp: nat)
        requires
            i64::MIN <= mantissa <= i64::MAX,
            exp <= u32::MAX,
        ensures
            Decimal::spec_decimal(mantissa, exp).mantissa() == mantissa,
            Decimal::spec_decimal(mantissa, exp).exp() == exp,
    {
    }

    pub fn new(mantissa: i64, exp: u32) -> (r: Decimal)
        ensures
            r.mantissa() == mantissa,
            r.exp() == exp,
            r == Decimal::spec_decimal(mantissa as int, exp as nat),
    {
        Decimal { mantissa, exp }
    }

    pub fn mantissa_val(&self) -> (r: i64)
        ensures
            r == self.mantissa(),
    {
        self.mantissa
    }

    pub fn exp_val(&self) -> (r: u32)
        ensures
            r == self.exp(),
    {
        self.exp
    }

    /// The decimal denotes the rational `num / 10^e10`; `e10` may be
    /// negative, scaling the other side up instead.
    pub open spec fn denotes(self, num: int, e10: int) -> bool {
        if e10 >= self.exp() {
            self.mantissa() * pow10((e10 - self.exp()) as nat) == num
        } else {
            self.mantissa() == num * pow10((self.exp() - e10) as nat)
        }
    }
}

/// The exponent marker of a decimal literal.
pub open spec fn is_exp_char(c: char) -> bool {
    c == 'e' || c == 'E'
}

/// The index of the first exponent marker, or the length if there is
/// none.
pub open spec fn exp_idx(s: Seq<char>) -> int
    decreases s.len(),
{
    if s.len() == 0 {
        0
    } else if is_exp_char(s[0]) {
        0
    } else {
        1 + exp_idx(s.skip(1))
    }
}

proof fn lemma_exp_idx(s: Seq<char>, i: int)
    requires
        0 <= i <= s.len(),
        forall|j: int| 0 <= j < i ==> !is_exp_char(#[trigger] s[j]),
        i == s.len() || is_exp_char(s[i]),
    ensures
        exp_idx(s) == i,
    decreases i,
{
    if s.len() > 0 && i > 0 {
        lemma_exp_idx(s.skip(1), i - 1);
        assert(forall|j: int| 0 <= j < i - 1 ==> s.skip(1)[j] == #[trigger] s[j + 1]);
    }
}

/// The mantissa part of a literal: everything before the exponent marker.
pub open spec fn mantissa_str(s: Seq<char>) -> Seq<char> {
    s.take(exp_idx(s))
}

/// The exponent part of a literal, when there is one: everything after
/// the marker.
pub open spec fn exponent_str(s: Seq<char>) -> Option<Seq<char>> {
    if exp_idx(s) < s.len() {
        Some(s.skip(exp_idx(s) + 1))
    } else {
        None
    }
}

/// A leading sign, if any, stripped off.
pub open spec fn unsigned_of(s: Seq<char>) -> Seq<char> {
    if s.len() > 0 && (s[0] == '-' || s[0] == '+') {
        s.skip(1)
    } else {
        s
    }
}

/// The sign a literal starts with.
pub open spec fn sign_of(s: Seq<char>) -> int {
    if s.len() > 0 && s[0] == '-' {
        -1
    } else {
        1
    }
}

/// The digits before the decimal point of an unsigned mantissa.
pub open spec fn int_digits_of(u: Seq<char>) -> Seq<char> {
    before_char(u, '.')
}

/// The digits after the decimal point, empty if there is no point.
pub open spec fn frac_digits_of(u: Seq<char>) -> Seq<char> {
    if u.contains('.') {
        u.skip(int_digits_of(u).len() as int + 1)
    } else {
        Seq::empty()
    }
}

/// The digits before the decimal point.
pub open spec fn int_digits(s: Seq<char>) -> Seq<char> {
    int_digits_of(unsigned_of(mantissa_str(s)))
}

/// The digits after the decimal point, empty if there is no point.
pub open spec fn frac_digits(s: Seq<char>) -> Seq<char> {
    frac_digits_of(unsigned_of(mantissa_str(s)))
}

/// Every character is a digit; an empty run is allowed here.
pub open spec fn digits_or_empty(s: Seq<char>) -> bool {
    forall|i: int| 0 <= i < s.len() ==> is_digit(#[trigger] s[i])
}

/// A well-formed unsigned mantissa: at least one digit split around at
/// most one decimal point.
pub open spec fn mantissa_valid(u: Seq<char>) -> bool {
    &&& digits_or_empty(int_digits_of(u))
    &&& digits_or_empty(frac_digits_of(u))
    &&& int_digits_of(u).len() + frac_digits_of(u).len() >= 1
}

/// A well-formed decimal literal: an optionally signed mantissa and, if
/// an exponent marker is present, an optionally signed non-empty run of
/// digits after it.
pub open spec fn dec_valid(s: Seq<char>) -> bool {
    &&& mantissa_valid(unsigned_of(mantissa_str(s)))
    &&& (exponent_str(s) matches Some(e) ==> all_digits(unsigned_of(e)))
}

/// The magnitude of the mantissa: all its digits read as one integer.
pub open spec fn dec_mag(s: Seq<char>) -> int {
    digits_value(int_digits(s) + frac_digits(s))
}

/// The signed mantissa value of a literal.
pub open spec fn dec_num(s: Seq<char>) -> int {
    sign_of(mantissa_str(s)) * dec_mag(s)
}

/// The declared exponent, zero when absent.
pub open spec fn dec_exp_value(s: Seq<char>) -> int {
    match exponent_str(s) {
        Some(e) => (if e.len() > 0 && e[0] == '-' {
            -1int
        } else {
            1int
        }) * digits_value(unsigned_of(e)),
        None => 0,
    }
}

/// The power of ten the mantissa value is scaled down by: the literal
/// denotes `dec_num(s) / 10^dec_e10(s)`.
pub open spec fn dec_e10(s: Seq<char>) -> int {
    frac_digits(s).len() - dec_exp_value(s)
}

/// Whether the literal's exact value fits the machine representation: the
/// mantissa in an `i64` after scaling any surplus power of ten into it,
/// and the exponents within fixed bounds.
pub open spec fn dec_fits(s: Seq<char>) -> bool {
    &&& dec_mag(s) <= i64::MAX
    &&& frac_digits(s).len() <= 2_000_000_000
    &&& (exponent_str(s) matches Some(e) ==> digits_value(unsigned_of(e)) <= 1_000_000_000)
    &&& (dec_e10(s) < 0 ==> dec_mag(s) * pow10((-dec_e10(s)) as nat) <= i64::MAX)
}

/// Once a digit prefix of a digit string exceeds a bound, every longer
/// prefix does.
proof fn lemma_digits_grow(s: Seq<char>, i: int, j: int)
    requires
        0 <= i <= j <= s.len(),
        forall|k: int| 0 <= k < s.len() ==> is_digit(#[trigger] s[k]),
    ensures
        digits_value(s.take(j)) >= digits_value(s.take(i)) >= 0,
    decreases j - i,
{
    lemma_digits_nonneg(s.take(i));
    if i < j {
        lemma_digits_grow(s, i + 1, j);
        assert(s.take(i + 1).drop_last() =~= s.take(i));
        assert(digits_value(s.take(i + 1)) == digits_value(s.take(i)) * 10 + (s[i] as int
            - '0' as int));
    }
}

proof fn lemma_digits_nonneg(s: Seq<char>)
    requires
        forall|k: int| 0 <= k < s.len() ==> is_digit(#[trigger] s[k]),
    ensures
        digits_value(s) >= 0,
    decreases s.len(),
{
    if s.len() > 0 {
        lemma_digits_nonneg(s.drop_last());
    }
}

/// Powers of ten are positive.
proof fn lemma_pow10_pos(e: nat)
    ensures
        pow10(e) >= 1,
{
    vstd::arithmetic::power::lemma_pow_positive(10, e);
}

/// `before_char` is a prefix whose characters avoid `c` and that stops
/// only at `c` or the end.
proof fn lemma_before_char_props(s: Seq<char>, c: char)
    ensures
        before_char(s, c).len() <= s.len(),
        forall|m: int| 0 <= m < before_char(s, c).len() ==> #[trigger] before_char(s, c)[m] == s[m],
        before_char(s, c).len() == s.len() || s[before_char(s, c).len() as int] == c,
    decreases s.len(),
{
    if s.len() > 0 && s[0] != c {
        lemma_before_char_props(s.skip(1), c);
        assert(forall|m: int| 0 <= m < s.len() - 1 ==> s.skip(1)[m] == #[trigger] s[m + 1]);
        assert(before_char(s, c) == seq![s[0]] + before_char(s.skip(1), c));
    }
}

/// The first `k` characters of `u` are digits, so the part before any dot
/// begins with them.
proof fn lemma_before_prefix(u: Seq<char>, k: int)
    requires
        0 <= k <= u.len(),
        forall|m: int| 0 <= m < k ==> is_digit(#[trigger] u[m]),
    ensures
        before_char(u, '.').len() >= k,
        forall|m: int| 0 <= m < k ==> #[trigger] before_char(u, '.')[m] == u[m],
    decreases k,
{
    if k > 0 {
        assert(u[0] != '.');
        lemma_before_prefix(u.skip(1), k - 1);
        assert(forall|m: int| 0 <= m < k - 1 ==> u.skip(1)[m] == #[trigger] u[m + 1]);
        assert(before_char(u, '.') == seq![u[0]] + before_char(u.skip(1), '.'));
    }
}

/// With digits up to the first dot, the literal splits exactly there.
proof fn lemma_split_at_dot(u: Seq<char>, dot_pos: int)
    requires
        0 <= dot_pos < u.len(),
        u[dot_pos] == '.',
        forall|m: int| 0 <= m < dot_pos ==> is_digit(#[trigger] u[m]),
    ensures
        before_char(u, '.') == u.take(dot_pos),
        u.contains('.'),
    decreases dot_pos,
{
    assert(u.contains('.')) by {
        assert(u[dot_pos] == '.');
    }
    if dot_pos == 0 {
        assert(before_char(u, '.') =~= u.take(0));
    } else {
        assert(u[0] != '.');
        lemma_split_at_dot(u.skip(1), dot_pos - 1);
        assert(forall|m: int| 0 <= m < dot_pos - 1 ==> u.skip(1)[m] == #[trigger] u[m + 1]);
        assert(before_char(u, '.') == seq![u[0]] + before_char(u.skip(1), '.'));
        assert(seq![u[0]] + u.skip(1).take(dot_pos - 1) =~= u.take(dot_pos));
    }
}

/// A non-digit, non-dot character before any dot makes the integer part
/// invalid.
proof fn lemma_no_dot_yet(u: Seq<char>, rel: int)
    requires
        0 <= rel < u.len(),
        forall|m: int| 0 <= m < rel ==> is_digit(#[trigger] u[m]),
        !is_digit(u[rel]),
        u[rel] != '.',
    ensures
        !digits_or_empty(before_char(u, '.')),
{
    lemma_before_prefix(u, rel);
    lemma_before_char_props(u, '.');
    if before_char(u, '.').len() <= rel {
        assert(before_char(u, '.').len() == rel);
        assert(u[rel] == '.');
    } else {
        assert(before_char(u, '.')[rel] == u[rel]);
    }
}

/// A dot-free all-digit string is entirely its own integer part.
proof fn lemma_no_dot_final(u: Seq<char>)
    requires
        forall|m: int| 0 <= m < u.len() ==> is_digit(#[trigger] u[m]),
    ensures
        before_char(u, '.') == u,
        !u.contains('.'),
    decreases u.len(),
{
    if u.len() == 0 {
    } else {
        assert(u[0] != '.');
        lemma_no_dot_final(u.skip(1));
        assert(forall|m: int| 0 <= m < u.len() - 1 ==> u.skip(1)[m] == #[trigger] u[m + 1]);
        assert(before_char(u, '.') == seq![u[0]] + u.skip(1));
        assert(seq![u[0]] + u.skip(1) =~= u);
        if u.contains('.') {
            let m = choose|m: int| 0 <= m < u.len() && u[m] == '.';
            assert(is_digit(u[m]));
        }
    }
}

/// Scaling past the point where one more factor of ten overflows puts the
/// full scaled value out of range.
proof fn lemma_scale_overflow(mag: int, t: nat, steps: nat)
    requires
        0 <= mag,
        t < steps,
        mag * pow10(t) * 10 > i64::MAX,
    ensures
        mag * pow10(steps) > i64::MAX,
{
    vstd::arithmetic::power::lemma_pow_adds(10, t + 1, (steps - t - 1) as nat);
    assert(pow10(t + 1) == 10 * pow10(t)) by {
        vstd::arithmetic::power::lemma_pow_adds(10, t, 1);
        vstd::arithmetic::power::lemma_pow1(10);
    };
    lemma_pow10_pos((steps - t - 1) as nat);
    lemma_pow10_pos(t);
    assert(mag * pow10(steps) >= mag * pow10(t) * 10) by (nonlinear_arith)
        requires
            0 <= mag,
            pow10(steps) == pow10(t + 1) * pow10((steps - t - 1) as nat),
            pow10(t + 1) == 10 * pow10(t),
            pow10((steps - t - 1) as nat) >= 1,
            pow10(t) >= 1,
    ;
}

/// Reads an unsigned mantissa: digits around at most one decimal point.
/// Returns the value of all its digits read as one integer, and the
/// number of fraction digits.  Succeeds exactly when the mantissa is well
/// formed and its digits fit an `i64`.
fn scan_mantissa(u: &str) -> (r: Result<(i64, usize), ()>)
    ensures
        r is Ok <==> mantissa_valid(u@) && digits_value(int_digits_of(u@) + frac_digits_of(u@))
            <= i64::MAX,
        r matches Ok((acc, flen)) ==> {
            &&& acc == digits_value(int_digits_of(u@) + frac_digits_of(u@))
            &&& flen == frac_digits_of(u@).len()
            &&& acc >= 0
        },
{
    let ulen = u.unicode_len();
    let mut acc: i64 = 0;
    let mut frac_len: usize = 0;
    let mut dot_seen = false;
    let ghost mut dot_pos: int = 0;
    let mut k: usize = 0;
    while k < ulen
        invariant
            ulen == u@.len(),
            k <= ulen,
            0 <= acc <= i64::MAX,
            !dot_seen ==> {
                &&& forall|m: int| 0 <= m < k ==> is_digit(#[trigger] u@[m])
                &&& acc == digits_value(u@.take(k as int))
                &&& frac_len == 0
            },
            dot_seen ==> {
                &&& 0 <= dot_pos < k
                &&& u@[dot_pos] == '.'
                &&& forall|m: int| 0 <= m < dot_pos ==> is_digit(#[trigger] u@[m])
                &&& forall|m: int| dot_pos < m < k ==> is_digit(#[trigger] u@[m])
                &&& acc == digits_value(u@.take(dot_pos) + u@.subrange(dot_pos + 1, k as int))
                &&& frac_len == k - dot_pos - 1
            },
        decreases ulen - k,
    {
        let c = u.get_char(k);
        if c == '.' {
            if dot_seen {
                // a second decimal point: the fraction part is not digits
                proof {
                    lemma_split_at_dot(u@, dot_pos);
                    assert(frac_digits_of(u@)[k - dot_pos - 1] == '.');
                }
                return Err(());
            }
            dot_seen = true;
            proof {
                dot_pos = k as int;
                assert(u@.take(dot_pos) + u@.subrange(dot_pos + 1, k as int + 1) =~= u@.take(
                    k as int,
                ));
            }
        } else if '0' <= c && c <= '9' {
            let d = (c as u32 - 48) as i64;
            let ghost scanned = if dot_seen {
                u@.take(dot_pos) + u@.subrange(dot_pos + 1, k as int)
            } else {
                u@.take(k as int)
            };
            proof {
                if dot_seen {
                    assert(u@.take(dot_pos) + u@.subrange(dot_pos + 1, k as int + 1)
                        =~= scanned.push(u@[k as int]));
                } else {
                    assert(u@.take(k as int + 1) =~= scanned.push(u@[k as int]));
                }
                assert(scanned.push(u@[k as int]).drop_last() =~= scanned);
            }
            if acc > (i64::MAX - d) / 10 {
                proof {
                    assert(acc * 10 + d > i64::MAX) by {
                        let q = (i64::MAX - d) / 10;
                        assert(i64::MAX - d == 10 * q + (i64::MAX - d) % 10);
                    };
                    if mantissa_valid(u@) {
                        lemma_overflow_means_large(u@, k as int, dot_seen, dot_pos, scanned);
                        let all = int_digits_of(u@) + frac_digits_of(u@);
                        assert(acc * 10 + d == digits_value(all.take(scanned.len() as int + 1)));
                        lemma_digits_grow(all, scanned.len() as int + 1, all.len() as int);
                        assert(all.take(all.len() as int) =~= all);
                    }
                }
                return Err(());
            }
            acc = acc * 10 + d;
            if dot_seen {
                frac_len = frac_len + 1;
            }
        } else {
            // neither a digit nor the one decimal point
            proof {
                if dot_seen {
                    lemma_split_at_dot(u@, dot_pos);
                    assert(frac_digits_of(u@)[k - dot_pos - 1] == u@[k as int]);
                } else {
                    lemma_no_dot_yet(u@, k as int);
                }
            }
            return Err(());
        }
        k = k + 1;
    }
    proof {
        if dot_seen {
            lemma_split_at_dot(u@, dot_pos);
            assert(u@.take(dot_pos) =~= int_digits_of(u@));
            assert(u@.subrange(dot_pos + 1, ulen as int) =~= frac_digits_of(u@));
            assert(u@.take(dot_pos) + u@.subrange(dot_pos + 1, ulen as int) =~= int_digits_of(u@)
                + frac_digits_of(u@));
        } else {
            lemma_no_dot_final(u@);
            assert(u@.take(ulen as int) =~= u@);
            assert(int_digits_of(u@) + frac_digits_of(u@) =~= u@);
        }
        assert(acc == digits_value(int_digits_of(u@) + frac_digits_of(u@)));
        assert(frac_len == frac_digits_of(u@).len());
    }
    if ulen == 0 || (ulen == 1 && dot_seen) {
        // no digit at all
        return Err(());
    }
    proof {
        assert(int_digits_of(u@).len() + frac_digits_of(u@).len() >= 1);
        assert(mantissa_valid(u@));
    }
    Ok((acc, frac_len))
}

/// If the running value overflows mid-scan of a valid mantissa, the whole
/// digit string's value overflows.
proof fn lemma_overflow_means_large(
    u: Seq<char>,
    rel: int,
    dot_seen: bool,
    dot_pos: int,
    scanned: Seq<char>,
)
    requires
        mantissa_valid(u),
        0 <= rel < u.len(),
        !dot_seen ==> {
            &&& forall|m: int| 0 <= m < rel ==> is_digit(#[trigger] u[m])
            &&& scanned == u.take(rel)
        },
        dot_seen ==> {
            &&& 0 <= dot_pos < rel
            &&& u[dot_pos] == '.'
            &&& forall|m: int| 0 <= m < dot_pos ==> is_digit(#[trigger] u[m])
            &&& forall|m: int| dot_pos < m < rel ==> is_digit(#[trigger] u[m])
            &&& scanned == u.take(dot_pos) + u.subrange(dot_pos + 1, rel)
        },
        is_digit(u[rel]),
        u[rel] != '.',
    ensures
        scanned.len() as int + 1 <= (int_digits_of(u) + frac_digits_of(u)).len(),
        scanned.push(u[rel]) == (int_digits_of(u) + frac_digits_of(u)).take(
            scanned.len() as int + 1,
        ),
{
    let all = int_digits_of(u) + frac_digits_of(u);
    if dot_seen {
        lemma_split_at_dot(u, dot_pos);
        assert(int_digits_of(u) =~= u.take(dot_pos));
        assert(frac_digits_of(u) =~= u.skip(dot_pos + 1));
        assert(scanned.push(u[rel]) =~= all.take(scanned.len() as int + 1));
    } else {
        // every scanned character is a digit; the first dot, if any, is
        // at or after `rel + 1`
        lemma_before_prefix(u, rel + 1);
        assert(scanned.push(u[rel]) =~= u.take(rel + 1));
        lemma_before_char_props(u, '.');
        if u.contains('.') {
            assert(frac_digits_of(u) == u.skip(int_digits_of(u).len() as int + 1));
        } else {
            assert(all =~= int_digits_of(u));
        }
        assert(scanned.push(u[rel]) =~= all.take(scanned.len() as int + 1));
    }
}

/// Reads an exponent part: an optional sign and a non-empty run of
/// digits.  Succeeds exactly when the digits are well formed and denote
/// at most a billion.
fn parse_exponent(es: &str) -> (r: Result<i64, ()>)
    ensures
        r is Ok <==> all_digits(unsigned_of(es@)) && digits_value(unsigned_of(es@))
            <= 1_000_000_000,
        r matches Ok(v) ==> v == (if es@.len() > 0 && es@[0] == '-' {
            -1int
        } else {
            1int
        }) * digits_value(unsigned_of(es@)),
{
    let es_len = es.unicode_len();
    let (neg_exp, digits) = if es_len > 0 && es.get_char(0) == '-' {
        (true, es.substring_char(1, es_len))
    } else if es_len > 0 && es.get_char(0) == '+' {
        (false, es.substring_char(1, es_len))
    } else {
        (false, es)
    };
    proof {
        assert(digits@ == unsigned_of(es@));
    }
    let v = match parse_usize(digits) {
        Ok(v) => v,
        Err(()) => {
            return Err(());
        },
    };
    if v > 1_000_000_000 {
        return Err(());
    }
    proof {
        assert(v == digits_value(digits@));
        assert(v == digits_value(unsigned_of(es@)));
        assert(neg_exp == (es@.len() > 0 && es@[0] == '-'));
    }
    let result: i64 = if neg_exp {
        -(v as i64)
    } else {
        v as i64
    };
    proof {
        if neg_exp {
            assert(result == -1 * digits_value(unsigned_of(es@)));
        } else {
            assert(result == 1 * digits_value(unsigned_of(es@)));
        }
        assert(result == (if es@.len() > 0 && es@[0] == '-' {
            -1int
        } else {
            1int
        }) * digits_value(unsigned_of(es@)));
    }
    Ok(result)
}

/// Multiplies a non-negative mantissa by `10^steps`, failing when the
/// result leaves the machine word.
fn scale_mantissa(acc: i64, steps: u64) -> (r: Result<i64, ()>)
    requires
        0 <= acc,
    ensures
        r is Ok <==> acc * pow10(steps as nat) <= i64::MAX,
        r matches Ok(v) ==> v == acc * pow10(steps as nat) && v >= 0,
{
    let mut t: u64 = 0;
    let mut cur = acc;
    proof {
        vstd::arithmetic::power::lemma_pow0(10);
    }
    while t < steps
        invariant
            0 <= acc,
            0 <= cur <= i64::MAX,
            t <= steps,
            cur == acc * pow10(t as nat),
        decreases steps - t,
    {
        proof {
            assert(pow10(t as nat + 1) == 10 * pow10(t as nat)) by {
                vstd::arithmetic::power::lemma_pow_adds(10, t as nat, 1);
                vstd::arithmetic::power::lemma_pow1(10);
            };
            lemma_pow10_pos(t as nat);
        }
        if cur > i64::MAX / 10 {
            proof {
                assert(cur * 10 > i64::MAX) by {
                    assert(i64::MAX == 10 * (i64::MAX / 10) + i64::MAX % 10);
                };
                lemma_scale_overflow(acc as int, t as nat, steps as nat);
            }
            return Err(());
        }
        let ghost oldcur = cur as int;
        cur = cur * 10;
        proof {
            assert(cur == acc * pow10(t as nat + 1)) by (nonlinear_arith)
                requires
                    oldcur == acc * pow10(t as nat),
                    cur == oldcur * 10,
                    pow10(t as nat + 1) == 10 * pow10(t as nat),
            ;
        }
        t = t + 1;
    }
    Ok(cur)
}

/// Parses a decimal literal: an optional sign, digits around at most one
/// decimal point, and an optional exponent part.  Succeeds exactly on
/// well-formed literals whose value fits the exact representation.
pub fn parse_decimal(s: &str) -> (r: Result<Decimal, ()>)
    ensures
        r is Ok <==> dec_valid(s@) && dec_fits(s@),
        r matches Ok(d) ==> d.denotes(dec_num(s@), dec_e10(s@)),
{
    let len = s.unicode_len();
    // locate the exponent marker
    let mut ei: usize = 0;
    while ei < len && s.get_char(ei) != 'e' && s.get_char(ei) != 'E'
        invariant
            len == s@.len(),
            ei <= len,
            forall|j: int| 0 <= j < ei ==> !is_exp_char(#[trigger] s@[j]),
        decreases len - ei,
    {
        ei = ei + 1;
    }
    proof {
        lemma_exp_idx(s@, ei as int);
    }
    let mant = s.substring_char(0, ei);
    proof {
        assert(mant@ == mantissa_str(s@));
    }
    // the exponent value, zero when absent
    let e_val: i64 = if ei == len {
        proof {
            assert(exponent_str(s@) is None);
        }
        0
    } else {
        let es = s.substring_char(ei + 1, len);
        proof {
            assert(exponent_str(s@) == Some(es@));
        }
        let ev = match parse_exponent(es) {
            Ok(v) => v,
            Err(()) => {
                return Err(());
            },
        };
        proof {
            assert(all_digits(unsigned_of(es@)));
            assert(digits_value(unsigned_of(es@)) <= 1_000_000_000);
            lemma_digits_nonneg(unsigned_of(es@));
            assert(digits_value(unsigned_of(es@)) >= 0);
            if es@.len() > 0 && es@[0] == '-' {
                assert(ev == -1 * digits_value(unsigned_of(es@)));
            } else {
                assert(ev == 1 * digits_value(unsigned_of(es@)));
            }
            assert(-1_000_000_000 <= ev <= 1_000_000_000);
            assert(ev == dec_exp_value(s@));
        }
        ev
    };
    proof {
        assert(e_val == dec_exp_value(s@));
        assert(-1_000_000_000 <= e_val <= 1_000_000_000);
    }
    // the mantissa value and the number of fraction digits
    let mlen = mant.unicode_len();
    let start: usize = if mlen > 0 && (mant.get_char(0) == '-' || mant.get_char(0) == '+') {
        1
    } else {
        0
    };
    let negative = mlen > 0 && mant.get_char(0) == '-';
    let unsigned = mant.substring_char(start, mlen);
    proof {
        assert(unsigned@ == unsigned_of(mantissa_str(s@)));
        assert(negative == (sign_of(mantissa_str(s@)) == -1));
    }
    let (acc, frac_len) = match scan_mantissa(unsigned) {
        Ok(p) => p,
        Err(()) => {
            return Err(());
        },
    };
    proof {
        assert(acc == dec_mag(s@));
        assert(frac_len == frac_digits(s@).len());
    }
    if frac_len > 2_000_000_000 {
        // unreachable in practice; keeps the exponent arithmetic in range
        return Err(());
    }
    let e10: i64 = frac_len as i64 - e_val;
    proof {
        assert(e10 == dec_e10(s@));
        if negative {
            assert(dec_num(s@) == -1 * dec_mag(s@));
        } else {
            assert(dec_num(s@) == 1 * dec_mag(s@));
        }
    }
    if e10 >= 0 {
        let m = if negative {
            -acc
        } else {
            acc
        };
        let d = Decimal::new(m, e10 as u32);
        proof {
            vstd::arithmetic::power::lemma_pow0(10);
            assert(dec_valid(s@) && dec_fits(s@));
        }
        Ok(d)
    } else {
        // scale the surplus exponent into the mantissa
        let steps = (-e10) as u64;
        let cur = match scale_mantissa(acc, steps) {
            Ok(v) => v,
            Err(()) => {
                proof {
                    assert(!dec_fits(s@));
                }
                return Err(());
            },
        };
        let m = if negative {
            -cur
        } else {
            cur
        };
        let d = Decimal::new(m, 0);
        proof {
            vstd::arithmetic::power::lemma_pow0(10);
            assert(dec_valid(s@) && dec_fits(s@));
            assert(d.denotes(dec_num(s@), dec_e10(s@))) by {
                assert(d.mantissa() == sign_of(mantissa_str(s@)) * (acc as int * pow10(
                    steps as nat,
                )));
                vstd::arithmetic::mul::lemma_mul_is_associative(
                    sign_of(mantissa_str(s@)),
                    dec_mag(s@),
                    pow10(steps as nat),
                );
            }
        }
        Ok(d)
    }
}

} // verus!
