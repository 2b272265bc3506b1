//! Numbers for people: sizes of files and counts of weights with a few decimals.
//!
//! The numbers are divided and rounded as doubles are: to 53 binary digits, ties to even.

use vstd::prelude::*;

use crate::text;

verus! {

/// The whole number nearest to `n / d`; of two equally near ones the even one.
pub open spec fn half_even(n: int, d: int) -> int {
    let q = n / d;
    let r = n % d;
    if 2 * r > d || (2 * r == d && q % 2 == 1) {
        q + 1
    } else {
        q
    }
}

/// Two to the power of `k`.
pub open spec fn two_to(k: int) -> int
    decreases k,
{
    if k <= 0 {
        1
    } else {
        2 * two_to(k - 1)
    }
}

pub const DOUBLE_DIGITS_LIMIT: u128 = 9_007_199_254_740_992;

/// By how many binary digits a number is longer than a double's.
pub open spec fn extra_digits(n: int) -> int
    decreases n,
{
    if n < DOUBLE_DIGITS_LIMIT {
        0
    } else {
        1 + extra_digits(n / 2)
    }
}

/// The double nearest to a whole number.
pub open spec fn to_double(n: int) -> int {
    half_even(n, two_to(extra_digits(n))) * two_to(extra_digits(n))
}

pub const BILLION: u128 = 1_000_000_000;

pub const MILLION: u128 = 1_000_000;

/// A double's mantissa times ten to the ninth: 2^53 * 10^9.
pub const QUOTIENT_LIMIT: u128 = 9_007_199_254_740_992_000_000_000;

/// The power of two by which the quotient of `c` and a billion has to be scaled to have 53 binary
/// digits; at most `k`.
pub open spec fn quotient_scale(c: int, k: int) -> int
    decreases k,
{
    if k <= 0 || c * two_to(k) < QUOTIENT_LIMIT {
        k
    } else {
        quotient_scale(c, k - 1)
    }
}

/// Hundredths of the double nearest to `c / 10^9`.
pub open spec fn billions_in_hundredths(c: int) -> int {
    let p = two_to(quotient_scale(c, 52));
    half_even(100 * half_even(c * p, BILLION as int), p)
}

/// Two decimal digits.
pub open spec fn two_digits(n: int) -> Seq<char> {
    if n < 10 {
        "0"@ + text::decimal_of(n)
    } else {
        text::decimal_of(n)
    }
}

/// A number of hundredths with two decimals.
pub open spec fn with_hundredths(n: int) -> Seq<char> {
    text::decimal_of(n / 100) + "."@ + two_digits(n % 100)
}

pub open spec fn with_tenths(n: int) -> Seq<char> {
    text::decimal_of(n / 10) + "."@ + text::decimal_of(n % 10)
}

pub open spec fn spec_format_bytes(bytes: int) -> Seq<char> {
    if bytes >= 1_073_741_824 {
        with_hundredths(half_even(100 * to_double(bytes), 1_073_741_824)) + " GB"@
    } else if bytes >= 1_048_576 {
        with_tenths(half_even(10 * bytes, 1_048_576)) + " MB"@
    } else {
        text::decimal_of(bytes) + " B"@
    }
}

pub open spec fn spec_format_parameters(count: int) -> Seq<char> {
    let c = to_double(count);
    if c >= BILLION {
        with_hundredths(billions_in_hundredths(c)) + " млрд"@
    } else {
        text::decimal_of(half_even(c, MILLION as int)) + " млн"@
    }
}

fn nearest(n: u128, d: u128) -> (r: u128)
    requires
        0 < d,
        n <= 0xffff_ffff_ffff_ffff_ffff_ffff_ffff,
        d <= 0xffff_ffff_ffff_ffff_ffff_ffff_ffff,
    ensures
        r == half_even(n as int, d as int),
{
    let q = n / d;
    let r = n % d;
    proof {
        assert(q <= n) by (nonlinear_arith)
            requires
                q == n / d,
                d > 0,
        ;
    }
    if 2 * r > d || (2 * r == d && q % 2 == 1) {
        q + 1
    } else {
        q
    }
}

proof fn lemma_two_to_positive(k: int)
    ensures
        two_to(k) >= 1,
    decreases k,
{
    if k > 0 {
        lemma_two_to_positive(k - 1);
    }
}

proof fn lemma_two_to_52()
    ensures
        two_to(52) == 4_503_599_627_370_496,
{
    reveal_with_fuel(two_to, 53);
}

/// How far a number of 64 binary digits is rounded.
proof fn lemma_to_double_bound(n: int)
    requires
        0 <= n <= u64::MAX,
    ensures
        0 <= extra_digits(n) <= 11,
        1 <= two_to(extra_digits(n)) <= 2048,
        0 <= to_double(n) <= 18_446_744_073_709_551_616,
        n < DOUBLE_DIGITS_LIMIT ==> to_double(n) == n,
{
    reveal_with_fuel(extra_digits, 13);
    reveal_with_fuel(two_to, 13);
    let s = extra_digits(n);
    lemma_two_to_positive(s);
    let p = two_to(s);
    let q = n / p;
    assert(0 <= q && q * p <= n && n < (q + 1) * p) by (nonlinear_arith)
        requires
            q == n / p,
            p >= 1,
            n >= 0,
    ;
    assert(half_even(n, p) == q || half_even(n, p) == q + 1);
    assert(n / 2 / 2 / 2 / 2 / 2 / 2 / 2 / 2 / 2 / 2 / 2 < DOUBLE_DIGITS_LIMIT);
    if s == 0 {
        assert(p == 1);
        assert(n % 1 == 0);
        assert(half_even(n, 1) == n);
    } else {
        lemma_double_top(n, s);
        assert((q + 1) * p <= 18_446_744_073_709_551_616);
        assert(q * p >= 0) by (nonlinear_arith)
            requires
                q >= 0,
                p >= 1,
        ;
    }
}

proof fn lemma_double_top(n: int, s: int)
    requires
        0 <= n <= u64::MAX,
        s == extra_digits(n),
        1 <= s <= 11,
    ensures
        (n / two_to(s) + 1) * two_to(s) <= 18_446_744_073_709_551_616,
{
    reveal_with_fuel(two_to, 13);
    let p = two_to(s);
    // the top is a multiple of every power of two up to 2048
    assert(p == 2 || p == 4 || p == 8 || p == 16 || p == 32 || p == 64 || p == 128 || p == 256 || p
        == 512 || p == 1024 || p == 2048);
    let top: int = 18_446_744_073_709_551_616;
    let q = n / p;
    if p == 2 {
        assert(top % 2 == 0);
    } else if p == 4 {
        assert(top % 4 == 0);
    } else if p == 8 {
        assert(top % 8 == 0);
    } else if p == 16 {
        assert(top % 16 == 0);
    } else if p == 32 {
        assert(top % 32 == 0);
    } else if p == 64 {
        assert(top % 64 == 0);
    } else if p == 128 {
        assert(top % 128 == 0);
    } else if p == 256 {
        assert(top % 256 == 0);
    } else if p == 512 {
        assert(top % 512 == 0);
    } else if p == 1024 {
        assert(top % 1024 == 0);
    } else {
        assert(top % 2048 == 0);
    }
    assert(top % p == 0);
    assert((q + 1) * p <= top) by (nonlinear_arith)
        requires
            q == n / p,
            p >= 1,
            0 <= n < top,
            top % p == 0,
    ;
}

/// The double nearest to a whole number.
fn double_of(n: u64) -> (r: u128)
    ensures
        r == to_double(n as int),
        r <= 18_446_744_073_709_551_616,
        n < DOUBLE_DIGITS_LIMIT ==> r == n,
{
    let mut rest: u128 = n as u128;
    let mut p: u128 = 1;
    let ghost mut s: int = 0;
    proof {
        lemma_to_double_bound(n as int);
    }
    while rest >= DOUBLE_DIGITS_LIMIT
        invariant
            0 <= s <= 11,
            p == two_to(s),
            1 <= p <= 2048,
            rest <= n,
            n <= u64::MAX,
            s + extra_digits(rest as int) == extra_digits(n as int),
            extra_digits(n as int) <= 11,
        decreases rest,
    {
        proof {
            assert(extra_digits(rest as int) == 1 + extra_digits(rest as int / 2));
            lemma_extra_nonnegative(rest as int / 2);
            lemma_power_bound(s + 1);
            s = s + 1;
        }
        rest = rest / 2;
        p = p * 2;
    }
    assert(extra_digits(rest as int) == 0);
    let m = nearest(n as u128, p);
    proof {
        lemma_to_double_bound(n as int);
        assert(m * p == to_double(n as int));
    }
    m * p
}

proof fn lemma_extra_nonnegative(n: int)
    ensures
        extra_digits(n) >= 0,
    decreases n,
{
    if n >= DOUBLE_DIGITS_LIMIT {
        lemma_extra_nonnegative(n / 2);
    }
}

proof fn lemma_power_bound(k: int)
    requires
        0 <= k <= 11,
    ensures
        1 <= two_to(k) <= 2048,
{
    reveal_with_fuel(two_to, 13);
}

fn hundredths_text(n: u128) -> (r: String)
    requires
        n / 100 <= u64::MAX,
    ensures
        r@ == with_hundredths(n as int),
{
    let whole = text::decimal((n / 100) as u64);
    let rest: u64 = (n % 100) as u64;
    let digits = if rest < 10 {
        text::join2("0", text::decimal(rest).as_str())
    } else {
        text::decimal(rest)
    };
    text::join3(whole.as_str(), ".", digits.as_str())
}

/// A size for people.
pub fn format_bytes(bytes: u64) -> (r: String)
    ensures
        r@ == spec_format_bytes(bytes as int),
{
    if bytes >= 1_073_741_824 {
        let d = double_of(bytes);
        let h = nearest(100 * d, 1_073_741_824);
        proof {
            lemma_nearest_bound((100 * d) as int, 1_073_741_824);
        }
        text::join2(hundredths_text(h).as_str(), " GB")
    } else if bytes >= 1_048_576 {
        let t = nearest(10 * (bytes as u128), 1_048_576);
        proof {
            lemma_nearest_bound(10 * bytes, 1_048_576);
        }
        let whole = text::decimal((t / 10) as u64);
        let rest = text::decimal((t % 10) as u64);
        text::join2(text::join3(whole.as_str(), ".", rest.as_str()).as_str(), " MB")
    } else {
        text::join2(text::decimal(bytes).as_str(), " B")
    }
}

proof fn lemma_nearest_bound(n: int, d: int)
    requires
        n >= 0,
        d >= 1,
    ensures
        0 <= half_even(n, d) <= n / d + 1,
        half_even(n, d) * d <= n + d,
{
    let q = n / d;
    assert(0 <= q && q * d <= n && (q + 1) * d <= n + d) by (nonlinear_arith)
        requires
            q == n / d,
            n >= 0,
            d >= 1,
    ;
}

/// The power of two by which the quotient of `c` and a billion is scaled.
fn scale_of(c: u128) -> (p: u128)
    requires
        c <= 18_446_744_073_709_551_616,
    ensures
        p == two_to(quotient_scale(c as int, 52)),
        1 <= p <= 4_503_599_627_370_496,
        c * p <= QUOTIENT_LIMIT || p == 1,
{
    let mut p: u128 = 4_503_599_627_370_496;
    let ghost mut k: int = 52;
    proof {
        lemma_two_to_52();
    }
    while p > 1
        invariant_except_break
            0 <= k <= 52,
            p == two_to(k),
            1 <= p <= 4_503_599_627_370_496,
            c <= 18_446_744_073_709_551_616,
            quotient_scale(c as int, k) == quotient_scale(c as int, 52),
        ensures
            0 <= k <= 52,
            p == two_to(k),
            1 <= p <= 4_503_599_627_370_496,
            quotient_scale(c as int, 52) == k,
            c * p <= QUOTIENT_LIMIT || p == 1,
        decreases p,
    {
        proof {
            assert(c * p <= 18_446_744_073_709_551_616 * 4_503_599_627_370_496)
                by (nonlinear_arith)
                requires
                    c <= 18_446_744_073_709_551_616,
                    p <= 4_503_599_627_370_496,
            ;
            assert(k > 0);
            lemma_two_to_positive(k - 1);
        }
        if c * p < QUOTIENT_LIMIT {
            break;
        }
        proof {
            k = k - 1;
        }
        p = p / 2;
    }
    p
}

/// A count of weights for people: billions with two decimals, or millions.
pub fn format_parameters(count: u64) -> (r: String)
    ensures
        r@ == spec_format_parameters(count as int),
{
    let c = double_of(count);
    if c >= BILLION {
        let p = scale_of(c);
        proof {
            assert(c * p <= QUOTIENT_LIMIT + 18_446_744_073_709_551_616) by (nonlinear_arith)
                requires
                    c <= 18_446_744_073_709_551_616,
                    c * p <= QUOTIENT_LIMIT || p == 1,
            ;
            lemma_nearest_bound(c * p, BILLION as int);
        }
        let m = nearest(c * p, BILLION);
        let h = nearest(100 * m, p);
        proof {
            lemma_hundredths_fit(c as int, p as int, m as int, h as int);
        }
        text::join2(hundredths_text(h).as_str(), " млрд")
    } else {
        let n = nearest(c, MILLION);
        proof {
            lemma_nearest_bound(c as int, MILLION as int);
        }
        text::join2(text::decimal(n as u64).as_str(), " млн")
    }
}

proof fn lemma_hundredths_fit(c: int, p: int, m: int, h: int)
    requires
        0 <= c <= 18_446_744_073_709_551_616,
        1 <= p,
        m == half_even(c * p, BILLION as int),
        h == half_even(100 * m, p),
    ensures
        0 <= h,
        h / 100 <= u64::MAX,
{
    assert(c * p >= 0) by (nonlinear_arith)
        requires
            c >= 0,
            p >= 1,
    ;
    lemma_nearest_bound(c * p, BILLION as int);
    lemma_nearest_bound(100 * m, p);
    // m * 10^9 <= c * p + 10^9, and h * p <= 100 * m + p
    assert(h <= 200 * 18_446_744_074) by (nonlinear_arith)
        requires
            0 <= c <= 18_446_744_073_709_551_616,
            1 <= p,
            m * 1_000_000_000 <= c * p + 1_000_000_000,
            h * p <= 100 * m + p,
            0 <= m,
            0 <= h,
    ;
}

} // verus!
