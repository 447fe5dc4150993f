//! Fixed-point numbers: scores, ratios, rates, times and latencies are counts of millionths. What
//! doubles would make of them is computed here too, with integers.
use vstd::prelude::*;

use crate::text::{dec_wide, decimal};

verus! {

/// How many units make one.
pub const ONE: i64 = 1_000_000;

/// The largest number that is kept; what lies beyond is cut to it.
pub const LIMIT: i64 = 0x07ff_ffff_ffff_ffff;

/// The square of the largest number that is kept.
pub const SQUARE_LIMIT: i128 = 0x3ffffffffffffff000000000000001;

/// A number cut to the range that is kept.
pub open spec fn kept(x: int) -> int {
    clamped(x, -LIMIT, LIMIT as int)
}

pub open spec fn clamped(x: int, lo: int, hi: int) -> int {
    if x < lo {
        lo
    } else if x > hi {
        hi
    } else {
        x
    }
}

pub open spec fn smaller(a: int, b: int) -> int {
    if a <= b {
        a
    } else {
        b
    }
}

pub open spec fn larger(a: int, b: int) -> int {
    if a >= b {
        a
    } else {
        b
    }
}

/// A number that was rounded down, unless that was exact: the odd one of its two neighbours.
pub open spec fn settled(down: int, exact: bool) -> int {
    if exact || down % 2 != 0 {
        down
    } else {
        down + 1
    }
}

/// `num / den`; where that is no integer, the odd one of its two neighbours. To every even number
/// it stands as the fraction itself does.
pub open spec fn quotient(num: int, den: int) -> int {
    settled(num / den, num % den == 0)
}

/// `a / b` in millionths; 0 where `b` is 0.
pub open spec fn ratio(a: nat, b: nat) -> int {
    if b == 0 {
        0
    } else {
        quotient((a * 1_000_000) as int, b as int)
    }
}

/// `a / b` in millionths, at most one.
pub open spec fn capped_ratio(a: nat, b: nat) -> int {
    smaller(ratio(a, b), ONE as int)
}

/// `a` is at least so many millionths of `b`, which is not 0.
pub open spec fn makes_up(a: nat, b: nat, millionths: nat) -> bool {
    b > 0 && a * 1_000_000 >= millionths * b
}

/// `a / b` in double precision as a percentage in double precision, in tenths, rounded to the
/// nearest integer, halves up, and at most a hundred percent; 0 where `b` is 0.
#[verifier::opaque]
pub open spec fn percent_tenths(a: nat, b: nat) -> int {
    if b == 0 {
        0
    } else {
        let q = double_quotient(as_double(a), as_double(b));
        smaller(nearest_up(as_double(as_double(q.0 * 100) * 10), q.1) as int, 1000)
    }
}

/// `a / b` in double precision, rounded to two decimals, halves up, in millionths; 0 where `b` is
/// 0.
#[verifier::opaque]
pub open spec fn hundredths_of(a: nat, b: nat) -> int {
    if b == 0 {
        0
    } else {
        let q = double_quotient(as_double(a), as_double(b));
        (nearest_up(as_double(q.0 * 100), q.1) * 10_000) as int
    }
}

/// The integer nearest to `num / den`; of two equally near ones the even one.
pub open spec fn nearest(num: nat, den: nat) -> nat {
    let q = num / den;
    let r = num % den;
    if 2 * r < den {
        q
    } else if 2 * r > den {
        q + 1
    } else if q % 2 == 0 {
        q
    } else {
        q + 1
    }
}

pub open spec fn magnitude(x: int) -> nat {
    if x < 0 {
        (-x) as nat
    } else {
        x as nat
    }
}

pub open spec fn sign_text(x: int) -> Seq<char> {
    if x < 0 {
        seq!['-']
    } else {
        Seq::empty()
    }
}

/// The integer nearest to `num / den`; of two equally near ones the larger one.
pub open spec fn nearest_up(num: nat, den: nat) -> nat {
    (2 * num + den) / (2 * den)
}

/// The double next to `num / den`, as a fraction: a number of 53 bits over or times a power of
/// two.
pub open spec fn double_quotient(num: nat, den: nat) -> (nat, nat)
    decreases
            (if num < 0x10_0000_0000_0000 * den {
                0x10_0000_0000_0000 * den - num
            } else if num >= 0x20_0000_0000_0000 * den {
                num - 0x20_0000_0000_0000 * den + 1
            } else {
                0
            }),
{
    if num == 0 || den == 0 {
        (0, 1)
    } else if num < 0x10_0000_0000_0000 * den {
        let q = double_quotient(2 * num, den);
        (q.0, 2 * q.1)
    } else if num >= 0x20_0000_0000_0000 * den {
        let q = double_quotient(num, 2 * den);
        (2 * q.0, q.1)
    } else {
        (nearest(num, den), 1)
    }
}

/// A number of millionths as a double, times `scale`, rounded to the nearest integer; its sign is
/// left out.
#[verifier::opaque]
pub open spec fn shown(x: int, scale: nat) -> nat {
    let q = double_quotient(magnitude(x), 1_000_000);
    nearest(q.0 * scale, q.1)
}

/// A number of millionths as a double, times `scale` in double precision, rounded to the nearest
/// integer, halves away from zero.
#[verifier::opaque]
pub open spec fn ticks(x: int, scale: nat) -> int {
    let q = double_quotient(magnitude(x), 1_000_000);
    let n = nearest_up(as_double(q.0 * scale), q.1) as int;
    if x < 0 {
        -n
    } else {
        n
    }
}

/// `num / den` in double precision, as a percentage in double precision, rounded to the nearest
/// integer.
#[verifier::opaque]
pub open spec fn percents(num: nat, den: nat) -> nat {
    let q = double_quotient(num, den);
    nearest(as_double(q.0 * 100), q.1)
}

/// The number as a double, without decimals.
pub open spec fn whole_text(x: int) -> Seq<char> {
    sign_text(x) + decimal(shown(x, 1))
}

/// The number as a double, with one decimal.
pub open spec fn tenths_text(x: int) -> Seq<char> {
    let n = shown(x, 10);
    sign_text(x) + decimal(n / 10) + seq!['.'] + decimal(n % 10)
}

/// The number as a double, with two decimals.
pub open spec fn hundredths_text(x: int) -> Seq<char> {
    let n = shown(x, 100);
    sign_text(x) + decimal(n / 100) + seq!['.'] + decimal((n / 10) % 10) + decimal(n % 10)
}

/// The number as a percentage in double precision, without decimals.
pub open spec fn share_text(x: int) -> Seq<char> {
    sign_text(x) + decimal(percents(magnitude(x), 1_000_000))
}

/// `a / b` as a percentage in double precision, without decimals; 0 where `b` is 0.
pub open spec fn percent_text(a: nat, b: nat) -> Seq<char> {
    if b == 0 {
        decimal(0)
    } else {
        decimal(percents(as_double(a), as_double(b)))
    }
}

pub fn clamp(x: i64, lo: i64, hi: i64) -> (r: i64)
    ensures
        r == clamped(x as int, lo as int, hi as int),
{
    if x < lo {
        lo
    } else if x > hi {
        hi
    } else {
        x
    }
}

pub(crate) fn keep(x: i128) -> (r: i64)
    ensures
        r == kept(x as int),
        -LIMIT <= r <= LIMIT,
{
    if x < -(LIMIT as i128) {
        -LIMIT
    } else if x > LIMIT as i128 {
        LIMIT
    } else {
        x as i64
    }
}

/// A whole number in millionths.
pub(crate) fn from_whole(n: i64) -> (r: i64)
    ensures
        r == kept(n * ONE),
        -LIMIT <= r <= LIMIT,
{
    keep(n as i128 * 1_000_000)
}

pub(crate) fn min_i64(a: i64, b: i64) -> (r: i64)
    ensures
        r == smaller(a as int, b as int),
{
    if a <= b {
        a
    } else {
        b
    }
}

pub(crate) fn max_i64(a: i64, b: i64) -> (r: i64)
    ensures
        r == larger(a as int, b as int),
{
    if a >= b {
        a
    } else {
        b
    }
}

pub(crate) fn capped(a: u64, b: u64) -> (r: i64)
    ensures
        r == capped_ratio(a as nat, b as nat),
        0 <= r <= ONE,
{
    let q: i128 = ratio_of(a, b);
    if q <= 1_000_000 {
        q as i64
    } else {
        1_000_000
    }
}

pub(crate) fn ratio_of(a: u64, b: u64) -> (r: i128)
    ensures
        r == ratio(a as nat, b as nat),
        0 <= r <= 0xffff_ffff_ffff_ffff * 1_000_000,
{
    if b == 0 {
        return 0;
    }
    proof {
        let n = (a * 1_000_000) as int;
        assert(n <= (0xffff_ffff_ffff_ffff * 1_000_000) * b) by (nonlinear_arith)
            requires
                0 <= n <= 0xffff_ffff_ffff_ffff * 1_000_000,
                b >= 1,
        ;
        lemma_quotient(n, b as int, 0, 0xffff_ffff_ffff_ffffint * 1_000_000);
    }
    divide(a as i128 * 1_000_000, b as i128)
}

pub(crate) fn round_div(num: u128, den: u128) -> (r: u128)
    requires
        den > 0,
        den <= 0x4000_0000_0000_0000_0000_0000_0000_0000,
    ensures
        r == nearest(num as nat, den as nat),
{
    let q: u128 = num / den;
    let rest: u128 = num % den;
    proof {
        vstd::arithmetic::div_mod::lemma_div_is_ordered_by_denominator(num as int, 1, den as int);
        vstd::arithmetic::div_mod::lemma_div_basics(num as int);
        if den == 1 {
            vstd::arithmetic::div_mod::lemma_mod_bound(num as int, 1);
        } else {
            vstd::arithmetic::div_mod::lemma_div_is_ordered_by_denominator(
                num as int,
                2,
                den as int,
            );
        }
    }
    if 2 * rest < den {
        q
    } else if 2 * rest > den {
        q + 1
    } else if q % 2 == 0 {
        q
    } else {
        q + 1
    }
}

fn abs_of(x: i64) -> (r: u64)
    ensures
        r == magnitude(x as int),
{
    if x < 0 {
        (-(x as i128)) as u64
    } else {
        x as u64
    }
}

fn start_text(x: i64) -> (r: String)
    ensures
        r@ == sign_text(x as int),
{
    let mut s = String::new();
    if x < 0 {
        s.push('-');
    }
    assert(s@ =~= sign_text(x as int));
    s
}

fn shown_of(x: i64, scale: u128) -> (r: u128)
    requires
        1 <= scale <= 10_000,
    ensures
        r == shown(x as int, scale as nat),
{
    reveal(shown);
    let (m, d) = quotient_of(abs_of(x) as u128, 1_000_000);
    assert(m * scale <= 0x8_0000_0000_0000_0000 * 10_000) by (nonlinear_arith)
        requires
            m <= 0x8_0000_0000_0000_0000,
            scale <= 10_000,
    ;
    round_div(m * scale, d)
}

pub(crate) fn is_made_up(a: u64, b: u64, millionths: u64) -> (r: bool)
    requires
        millionths <= 1_000_000,
    ensures
        r == makes_up(a as nat, b as nat, millionths as nat),
{
    assert(0 <= millionths * b <= 1_000_000 * 0xffff_ffff_ffff_ffff) by (nonlinear_arith)
        requires
            0 <= millionths <= 1_000_000,
            0 <= b <= 0xffff_ffff_ffff_ffff,
    ;
    b > 0 && a as u128 * 1_000_000 >= millionths as u128 * b as u128
}

/// `a / b` rounded to two decimals, in millionths.
pub(crate) fn hundredths(a: u64, b: u64) -> (r: i128)
    ensures
        r == hundredths_of(a as nat, b as nat),
{
    reveal(hundredths_of);
    if b == 0 {
        return 0;
    }
    proof {
        lemma_as_double(a as nat);
        lemma_as_double(b as nat);
    }
    let (m, d) = quotient_of(double_of(a as u128), double_of(b as u128));
    let p: u128 = double_of(m * 100);
    let n: u128 = (2 * p + d) / (2 * d);
    assert(n <= p + 1) by (nonlinear_arith)
        requires
            n == (2 * p + d) as int / (2 * d) as int,
            d >= 1,
            p >= 0,
    ;
    n as i128 * 10_000
}

/// `a / b` as a percentage in tenths.
pub(crate) fn percent_tenths_of(a: u64, b: u64) -> (r: u64)
    ensures
        r == percent_tenths(a as nat, b as nat),
{
    reveal(percent_tenths);
    if b == 0 {
        return 0;
    }
    proof {
        lemma_as_double(a as nat);
        lemma_as_double(b as nat);
    }
    let (m, d) = quotient_of(double_of(a as u128), double_of(b as u128));
    let p: u128 = double_of(double_of(m * 100) * 10);
    let n: u128 = (2 * p + d) / (2 * d);
    if n <= 1000 {
        n as u64
    } else {
        1000
    }
}

fn percents_of(num: u128, den: u128) -> (r: u128)
    requires
        num <= 0x2_0000_0000_0000_0000,
        0 < den <= 0x2_0000_0000_0000_0000,
    ensures
        r == percents(num as nat, den as nat),
{
    reveal(percents);
    let (m, d) = quotient_of(num, den);
    round_div(double_of(m * 100), d)
}

/// A number of millionths times `scale`, rounded to the nearest integer.
pub(crate) fn ticks_of(x: i64, scale: u128) -> (r: i128)
    requires
        1 <= scale <= 10_000,
    ensures
        r == ticks(x as int, scale as nat),
        x >= 0 ==> r >= 0,
        -0x8_0000_0000_0000_0000_0000 <= r <= 0x8_0000_0000_0000_0000_0000,
{
    let (m, d) = quotient_of(abs_of(x) as u128, 1_000_000);
    assert(m * scale <= 0x8_0000_0000_0000_0000 * 10_000) by (nonlinear_arith)
        requires
            m <= 0x8_0000_0000_0000_0000,
            scale <= 10_000,
    ;
    let p: u128 = double_of(m * scale);
    let n: u128 = (2 * p + d) / (2 * d);
    proof {
        reveal(ticks);
        assert(n <= p + 1) by (nonlinear_arith)
            requires
                n == (2 * p + d) as int / (2 * d) as int,
                d >= 1,
                p >= 0,
        ;
    }
    if x < 0 {
        -(n as i128)
    } else {
        n as i128
    }
}

/// The number without decimals.
pub(crate) fn fmt0(x: i64) -> (r: String)
    ensures
        r@ == whole_text(x as int),
{
    let mut s = start_text(x);
    s.append(dec_wide(shown_of(x, 1)).as_str());
    s
}

/// The number with one decimal.
pub(crate) fn fmt1(x: i64) -> (r: String)
    ensures
        r@ == tenths_text(x as int),
{
    let mut s = start_text(x);
    let n: u128 = shown_of(x, 10);
    s.append(dec_wide(n / 10).as_str());
    s.push('.');
    s.append(dec_wide(n % 10).as_str());
    assert(s@ =~= tenths_text(x as int));
    s
}

/// The number with two decimals.
pub(crate) fn fmt2(x: i64) -> (r: String)
    ensures
        r@ == hundredths_text(x as int),
{
    let mut s = start_text(x);
    let n: u128 = shown_of(x, 100);
    s.append(dec_wide(n / 100).as_str());
    s.push('.');
    s.append(dec_wide((n / 10) % 10).as_str());
    s.append(dec_wide(n % 10).as_str());
    assert(s@ =~= hundredths_text(x as int));
    s
}

/// The number as a percentage without decimals.
pub(crate) fn share(x: i64) -> (r: String)
    ensures
        r@ == share_text(x as int),
{
    let mut s = start_text(x);
    s.append(dec_wide(percents_of(abs_of(x) as u128, 1_000_000)).as_str());
    s
}

/// `a / b` as a percentage without decimals.
pub(crate) fn percent(a: u64, b: u64) -> (r: String)
    ensures
        r@ == percent_text(a as nat, b as nat),
{
    if b == 0 {
        dec_wide(0)
    } else {
        proof {
            lemma_as_double(a as nat);
            lemma_as_double(b as nat);
        }
        dec_wide(percents_of(double_of(a as u128), double_of(b as u128)))
    }
}

// ---------------------------------------------------------------------------------------------
// Mean and deviation

pub open spec fn sum(v: Seq<i64>) -> int
    decreases v.len(),
{
    if v.len() == 0 {
        0
    } else {
        sum(v.drop_last()) + v.last()
    }
}

pub open spec fn sum_of_squares(v: Seq<i64>) -> int
    decreases v.len(),
{
    if v.len() == 0 {
        0
    } else {
        sum_of_squares(v.drop_last()) + v.last() * v.last()
    }
}

/// The largest number whose square is at most `n`.
pub open spec fn root(n: nat) -> nat
    decreases n,
{
    if n == 0 {
        0
    } else {
        let r = root((n - 1) as nat);
        if (r + 1) * (r + 1) <= n {
            r + 1
        } else {
            r
        }
    }
}

/// The mean; 0 of nothing.
pub open spec fn mean(v: Seq<i64>) -> int {
    if v.len() == 0 {
        0
    } else {
        quotient(sum(v), v.len() as int)
    }
}

/// The number of values times the sum of their squares, less the square of their sum: the square
/// of their standard deviation times the square of their number.
pub open spec fn spread(v: Seq<i64>) -> int {
    v.len() * sum_of_squares(v) - sum(v) * sum(v)
}

/// The standard deviation of a whole population; 0 of fewer than two values. Where it is no
/// integer, the odd one of its two neighbours.
pub open spec fn deviation(v: Seq<i64>) -> int {
    if v.len() < 2 {
        0
    } else {
        let n = v.len() as int;
        let down = root(spread(v) as nat) as int / n;
        settled(down, (down * n) * (down * n) == spread(v))
    }
}

/// The last `n` values, or all where there are fewer.
pub open spec fn last_of<A>(s: Seq<A>, n: nat) -> Seq<A> {
    if s.len() <= n {
        s
    } else {
        s.skip(s.len() - n)
    }
}

pub open spec fn within_limit(v: Seq<i64>) -> bool {
    forall|i: int| 0 <= i < v.len() ==> -LIMIT <= #[trigger] v[i] <= LIMIT
}

proof fn lemma_root(n: nat)
    ensures
        root(n) * root(n) <= n < (root(n) + 1) * (root(n) + 1),
    decreases n,
{
    if n > 0 {
        lemma_root((n - 1) as nat);
        let r = root((n - 1) as nat);
        let k = root(n);
        if (r + 1) * (r + 1) <= n {
            assert(n < (k + 1) * (k + 1)) by (nonlinear_arith)
                requires
                    k == r + 1,
                    n - 1 < (r + 1) * (r + 1),
            ;
        }
    } else {
        assert(root(0) * root(0) == 0 && (root(0) + 1) * (root(0) + 1) == 1) by (nonlinear_arith)
            requires
                root(0) == 0,
        ;
    }
}

proof fn lemma_root_unique(n: nat, r: nat)
    requires
        r * r <= n < (r + 1) * (r + 1),
    ensures
        r == root(n),
{
    lemma_root(n);
    let s = root(n);
    assert(r == s) by (nonlinear_arith)
        requires
            r * r <= n,
            n < (r + 1) * (r + 1),
            s * s <= n,
            n < (s + 1) * (s + 1),
            r >= 0,
            s >= 0,
    ;
}

fn root_of(n: u128) -> (r: u128)
    requires
        n < 0x4000_0000_0000_0000_0000_0000_0000_0000,
    ensures
        r == root(n as nat),
        r < 0x8000_0000_0000_0000,
{
    let mut lo: u128 = 0;
    let mut hi: u128 = 0x8000_0000_0000_0000;
    assert(0x8000_0000_0000_0000u128 * 0x8000_0000_0000_0000u128
        == 0x4000_0000_0000_0000_0000_0000_0000_0000);
    while hi - lo > 1
        invariant
            lo < hi <= 0x8000_0000_0000_0000,
            lo * lo <= n < hi * hi,
        decreases hi - lo,
    {
        let mid: u128 = lo + (hi - lo) / 2;
        assert(mid * mid <= 0x8000_0000_0000_0000 * 0x8000_0000_0000_0000) by (nonlinear_arith)
            requires
                mid <= 0x8000_0000_0000_0000,
        ;
        if mid * mid <= n {
            lo = mid;
        } else {
            hi = mid;
        }
    }
    proof {
        assert(hi == lo + 1);
        lemma_root_unique(n as nat, lo as nat);
    }
    lo
}

/// `a / n` rounded down.
pub(crate) fn floor_div(a: i128, n: i128) -> (r: i128)
    requires
        0 < n <= 0xff_ffff_ffff_ffff_ffff,
        a > i128::MIN + 0x100_0000_0000_0000_0000,
    ensures
        r == (a as int) / (n as int),
{
    if a >= 0 {
        a / n
    } else {
        let q: i128 = (-a + (n - 1)) / n;
        proof {
            let m = -a;
            let x = m + (n - 1);
            vstd::arithmetic::div_mod::lemma_fundamental_div_mod(x as int, n as int);
            let rest = x as int % (n as int);
            assert(x == n * q + rest);
            assert(0 <= rest < n);
            assert(a == n * (-q) + (n - 1 - rest)) by (nonlinear_arith)
                requires
                    x == n * q + rest,
                    x == -a + (n - 1),
            ;
            vstd::arithmetic::div_mod::lemma_fundamental_div_mod_converse(
                a as int,
                n as int,
                -q as int,
                (n - 1 - rest) as int,
            );
        }
        -q
    }
}

/// A quotient lies between the integers between which the fraction lies.
pub(crate) proof fn lemma_quotient(num: int, den: int, lo: int, hi: int)
    requires
        den > 0,
        lo * den <= num <= hi * den,
    ensures
        lo <= quotient(num, den) <= hi,
{
    let q = num / den;
    let r = num % den;
    vstd::arithmetic::div_mod::lemma_fundamental_div_mod(num, den);
    vstd::arithmetic::div_mod::lemma_mod_bound(num, den);
    assert(lo <= q && (q < hi || (q == hi && r == 0))) by (nonlinear_arith)
        requires
            num == den * q + r,
            0 <= r < den,
            lo * den <= num <= hi * den,
    ;
}

/// A quotient is above, at or below an even number exactly when the fraction is.
pub proof fn quotients_compare(num: int, den: int, even: int)
    requires
        den > 0,
        even % 2 == 0,
    ensures
        quotient(num, den) > even <==> num > even * den,
        quotient(num, den) == even <==> num == even * den,
        quotient(num, den) < even <==> num < even * den,
{
    let q = num / den;
    let r = num % den;
    vstd::arithmetic::div_mod::lemma_fundamental_div_mod(num, den);
    vstd::arithmetic::div_mod::lemma_mod_bound(num, den);
    if q > even {
        assert(num > even * den) by (nonlinear_arith)
            requires
                num == den * q + r,
                r >= 0,
                q >= even + 1,
                den > 0,
        ;
    } else if q < even {
        assert(num < even * den) by (nonlinear_arith)
            requires
                num == den * q + r,
                r < den,
                q <= even - 1,
                den > 0,
        ;
    } else {
        assert(num == even * den + r) by (nonlinear_arith)
            requires
                num == den * q + r,
                q == even,
        ;
    }
}

/// A quotient of quotients is the quotient by the product, to every even number.
pub proof fn quotients_of_quotients_compare(num: int, den: int, n: int, even: int)
    requires
        den > 0,
        n > 0,
        even % 2 == 0,
    ensures
        quotient(quotient(num, den), n) > even <==> num > even * (den * n),
        quotient(quotient(num, den), n) < even <==> num < even * (den * n),
{
    let half = even / 2;
    vstd::arithmetic::div_mod::lemma_mod_multiples_basic(half * n, 2);
    assert((half * n) * 2 == even * n) by (nonlinear_arith)
        requires
            even == 2 * half,
    ;
    quotients_compare(quotient(num, den), n, even);
    quotients_compare(num, den, even * n);
    assert((even * n) * den == even * (den * n)) by (nonlinear_arith);
}

/// `a / n`; where that is no integer, the odd one of its two neighbours.
pub(crate) fn divide(a: i128, n: i128) -> (r: i128)
    requires
        0 < n <= 0xff_ffff_ffff_ffff_ffff,
        a > i128::MIN + 0x100_0000_0000_0000_0000,
    ensures
        r == quotient(a as int, n as int),
{
    let q: i128 = floor_div(a, n);
    proof {
        vstd::arithmetic::div_mod::lemma_fundamental_div_mod(a as int, n as int);
        vstd::arithmetic::div_mod::lemma_mod_bound(a as int, n as int);
        let rest = a as int % n as int;
        assert(n * q == q * n) by (nonlinear_arith);
        assert(a - n < q * n <= a);
        if q == i128::MAX {
            assert(q * n >= q) by (nonlinear_arith)
                requires
                    q >= 0,
                    n >= 1,
            ;
        }
    }
    settle(q, q * n == a)
}

fn settle(down: i128, exact: bool) -> (r: i128)
    requires
        down < i128::MAX || exact,
    ensures
        r == settled(down as int, exact),
{
    if exact || down % 2 != 0 {
        down
    } else {
        down + 1
    }
}

/// Sum and sum of squares of at most ten values.
fn sums(v: &Vec<i64>, from: usize) -> (r: (i128, i128))
    requires
        from <= v.len(),
        v.len() - from <= 10,
        within_limit(v@),
    ensures
        r.0 == sum(v@.skip(from as int)),
        r.1 == sum_of_squares(v@.skip(from as int)),
        -(v.len() - from) * LIMIT <= r.0 <= (v.len() - from) * LIMIT,
        0 <= r.1 <= (v.len() - from) * SQUARE_LIMIT,
{
    let ghost t = v@.skip(from as int);
    let mut a: i128 = 0;
    let mut b: i128 = 0;
    let mut i: usize = from;
    while i < v.len()
        invariant
            from <= i <= v.len(),
            v.len() - from <= 10,
            within_limit(v@),
            t == v@.skip(from as int),
            a == sum(t.take(i - from)),
            b == sum_of_squares(t.take(i - from)),
            -(i - from) * LIMIT <= a <= (i - from) * LIMIT,
            0 <= b <= (i - from) * SQUARE_LIMIT,
        decreases v.len() - i,
    {
        let x: i128 = v[i] as i128;
        proof {
            let u = t.take(i - from + 1);
            assert(u.drop_last() =~= t.take(i - from));
            assert(u.last() == v@[i as int]);
            assert(0 <= x * x <= SQUARE_LIMIT) by (nonlinear_arith)
                requires
                    -LIMIT <= x <= LIMIT,
            ;
        }
        a = a + x;
        b = b + x * x;
        i += 1;
    }
    assert(t.take(i - from) =~= t);
    (a, b)
}

proof fn lemma_spread_nonneg(v: Seq<i64>)
    ensures
        spread(v) >= 0,
    decreases v.len(),
{
    if v.len() > 0 {
        let w = v.drop_last();
        lemma_spread_nonneg(w);
        lemma_cross(w, v.last() as int);
        let n = w.len() as int;
        let s = sum(w);
        let q = sum_of_squares(w);
        let x = v.last() as int;
        assert((n + 1) * (q + x * x) - (s + x) * (s + x) == (n * q - s * s) + (q - 2 * s * x + n * (x
            * x))) by (nonlinear_arith);
    }
}

proof fn lemma_cross(v: Seq<i64>, x: int)
    ensures
        sum_of_squares(v) - 2 * sum(v) * x + v.len() * (x * x) >= 0,
    decreases v.len(),
{
    if v.len() > 0 {
        let w = v.drop_last();
        let y = v.last() as int;
        lemma_cross(w, x);
        let n = w.len() as int;
        let s = sum(w);
        let q = sum_of_squares(w);
        assert((q + y * y) - 2 * (s + y) * x + (n + 1) * (x * x) == (q - 2 * s * x + n * (x * x)) + (
        y - x) * (y - x)) by (nonlinear_arith);
        assert((y - x) * (y - x) >= 0) by (nonlinear_arith);
    } else {
        assert(2 * sum(v) * x == 0 && v.len() * (x * x) == 0) by (nonlinear_arith)
            requires
                sum(v) == 0,
                v.len() == 0,
        ;
    }
}

/// Mean and standard deviation of the last `n` values.
pub(crate) fn mean_and_deviation(v: &Vec<i64>, n: usize) -> (r: (i64, i64))
    requires
        1 <= n <= 10,
        within_limit(v@),
    ensures
        r.0 == mean(last_of(v@, n as nat)),
        r.1 == deviation(last_of(v@, n as nat)),
        -LIMIT <= r.0 <= LIMIT,
        0 <= r.1,
{
    let from: usize = if v.len() > n {
        v.len() - n
    } else {
        0
    };
    let count: usize = v.len() - from;
    let ghost t = last_of(v@, n as nat);
    assert(t =~= v@.skip(from as int));
    if count == 0 {
        return (0, 0);
    }
    let (a, b) = sums(v, from);
    let c: i128 = count as i128;
    let m: i128 = divide(a, c);
    proof {
        assert(-LIMIT * c <= a <= LIMIT * c) by (nonlinear_arith)
            requires
                -c * LIMIT <= a <= c * LIMIT,
        ;
        lemma_quotient(a as int, c as int, -LIMIT as int, LIMIT as int);
    }
    if count < 2 {
        return (m as i64, 0);
    }
    proof {
        lemma_spread_nonneg(t);
        assert(0 <= c * b <= 100 * SQUARE_LIMIT) by (nonlinear_arith)
            requires
                0 <= b <= c * SQUARE_LIMIT,
                0 < c <= 10,
        ;
        assert(0 <= a * a <= 100 * SQUARE_LIMIT) by (nonlinear_arith)
            requires
                -c * LIMIT <= a <= c * LIMIT,
                0 < c <= 10,
        ;
        assert(100 * SQUARE_LIMIT < 0x4000_0000_0000_0000_0000_0000_0000_0000int);
    }
    let sp: i128 = c * b - a * a;
    let r: u128 = root_of(sp as u128);
    let d: i128 = (r / count as u128) as i128;
    proof {
        lemma_root(sp as nat);
        vstd::arithmetic::div_mod::lemma_fundamental_div_mod(r as int, c as int);
        assert(0 <= d * c <= r) by (nonlinear_arith)
            requires
                r == c * d + r as int % c as int,
                0 <= r as int % c as int,
                d >= 0,
                c > 0,
        ;
        assert((d * c) * (d * c) <= r * r) by (nonlinear_arith)
            requires
                0 <= d * c <= r,
        ;
    }
    (m as i64, settle(d, (d * c) * (d * c) == sp) as i64)
}

/// The standard deviation of a sample; 0 of fewer than two values. Where it is no integer, the odd
/// one of its two neighbours.
pub open spec fn sample_deviation(v: Seq<i64>) -> int {
    if v.len() < 2 {
        0
    } else {
        let k = v.len() * (v.len() - 1);
        let down = root((spread(v) / k) as nat) as int;
        settled(down, (down * down) * k == spread(v))
    }
}

/// Standard deviation of the last `n` values, taken as a sample.
pub(crate) fn sample_deviation_of(v: &Vec<i64>, n: usize) -> (r: i64)
    requires
        1 <= n <= 10,
        within_limit(v@),
    ensures
        r == sample_deviation(last_of(v@, n as nat)),
        0 <= r <= 2 * LIMIT + 1,
{
    let from: usize = if v.len() > n {
        v.len() - n
    } else {
        0
    };
    let count: usize = v.len() - from;
    let ghost t = last_of(v@, n as nat);
    assert(t =~= v@.skip(from as int));
    if count < 2 {
        return 0;
    }
    let (a, b) = sums(v, from);
    let c: i128 = count as i128;
    proof {
        lemma_spread_nonneg(t);
        assert(0 <= c * b <= 100 * SQUARE_LIMIT) by (nonlinear_arith)
            requires
                0 <= b <= c * SQUARE_LIMIT,
                0 < c <= 10,
        ;
        assert(0 <= a * a <= 100 * SQUARE_LIMIT) by (nonlinear_arith)
            requires
                -c * LIMIT <= a <= c * LIMIT,
                0 < c <= 10,
        ;
        assert(2 <= c * (c - 1) <= 90) by (nonlinear_arith)
            requires
                2 <= c <= 10,
        ;
    }
    let sp: i128 = c * b - a * a;
    let q: u128 = sp as u128 / (c * (c - 1)) as u128;
    proof {
        assert(sp == spread(t));
        assert(t.len() * (t.len() - 1) == c * (c - 1));
        vstd::arithmetic::div_mod::lemma_div_is_ordered_by_denominator(
            sp as int,
            1,
            (c * (c - 1)) as int,
        );
        vstd::arithmetic::div_mod::lemma_div_basics(sp as int);
        vstd::arithmetic::div_mod::lemma_fundamental_div_mod(sp as int, (c * (c - 1)) as int);
        assert(q <= 2 * SQUARE_LIMIT) by (nonlinear_arith)
            requires
                2 <= c,
                (c * (c - 1)) * q <= sp,
                sp <= c * b,
                b <= c * SQUARE_LIMIT,
        ;
    }
    let d: u128 = root_of(q);
    proof {
        lemma_root(q as nat);
        assert(d <= 2 * LIMIT) by (nonlinear_arith)
            requires
                d * d <= 2 * SQUARE_LIMIT,
        ;
    }
    let e: i128 = d as i128;
    proof {
        let k = c * (c - 1);
        assert((e * e) * k <= sp) by (nonlinear_arith)
            requires
                e * e <= q,
                k * q <= sp,
                k >= 0,
        ;
    }
    settle(e, (e * e) * (c * (c - 1)) == sp) as i64
}

// ---------------------------------------------------------------------------------------------
// Products in double precision

/// The distance between neighbouring double-precision numbers at `n`, for `n` of at least two to
/// the power of 52; 1 below that.
pub open spec fn double_step(n: nat) -> nat
    decreases n,
{
    if n < 0x20_0000_0000_0000 {
        1
    } else {
        2 * double_step(n / 2)
    }
}

/// The integer `n` in double precision: cut to 53 significant bits, rounded to nearest.
pub open spec fn as_double(n: nat) -> nat {
    nearest(n, double_step(n)) * double_step(n)
}

/// The integer part of `n` times 0.7, computed in double precision: the factor is the double next
/// to 0.7, that is 6305039478318694 over two to the power of 53.
pub open spec fn seven_tenths(n: nat) -> nat {
    as_double(as_double(n) * 6_305_039_478_318_694) / 0x20_0000_0000_0000
}

fn double_step_of(n: u128) -> (r: u128)
    ensures
        r == double_step(n as nat),
        r >= 1,
        r == 1 || r * 0x10_0000_0000_0000 <= n,
    decreases n,
{
    if n < 0x20_0000_0000_0000 {
        1
    } else {
        let h: u128 = double_step_of(n / 2);
        2 * h
    }
}

/// The integer in double precision.
pub(crate) fn double_of(n: u128) -> (r: u128)
    requires
        n < 0x1000_0000_0000_0000_0000_0000_0000_0000,
    ensures
        r == as_double(n as nat),
        r <= 2 * n,
{
    let step: u128 = double_step_of(n);
    let q: u128 = round_div(n, step);
    proof {
        vstd::arithmetic::div_mod::lemma_fundamental_div_mod(n as int, step as int);
        let d = n as int / (step as int);
        let rest = n as int % (step as int);
        assert(q <= d + 1);
        if step == 1 {
            vstd::arithmetic::div_mod::lemma_div_basics(n as int);
            assert(q == n);
            assert(q * step == n) by (nonlinear_arith)
                requires
                    q == n,
                    step == 1,
            ;
        } else {
            assert(q * step <= 2 * n) by (nonlinear_arith)
                requires
                    q <= d + 1,
                    n == step * d + rest,
                    0 <= rest,
                    step <= n,
                    step > 0,
            ;
        }
    }
    q * step
}

proof fn lemma_double_step(n: nat)
    ensures
        double_step(n) >= 1,
        double_step(n) == 1 || double_step(n) * 0x10_0000_0000_0000 <= n,
    decreases n,
{
    if n >= 0x20_0000_0000_0000 {
        lemma_double_step(n / 2);
    }
}

proof fn lemma_nearest(num: nat, den: nat)
    requires
        den > 0,
    ensures
        nearest(num, den) * den <= num + den / 2,
        num <= nearest(num, den) * den + den / 2,
        num >= den ==> nearest(num, den) >= 1,
        den == 1 ==> nearest(num, den) == num,
{
    let q = num / den;
    let r = num % den;
    vstd::arithmetic::div_mod::lemma_fundamental_div_mod(num as int, den as int);
    vstd::arithmetic::div_mod::lemma_mod_bound(num as int, den as int);
    assert(q * den + r == num) by (nonlinear_arith)
        requires
            num == den * q + r,
    ;
    assert((q + 1) * den == q * den + den) by (nonlinear_arith);
    if num >= den {
        vstd::arithmetic::div_mod::lemma_div_non_zero(num as int, den as int);
    }
    if den == 1 {
        vstd::arithmetic::div_mod::lemma_div_basics(num as int);
    }
}

/// A double lies next to the integer that it stands for.
proof fn lemma_as_double(n: nat)
    ensures
        n > 0 ==> as_double(n) > 0,
        as_double(n) <= n + n / 0x20_0000_0000_0000,
        n <= 2 * as_double(n),
        n <= as_double(n) + n / 0x20_0000_0000_0000,
{
    let s = double_step(n);
    lemma_double_step(n);
    lemma_nearest(n, s);
    if s == 1 {
        assert(nearest(n, s) * s == n);
    }
    if n > 0 {
        assert(nearest(n, s) * s > 0) by (nonlinear_arith)
            requires
                nearest(n, s) >= 1,
                s >= 1,
        ;
    }
}

/// The double next to a fraction that is at most `t` is at most `t`.
proof fn lemma_double_quotient(num: nat, den: nat, t: nat)
    requires
        0 < den,
        num <= t * den,
        num < 0x20_0000_0000_0000 * den,
    ensures
        double_quotient(num, den).0 <= t * double_quotient(num, den).1,
        double_quotient(num, den).1 > 0,
    decreases 0x20_0000_0000_0000 * den - num,
{
    if num == 0 {
        assert(t * 1 >= 0);
    } else if num < 0x10_0000_0000_0000 * den {
        assert(2 * num <= (2 * t) * den) by (nonlinear_arith)
            requires
                num <= t * den,
        ;
        lemma_double_quotient(2 * num, den, 2 * t);
        let q = double_quotient(2 * num, den);
        assert((2 * t) * q.1 == t * (2 * q.1)) by (nonlinear_arith);
    } else {
        lemma_nearest(num, den);
        let n = nearest(num, den);
        assert(n <= t) by (nonlinear_arith)
            requires
                n * den <= num + den / 2,
                num <= t * den,
                den > 0,
        ;
    }
}

/// A number from nothing to one gives ticks from nothing to as many as make one.
pub(crate) proof fn lemma_ticks(x: int, scale: nat)
    requires
        0 <= x <= 1_000_000,
        1 <= scale <= 10_000,
    ensures
        0 <= ticks(x, scale) <= scale,
{
    reveal(ticks);
    let q = double_quotient(x as nat, 1_000_000);
    lemma_double_quotient(x as nat, 1_000_000, 1);
    let n = q.0 * scale;
    let p = as_double(n);
    lemma_as_double(n);
    assert(n <= scale * q.1) by (nonlinear_arith)
        requires
            n == q.0 * scale,
            q.0 <= q.1,
    ;
    let d = q.1;
    assert(10_000 * d >= scale * d) by (nonlinear_arith)
        requires
            scale <= 10_000,
            d > 0,
    ;
    assert(4 * p <= 4 * n + d);
    assert((2 * p + d) < (scale + 1) * (2 * d)) by (nonlinear_arith)
        requires
            4 * p <= 4 * n + d,
            n <= scale * d,
            d > 0,
    ;
    let r = (2 * p + d) as int / (2 * d) as int;
    vstd::arithmetic::div_mod::lemma_fundamental_div_mod((2 * p + d) as int, (2 * d) as int);
    assert(r <= scale) by (nonlinear_arith)
        requires
            2 * p + d == (2 * d) * r + ((2 * p + d) as int) % ((2 * d) as int),
            ((2 * p + d) as int) % ((2 * d) as int) >= 0,
            (2 * p + d) < (scale + 1) * (2 * d),
            d > 0,
    ;
}

/// The double next to a fraction.
fn quotient_of(num: u128, den: u128) -> (r: (u128, u128))
    requires
        num <= 0x2_0000_0000_0000_0000,
        0 < den <= 0x2_0000_0000_0000_0000,
    ensures
        r.0 == double_quotient(num as nat, den as nat).0,
        r.1 == double_quotient(num as nat, den as nat).1,
        r.0 <= 0x8_0000_0000_0000_0000,
        num < 0x20_0000_0000_0000 * den ==> r.0 <= 0x20_0000_0000_0000,
        0 < r.1 <= 0x40_0000_0000_0000_0000_0000_0000_0000,
{
    if num == 0 {
        return (0, 1);
    }
    let ghost want = double_quotient(num as nat, den as nat);
    let mut n: u128 = num;
    let mut d: u128 = 1;
    while n < 0x10_0000_0000_0000 * den
        invariant
            0 < den <= 0x2_0000_0000_0000_0000,
            n >= d >= 1,
            d <= 0x40_0000_0000_0000_0000_0000_0000_0000,
            n < 0x20_0000_0000_0000 * den || n == num,
            n <= 0x2_0000_0000_0000_0000 || n < 0x20_0000_0000_0000 * den,
            want.0 == double_quotient(n as nat, den as nat).0,
            want.1 == double_quotient(n as nat, den as nat).1 * d,
        decreases 0x20_0000_0000_0000 * den - n,
    {
        proof {
            let q = double_quotient(2 * n as nat, den as nat);
            assert(double_quotient(n as nat, den as nat) == (q.0, 2 * q.1));
            assert((2 * q.1) * d == q.1 * (2 * d)) by (nonlinear_arith);
        }
        n = 2 * n;
        d = 2 * d;
    }
    let mut e: u128 = den;
    let mut k: u128 = 1;
    while n >= 0x20_0000_0000_0000 * e
        invariant
            0 < e <= 0x2_0000_0000_0000_0000,
            1 <= d <= 0x40_0000_0000_0000_0000_0000_0000_0000,
            k >= 1,
            n >= 0x10_0000_0000_0000 * e,
            n <= 0x2_0000_0000_0000_0000 || n < 0x20_0000_0000_0000 * e,
            k == 1 || k * 0x10_0000_0000_0000 <= n,
            k <= e,
            k == 1 || n <= 0x2_0000_0000_0000_0000,
            n < 0x20_0000_0000_0000 * den || n == num,
            k == 1 ==> e == den,
            k == 1 || num >= 0x20_0000_0000_0000 * den,
            want.0 == double_quotient(n as nat, e as nat).0 * k,
            want.1 == double_quotient(n as nat, e as nat).1 * d,
        decreases n - 0x10_0000_0000_0000 * e,
    {
        proof {
            let q = double_quotient(n as nat, 2 * e as nat);
            assert(double_quotient(n as nat, e as nat) == (2 * q.0, q.1));
            assert((2 * q.0) * k == q.0 * (2 * k)) by (nonlinear_arith);
        }
        e = 2 * e;
        k = 2 * k;
    }
    let m: u128 = round_div(n, e);
    proof {
        let q = double_quotient(n as nat, e as nat);
        assert(q == (m as nat, 1nat));
        assert(want.1 == d) by (nonlinear_arith)
            requires
                want.1 == q.1 * d,
                q.1 == 1,
        ;
        lemma_nearest(n as nat, e as nat);
        assert(m <= 0x20_0000_0000_0000) by (nonlinear_arith)
            requires
                m * e <= n + e / 2,
                n < 0x20_0000_0000_0000 * e,
                e > 0,
        ;
        assert(m * k <= 0x20_0000_0000_0000 * 0x4000) by (nonlinear_arith)
            requires
                0 <= m <= 0x20_0000_0000_0000,
                0 <= k <= 0x4000,
        ;
    }
    (m * k, d)
}

// ---------------------------------------------------------------------------------------------
// Sums in double precision

/// How many units make one where doubles are added up: every double that stands for a number of
/// millionths is a whole number of such units.
pub const UNITS: i128 = 0x100_0000_0000_0000_0000;

/// The double next to a number of millionths, in units.
#[verifier::opaque]
pub open spec fn double_units(x: int) -> int {
    let q = double_quotient(magnitude(x), 1_000_000);
    let n = (q.0 * UNITS) as int / q.1 as int;
    if x < 0 {
        -n
    } else {
        n
    }
}

/// The sum of two doubles in units, as a double in units.
#[verifier::opaque]
pub open spec fn double_sum(a: int, b: int) -> int {
    let n = as_double(magnitude(a + b)) as int;
    if a + b < 0 {
        -n
    } else {
        n
    }
}

/// The largest number of millionths whose double is not above a double in units.
pub open spec fn in_millionths(a: int) -> int {
    let f = (a * 1_000_000) / UNITS as int;
    if double_units(f + 1) <= a {
        f + 1
    } else {
        f
    }
}

pub(crate) fn double_units_of(x: i64) -> (r: i128)
    ensures
        r == double_units(x as int),
        x >= 0 ==> r >= 0,
        -1_000_000 <= x <= 1_000_000 ==> -UNITS <= r <= UNITS,
        -LIMIT <= x <= LIMIT ==> -0x100_0000_0000 * UNITS <= r <= 0x100_0000_0000 * UNITS,
        -0x1000_0000_0000 * UNITS <= r <= 0x1000_0000_0000 * UNITS,
{
    let (m, d) = quotient_of(abs_of(x) as u128, 1_000_000);
    proof {
        reveal(double_units);
        let num = magnitude(x as int);
        lemma_double_quotient(num, 1_000_000, 0x1000_0000_0000);
        assert(m * UNITS <= (0x1000_0000_0000 * UNITS) * d) by (nonlinear_arith)
            requires
                m <= 0x1000_0000_0000 * d,
                UNITS > 0,
        ;
        vstd::arithmetic::div_mod::lemma_div_is_ordered(
            (m * UNITS) as int,
            ((0x1000_0000_0000 * UNITS) * d) as int,
            d as int,
        );
        vstd::arithmetic::div_mod::lemma_div_multiples_vanish(0x1000_0000_0000 * UNITS, d as int);
        assert((0x1000_0000_0000 * UNITS) * d == d * (0x1000_0000_0000 * UNITS)) by (
        nonlinear_arith);
        if -LIMIT <= x <= LIMIT {
            lemma_double_quotient(num, 1_000_000, 0x100_0000_0000);
            assert(m * UNITS <= (0x100_0000_0000 * UNITS) * d) by (nonlinear_arith)
                requires
                    m <= 0x100_0000_0000 * d,
                    UNITS > 0,
            ;
            vstd::arithmetic::div_mod::lemma_div_is_ordered(
                (m * UNITS) as int,
                ((0x100_0000_0000 * UNITS) * d) as int,
                d as int,
            );
            vstd::arithmetic::div_mod::lemma_div_multiples_vanish(
                0x100_0000_0000 * UNITS,
                d as int,
            );
            assert((0x100_0000_0000 * UNITS) * d == d * (0x100_0000_0000 * UNITS)) by (
            nonlinear_arith);
        }
        if -1_000_000 <= x <= 1_000_000 {
            lemma_double_quotient(num, 1_000_000, 1);
            assert(m * UNITS <= UNITS * d) by (nonlinear_arith)
                requires
                    m <= d,
                    UNITS > 0,
            ;
            vstd::arithmetic::div_mod::lemma_div_is_ordered(
                (m * UNITS) as int,
                (UNITS * d) as int,
                d as int,
            );
            vstd::arithmetic::div_mod::lemma_div_multiples_vanish(UNITS as int, d as int);
            assert(UNITS * d == d * UNITS) by (nonlinear_arith);
        }
        assert(m * UNITS <= 0x20_0000_0000_0000 * UNITS) by (nonlinear_arith)
            requires
                0 <= m <= 0x20_0000_0000_0000,
                UNITS > 0,
        ;
    }
    let n: i128 = (m * 0x100_0000_0000_0000_0000 / d) as i128;
    if x < 0 {
        -n
    } else {
        n
    }
}

pub(crate) fn double_sum_of(a: i128, b: i128) -> (r: i128)
    requires
        -0x400_0000_0000_0000_0000_0000_0000_0000 <= a <= 0x400_0000_0000_0000_0000_0000_0000_0000,
        -0x400_0000_0000_0000_0000_0000_0000_0000 <= b <= 0x400_0000_0000_0000_0000_0000_0000_0000,
    ensures
        r == double_sum(a as int, b as int),
        magnitude(r as int) <= magnitude(a as int) + magnitude(b as int) + UNITS,
{
    proof {
        reveal(double_sum);
        lemma_as_double(magnitude(a + b));
    }
    let s: i128 = a + b;
    if s < 0 {
        -(double_of((-s) as u128) as i128)
    } else {
        double_of(s as u128) as i128
    }
}

/// How near a double lies to the fraction that it stands for.
proof fn lemma_double_error(num: nat, den: nat)
    requires
        0 < num,
        0 < den,
        num < 0x20_0000_0000_0000 * den,
    ensures
        ({
            let q = double_quotient(num, den);
            &&& q.0 >= 0x10_0000_0000_0000
            &&& 2 * (q.0 * den) <= 2 * (num * q.1) + den
            &&& 2 * (num * q.1) <= 2 * (q.0 * den) + den
        }),
    decreases 0x20_0000_0000_0000 * den - num,
{
    if num < 0x10_0000_0000_0000 * den {
        lemma_double_error(2 * num, den);
        let q = double_quotient(2 * num, den);
        assert((2 * num) * q.1 == num * (2 * q.1)) by (nonlinear_arith);
    } else {
        let n = nearest(num, den);
        let k = num / den;
        let r = num % den;
        vstd::arithmetic::div_mod::lemma_fundamental_div_mod(num as int, den as int);
        vstd::arithmetic::div_mod::lemma_mod_bound(num as int, den as int);
        assert(k * den + r == num) by (nonlinear_arith)
            requires
                num == den * k + r,
        ;
        assert((k + 1) * den == k * den + den) by (nonlinear_arith);
        assert(k >= 0x10_0000_0000_0000) by (nonlinear_arith)
            requires
                num == den * k + r,
                r < den,
                num >= 0x10_0000_0000_0000 * den,
                den > 0,
        ;
        assert(num * 1 == num);
        assert(double_quotient(num, den) == (n, 1nat));
    }
}

/// How near the units of a number of millionths lie to it.
proof fn lemma_double_units(x: int)
    requires
        0 <= x <= 1_000_001,
    ensures
        x * UNITS - 0x1_0000_0000_0000 <= double_units(x) * 1_000_000 <= x * UNITS
            + 0x1_0000_0000_0000,
{
    reveal(double_units);
    if x > 0 {
        let q = double_quotient(x as nat, 1_000_000);
        let (m, d) = (q.0 as int, q.1 as int);
        lemma_double_error(x as nat, 1_000_000);
        lemma_double_quotient(x as nat, 1_000_000, 2);
        let u = (m * UNITS) / d;
        vstd::arithmetic::div_mod::lemma_fundamental_div_mod(m * UNITS, d);
        vstd::arithmetic::div_mod::lemma_mod_bound(m * UNITS, d);
        let rest = (m * UNITS) % d;
        assert(d >= 0x8_0000_0000_0000);
        // Both sides times d.
        assert(u * d <= m * UNITS < u * d + d) by (nonlinear_arith)
            requires
                m * UNITS == d * u + rest,
                0 <= rest < d,
        ;
        assert(u * 1_000_000 <= x * UNITS + 0x1_0000_0000_0000) by (nonlinear_arith)
            requires
                u * d <= m * UNITS,
                2 * (m * 1_000_000) <= 2 * (x * d) + 1_000_000,
                d >= 0x8_0000_0000_0000,
                UNITS == 0x100_0000_0000_0000_0000,
        ;
        assert(x * UNITS - 0x1_0000_0000_0000 <= u * 1_000_000) by (nonlinear_arith)
            requires
                m * UNITS < u * d + d,
                2 * (x * d) <= 2 * (m * 1_000_000) + 1_000_000,
                d >= 0x8_0000_0000_0000,
                UNITS == 0x100_0000_0000_0000_0000,
        ;
    }
}

/// A number of millionths comes back from its double.
pub proof fn millionths_come_back(x: int)
    requires
        0 <= x <= 1_000_000,
    ensures
        in_millionths(double_units(x)) == x,
{
    lemma_double_units(x);
    lemma_double_units(x + 1);
    let a = double_units(x);
    let f = (a * 1_000_000) / UNITS as int;
    assert(f == x || f == x - 1) by (nonlinear_arith)
        requires
            f == (a * 1_000_000) / UNITS as int,
            x * UNITS - 0x1_0000_0000_0000 <= a * 1_000_000 <= x * UNITS + 0x1_0000_0000_0000,
            UNITS == 0x100_0000_0000_0000_0000,
    ;
}

fn in_millionths_of(a: i128) -> (r: i64)
    requires
        0 <= a <= 0x10_0000 * UNITS,
    ensures
        r == in_millionths(a as int),
        0 <= r <= 0x10_0000 * 1_000_000 + 1,
{
    let f: i64 = (a * 1_000_000 / 0x100_0000_0000_0000_0000) as i64;
    if double_units_of(f + 1) <= a {
        f + 1
    } else {
        f
    }
}

/// A double in units times an integer, as a double in units.
#[verifier::opaque]
pub open spec fn double_times(a: int, k: nat) -> int {
    let n = as_double(magnitude(a) * k) as int;
    if a < 0 {
        -n
    } else {
        n
    }
}

/// A double in units of which `one` make one, rounded to one decimal in double precision, halves
/// away from zero, in millionths.
#[verifier::opaque]
pub open spec fn double_tenths(a: int, one: int) -> int {
    let n = nearest_up(as_double(magnitude(a) * 10), one as nat) as int * 100_000;
    if a < 0 {
        -n
    } else {
        n
    }
}

/// The double next to `n / k` in units, for a quotient of at least 52 bits.
pub open spec fn double_part(n: nat, k: nat) -> nat {
    let step = double_step(n / k);
    nearest(n, k * step) * step
}

/// How many of the finer units make one: every hundredth of a double that stands for a number of
/// millionths is, as a double, a whole number of them.
pub const FINE_UNITS: i128 = 0x1_0000_0000_0000_0000_0000;

/// A hundredth of the double next to a number of millionths, as a double in finer units.
#[verifier::opaque]
pub open spec fn double_hundredth(x: int) -> int {
    let n = double_part(magnitude(double_units(x)) * 256, 100) as int;
    if x < 0 {
        -n
    } else {
        n
    }
}

/// A double of at least one in finer units is, times a hundred, above 25.
pub(crate) proof fn lemma_large_times(a: int)
    requires
        a >= FINE_UNITS,
    ensures
        double_times(a, 100) >= 25 * FINE_UNITS,
{
    reveal(double_times);
    lemma_as_double((a * 100) as nat);
}

/// A double that is not above 0 stays there, times a hundred.
pub(crate) proof fn lemma_small_times(a: int)
    requires
        a <= 0,
    ensures
        double_times(a, 100) <= 0,
{
    reveal(double_times);
    lemma_as_double((magnitude(a) * 100) as nat);
}

pub(crate) fn double_times_of(a: i128, k: u128) -> (r: i128)
    requires
        magnitude(a as int) <= 0x800_0000_0000_0000_0000_0000_0000_0000,
        magnitude(a as int) * k < 0x1000_0000_0000_0000_0000_0000_0000_0000,
    ensures
        r == double_times(a as int, k as nat),
        a >= 0 ==> r >= 0,
        a <= 0 ==> r <= 0,
        magnitude(r as int) <= 2 * (magnitude(a as int) * k),
        2 * magnitude(r as int) >= magnitude(a as int) * k,
{
    proof {
        reveal(double_times);
        lemma_as_double(magnitude(a as int) * k as nat);
        if a == 0 {
            assert(magnitude(a as int) * k == 0) by (nonlinear_arith)
                requires
                    magnitude(a as int) == 0,
            ;
        }
    }
    if a < 0 {
        -(double_of((-a) as u128 * k) as i128)
    } else {
        double_of(a as u128 * k) as i128
    }
}

pub(crate) fn double_tenths_of(a: i128, one: u128) -> (r: i128)
    requires
        magnitude(a as int) <= 0x1_0000_0000_0000_0000_0000_0000_0000,
        0x100_0000_0000_0000_0000 <= one <= 0x1_0000_0000_0000_0000_0000,
    ensures
        r == double_tenths(a as int, one as int),
        a >= 0 ==> r >= 0,
        i64::MIN < r < i64::MAX,
{
    let m: u128 = if a < 0 {
        (-a) as u128
    } else {
        a as u128
    };
    proof {
        reveal(double_tenths);
        lemma_as_double((m * 10) as nat);
    }
    let p: u128 = double_of(m * 10);
    let n: u128 = (2 * p + one) / (2 * one);
    proof {
        vstd::arithmetic::div_mod::lemma_fundamental_div_mod((2 * p + one) as int, (2 * one) as int);
        vstd::arithmetic::div_mod::lemma_mod_bound((2 * p + one) as int, (2 * one) as int);
        assert(n <= 0x2000_0000_0000) by (nonlinear_arith)
            requires
                (2 * one) * n <= 2 * p + one,
                one >= 0x100_0000_0000_0000_0000,
                p <= 20 * 0x1_0000_0000_0000_0000_0000_0000_0000,
        ;
    }
    if a < 0 {
        -(n as i128 * 100_000)
    } else {
        n as i128 * 100_000
    }
}

fn double_part_of(n: u128, k: u128) -> (r: u128)
    requires
        n <= 0x100_0000_0000_0000_0000_0000_0000_0000,
        1 <= k <= 100,
    ensures
        r == double_part(n as nat, k as nat),
        r <= 2 * n + 100,
        k >= 2 ==> r <= n + 100,
{
    let q: u128 = n / k;
    let step: u128 = double_step_of(q);
    proof {
        assert(q <= n) by (nonlinear_arith)
            requires
                q == n as int / k as int,
                k >= 1,
                n >= 0,
        ;
        assert(k * step <= 100 * step && step <= q + 1 && 100 * step <= 100 * (q + 1)
            && k * step >= 1) by (nonlinear_arith)
            requires
                1 <= k <= 100,
                1 <= step <= q + 1,
        ;
        assert(k * step <= n + 100) by (nonlinear_arith)
            requires
                q == n as int / k as int,
                step == 1 || step * 0x10_0000_0000_0000 <= q,
                1 <= k <= 100,
                step >= 1,
                n >= 0,
        ;
    }
    let m: u128 = round_div(n, k * step);
    proof {
        lemma_nearest(n as nat, (k * step) as nat);
        assert(m * step <= m * (k * step)) by (nonlinear_arith)
            requires
                k >= 1,
                m >= 0,
                step >= 1,
        ;
        if k >= 2 {
            assert(2 * (m * step) <= m * (k * step)) by (nonlinear_arith)
                requires
                    k >= 2,
                    m >= 0,
                    step >= 1,
            ;
        }
    }
    m * step
}

/// A hundredth of a number, as a double in finer units.
pub(crate) fn double_hundredth_of(x: i64) -> (r: i128)
    requires
        -LIMIT <= x <= LIMIT,
    ensures
        r == double_hundredth(x as int),
        magnitude(r as int) <= 0x100_0000_0000_0000_0000_0000_0000_0000 + 100,
{
    reveal(double_hundredth);
    let a: i128 = double_units_of(x);
    let m: u128 = if a < 0 {
        (-a) as u128
    } else {
        a as u128
    };
    let n: i128 = double_part_of(m * 256, 100) as i128;
    if x < 0 {
        -n
    } else {
        n
    }
}

/// A part of a whole number, as a double in finer units.
pub(crate) fn whole_part_of(n: u64, k: u64) -> (r: i128)
    requires
        n <= 1000,
        1 <= k <= 100,
    ensures
        r == double_part((n * FINE_UNITS) as nat, k as nat),
        0 <= r <= 0x1000 * FINE_UNITS,
{
    double_part_of(n as u128 * 0x1_0000_0000_0000_0000_0000, k as u128) as i128
}

/// A double in units, in millionths and cut to the range from nothing to one.
pub(crate) fn millionths_of(a: i128) -> (r: i64)
    ensures
        r == clamped(in_millionths(a as int), 0, ONE as int),
{
    if a < 0 {
        return 0;
    }
    if a >= 0x100_0000_0000_0000_0000 {
        return ONE;
    }
    in_millionths_of(a)
}

/// A number of millionths times a factor, both as doubles, in units. The factor is a number of
/// 53 bits over two to the power of 52, or twice that.
#[verifier::opaque]
pub open spec fn double_product(x: nat, factor: nat) -> int {
    let q = double_quotient(x, 1_000_000);
    (as_double(q.0 * factor) * 0x10_0000) as int / q.1 as int
}

/// A double in units, in millionths: rounded down, but never onto a whole number that it lies
/// above.
pub open spec fn beside_wholes(a: int) -> int {
    let g = in_millionths(a);
    if g % 1_000_000 == 0 && double_units(g) < a {
        g + 1
    } else {
        g
    }
}

/// A positive number times a factor of at least one, as doubles, cut to a range.
#[verifier::opaque]
pub open spec fn product_within(x: int, factor: nat, lo: int, hi: int) -> int {
    if x <= 0 {
        lo
    } else if x >= hi {
        hi
    } else {
        clamped(beside_wholes(double_product(x as nat, factor)), lo, hi)
    }
}

fn double_product_of(x: u64, factor: u64) -> (r: i128)
    requires
        x <= 0x4000_0000,
        factor <= 0x40_0000_0000_0000,
    ensures
        r == double_product(x as nat, factor as nat),
        0 <= r <= 0x10_0000 * UNITS,
{
    let (m, d) = quotient_of(x as u128, 1_000_000);
    let ghost n = (m * factor) as int;
    let ghost p = as_double(n as nat) as int;
    proof {
        reveal(double_product);
        lemma_double_quotient(x as nat, 1_000_000, 0x800);
        assert(0 <= n <= 0x20_0000_0000_0000 * 0x40_0000_0000_0000) by (nonlinear_arith)
            requires
                n == m * factor,
                0 <= m <= 0x20_0000_0000_0000,
                0 <= factor <= 0x40_0000_0000_0000,
        ;
        lemma_as_double(n as nat);
        assert(n <= (0x800 * 0x40_0000_0000_0000) * d) by (nonlinear_arith)
            requires
                n == m * factor,
                0 <= m <= 0x800 * d,
                0 <= factor <= 0x40_0000_0000_0000,
        ;
        let top: int = 0x40_0000_0000_0000_0000_0000;
        assert(p <= 2 * n);
        assert(p * 0x10_0000 <= top * d) by (nonlinear_arith)
            requires
                p <= 2 * n,
                n <= (0x800 * 0x40_0000_0000_0000) * d,
                top == 0x40_0000_0000_0000_0000_0000,
        ;
        vstd::arithmetic::div_mod::lemma_div_is_ordered(p * 0x10_0000, top * d, d as int);
        vstd::arithmetic::div_mod::lemma_div_multiples_vanish(top, d as int);
        assert(top * d == d * top) by (nonlinear_arith);
        vstd::arithmetic::div_mod::lemma_div_pos_is_pos(p * 0x10_0000, d as int);
    }
    (double_of(m * factor as u128) * 0x10_0000 / d) as i128
}

/// A number times a factor, as doubles, cut to a range.
pub(crate) fn product_within_of(x: i64, factor: u64, lo: i64, hi: i64) -> (r: i64)
    requires
        factor <= 0x40_0000_0000_0000,
        0 <= lo <= hi <= 0x4000_0000,
    ensures
        r == product_within(x as int, factor as nat, lo as int, hi as int),
{
    reveal(product_within);
    if x <= 0 {
        return lo;
    }
    if x >= hi {
        return hi;
    }
    let a: i128 = double_product_of(x as u64, factor);
    let g: i64 = in_millionths_of(a);
    if g % 1_000_000 == 0 && double_units_of(g) < a {
        clamp(g + 1, lo, hi)
    } else {
        clamp(g, lo, hi)
    }
}

/// The integer part of `n` times 0.7, computed in double precision.
pub(crate) fn seven_tenths_of(n: u64) -> (r: u128)
    ensures
        r == seven_tenths(n as nat),
{
    let a: u128 = double_of(n as u128);
    assert(a * 6_305_039_478_318_694 < 0x1000_0000_0000_0000_0000_0000_0000_0000) by (
    nonlinear_arith)
        requires
            a <= 2 * 0xffff_ffff_ffff_ffff,
    ;
    double_of(a * 6_305_039_478_318_694) / 0x20_0000_0000_0000
}

// ---------------------------------------------------------------------------------------------
// Laws

/// Values that are all the same have that value as their mean and do not deviate.
pub proof fn equal_values_do_not_deviate(v: Seq<i64>, x: i64)
    requires
        v.len() > 0,
        forall|i: int| 0 <= i < v.len() ==> #[trigger] v[i] == x,
    ensures
        mean(v) == x,
        deviation(v) == 0,
        sample_deviation(v) == 0,
{
    lemma_equal_sums(v, x);
    let n = v.len() as int;
    let y = x as int;
    assert(n * (n * (y * y)) == (n * y) * (n * y)) by (nonlinear_arith);
    assert(spread(v) == 0);
    assert(n * y == y * n) by (nonlinear_arith);
    vstd::arithmetic::div_mod::lemma_div_multiples_vanish(y, n);
    vstd::arithmetic::div_mod::lemma_mod_multiples_basic(y, n);
    assert(root(0) == 0);
    vstd::arithmetic::div_mod::lemma_div_basics(n);
    assert((0 * n) * (0 * n) == 0) by (nonlinear_arith);
    if n >= 2 {
        let k = n * (n - 1);
        assert(k > 0) by (nonlinear_arith)
            requires
                n >= 2,
                k == n * (n - 1),
        ;
        vstd::arithmetic::div_mod::lemma_div_basics(k);
        assert(v.len() * (v.len() - 1) == k);
        assert((0int * 0) * k == 0) by (nonlinear_arith);
    }
}

proof fn lemma_equal_sums(v: Seq<i64>, x: i64)
    requires
        forall|i: int| 0 <= i < v.len() ==> #[trigger] v[i] == x,
    ensures
        sum(v) == v.len() * x,
        sum_of_squares(v) == v.len() * (x * x),
    decreases v.len(),
{
    if v.len() > 0 {
        let u = v.drop_last();
        lemma_equal_sums(u, x);
        let n = u.len() as int;
        let y = x as int;
        assert((n + 1) * y == n * y + y) by (nonlinear_arith);
        assert((n + 1) * (y * y) == n * (y * y) + y * y) by (nonlinear_arith);
    } else {
        assert(0 * (x * x) == 0) by (nonlinear_arith);
    }
}

/// The squared distances of all values from one.
pub open spec fn distances(v: Seq<i64>, x: int) -> int
    decreases v.len(),
{
    if v.len() == 0 {
        0
    } else {
        distances(v.drop_last(), x) + (v.last() - x) * (v.last() - x)
    }
}

/// The squared distances of all pairs of values.
pub open spec fn pair_distances(v: Seq<i64>) -> int
    decreases v.len(),
{
    if v.len() == 0 {
        0
    } else {
        pair_distances(v.drop_last()) + distances(v.drop_last(), v.last() as int)
    }
}

/// A deviation is what the distances between the values come to: it reaches an even number exactly
/// when the squared distances of all pairs reach the square of that number times how many values
/// there are.
pub proof fn deviations_measure_distances(v: Seq<i64>, even: int)
    requires
        v.len() >= 2,
        even >= 0,
        even % 2 == 0,
    ensures
        deviation(v) >= even <==> pair_distances(v) >= (even * v.len()) * (even * v.len()),
{
    lemma_pairs(v);
    let n = v.len() as int;
    let s = spread(v);
    lemma_spread_nonneg(v);
    let r = root(s as nat) as int;
    lemma_root(s as nat);
    let down = r / n;
    vstd::arithmetic::div_mod::lemma_fundamental_div_mod(r, n);
    vstd::arithmetic::div_mod::lemma_mod_bound(r, n);
    let rest = r % n;
    assert(r == n * down + rest);
    assert(down * n == n * down) by (nonlinear_arith);
    if down >= even {
        assert((even * n) * (even * n) <= r * r) by (nonlinear_arith)
            requires
                0 <= even <= down,
                r == n * down + rest,
                rest >= 0,
                n >= 2,
        ;
    } else {
        assert(r + 1 <= even * n) by (nonlinear_arith)
            requires
                down + 1 <= even,
                r == n * down + rest,
                rest < n,
                n >= 2,
        ;
        assert((r + 1) * (r + 1) <= (even * n) * (even * n)) by (nonlinear_arith)
            requires
                0 <= r + 1 <= even * n,
        ;
        // A number that was rounded up is odd, and so below the even one.
        assert(deviation(v) < even);
    }
}

proof fn lemma_pairs(v: Seq<i64>)
    ensures
        pair_distances(v) == spread(v),
    decreases v.len(),
{
    if v.len() > 0 {
        let w = v.drop_last();
        lemma_pairs(w);
        lemma_distances(w, v.last() as int);
        let n = w.len() as int;
        let s = sum(w);
        let q = sum_of_squares(w);
        let x = v.last() as int;
        assert((n + 1) * (q + x * x) - (s + x) * (s + x) == (n * q - s * s) + (q - 2 * s * x + n * (x
            * x))) by (nonlinear_arith);
    }
}

proof fn lemma_distances(v: Seq<i64>, x: int)
    ensures
        distances(v, x) == sum_of_squares(v) - 2 * sum(v) * x + v.len() * (x * x),
    decreases v.len(),
{
    if v.len() > 0 {
        let w = v.drop_last();
        let y = v.last() as int;
        lemma_distances(w, x);
        let n = w.len() as int;
        let s = sum(w);
        let q = sum_of_squares(w);
        assert((q + y * y) - 2 * (s + y) * x + (n + 1) * (x * x) == (q - 2 * s * x + n * (x * x)) + (
        y - x) * (y - x)) by (nonlinear_arith);
    } else {
        assert(2 * 0 * x == 0 && 0 * (x * x) == 0) by (nonlinear_arith);
    }
}

/// Ticks are the number times the scale, to the nearest integer.
pub proof fn ticks_are_near(x: int, scale: nat)
    requires
        0 <= x <= 1_000_000,
        1 <= scale <= 10_000,
    ensures
        x * scale - 500_001 <= ticks(x, scale) * 1_000_000 <= x * scale + 500_001,
{
    reveal(ticks);
    if x > 0 {
        let q = double_quotient(x as nat, 1_000_000);
        let (m, d) = (q.0 as int, q.1 as int);
        lemma_double_error(x as nat, 1_000_000);
        lemma_double_quotient(x as nat, 1_000_000, 1);
        let n = m * scale;
        lemma_as_double(n as nat);
        let p = as_double(n as nat) as int;
        let t = (2 * p + d) / (2 * d);
        vstd::arithmetic::div_mod::lemma_fundamental_div_mod(2 * p + d, 2 * d);
        vstd::arithmetic::div_mod::lemma_mod_bound(2 * p + d, 2 * d);
        let rest = (2 * p + d) % (2 * d);
        assert(n <= 10_000 * d) by (nonlinear_arith)
            requires
                n == m * scale,
                0 <= m <= d,
                1 <= scale <= 10_000,
        ;
        assert(n - d / 1000 <= p <= n + d / 1000);
        assert(scale * (2 * (m * 1_000_000)) <= scale * (2 * (x * d) + 1_000_000) && scale * (2 * (x
            * d)) <= scale * (2 * (m * 1_000_000) + 1_000_000)) by (nonlinear_arith)
            requires
                2 * (m * 1_000_000) <= 2 * (x * d) + 1_000_000,
                2 * (x * d) <= 2 * (m * 1_000_000) + 1_000_000,
                scale >= 1,
        ;
        let y = x * scale;
        assert(scale * (2 * (x * d)) == 2 * (y * d)) by (nonlinear_arith)
            requires
                y == x * scale,
        ;
        assert(scale * (2 * (m * 1_000_000)) == 2_000_000 * n) by (nonlinear_arith)
            requires
                n == m * scale,
        ;
        assert(scale * (2 * (x * d) + 1_000_000) == scale * (2 * (x * d)) + 1_000_000 * scale)
            by (nonlinear_arith);
        assert(scale * (2 * (m * 1_000_000) + 1_000_000) == scale * (2 * (m * 1_000_000))
            + 1_000_000 * scale) by (nonlinear_arith);
        assert(2 * d * t + rest == 2 * p + d);
        // A thousandth of the denominator is left aside twice: it is far below a millionth here.
        let e = p - n;
        lemma_small_error(n, p, d);
        assert(t * 1_000_000 <= y + 500_001 && y - 500_001 <= t * 1_000_000) by (nonlinear_arith)
            requires
                2 * d * t + rest == 2 * p + d,
                0 <= rest < 2 * d,
                2_000_000 * n <= 2 * (y * d) + 1_000_000 * scale,
                2 * (y * d) <= 2_000_000 * n + 1_000_000 * scale,
                4_000_000 * (p - n) <= d,
                4_000_000 * (n - p) <= d,
                1 <= scale <= 10_000,
                d >= 0x10_0000_0000_0000,
        ;
    } else {
        assert(0 * scale == 0) by (nonlinear_arith);
        assert(double_quotient(0, 1_000_000) == (0nat, 1nat));
        lemma_as_double(0);
        assert((2 * 0nat + 1nat) / (2 * 1nat) == 0) by (nonlinear_arith);
    }
}

proof fn lemma_small_error(n: int, p: int, d: int)
    requires
        0 <= n <= 10_000 * d,
        d >= 0x10_0000_0000_0000,
        n - n / 0x20_0000_0000_0000 <= p <= n + n / 0x20_0000_0000_0000,
    ensures
        4_000_000 * (p - n) <= d,
        4_000_000 * (n - p) <= d,
{
}

/// A mean stands to an even number as the sum does to as many times that number.
pub proof fn means_share_the_sum(v: Seq<i64>, even: int)
    requires
        v.len() > 0,
        even % 2 == 0,
    ensures
        mean(v) >= even <==> sum(v) >= even * v.len(),
        mean(v) > even <==> sum(v) > even * v.len(),
{
    quotients_compare(sum(v), v.len() as int, even);
}

/// The last values of a list are its end, in its order.
pub proof fn last_values_are_the_end<A>(s: Seq<A>, n: nat, front: Seq<A>)
    ensures
        last_of(s, n).len() <= n,
        last_of(s, n).len() == n || last_of(s, n) == s,
        s.len() >= n ==> last_of(front + s, n) == last_of(s, n),
        s.len() == n ==> last_of(front + s, n) == s,
{
    if s.len() >= n {
        assert(last_of(front + s, n) =~= last_of(s, n));
    }
}

/// A share is what it says: it reaches an even number of millionths exactly when `a` makes up as
/// much of `b`, and it is never more than one.
pub proof fn shares_are_true(a: nat, b: nat, even: int)
    requires
        b > 0,
        even % 2 == 0,
        even <= 1_000_000,
    ensures
        capped_ratio(a, b) >= even <==> a * 1_000_000 >= even * b,
        0 <= capped_ratio(a, b) <= 1_000_000,
        a > 0 ==> capped_ratio(a, b) > 0,
{
    quotients_compare((a * 1_000_000) as int, b as int, even);
    quotients_compare((a * 1_000_000) as int, b as int, 0);
}

/// A double in units lies within `k` small steps of a number of millionths.
pub open spec fn lies_near(a: int, millionths: int, k: int) -> bool {
    -k * 0x4_0000_0000_0000 <= a * 1_000_000 - millionths * UNITS <= k * 0x4_0000_0000_0000
}

/// The double next to a number of millionths lies near it.
pub(crate) proof fn lemma_units_near(x: int)
    requires
        -1_000_000 <= x <= 1_000_000,
    ensures
        lies_near(double_units(x), x, 1),
{
    reveal(double_units);
    if x >= 0 {
        lemma_double_units(x);
    } else {
        lemma_double_units(-x);
        assert(double_units(x) == -double_units(-x));
        assert((-x) * UNITS == -(x * UNITS)) by (nonlinear_arith);
    }
}

/// A sum of doubles lies near the sum of what they stand for.
pub(crate) proof fn lemma_sum_near(a: int, b: int, x: int, y: int, j: int, k: int)
    requires
        lies_near(a, x, j),
        lies_near(b, y, k),
        -8_000_000 <= x <= 8_000_000,
        -8_000_000 <= y <= 8_000_000,
        0 <= j <= 256,
        0 <= k <= 256,
    ensures
        lies_near(double_sum(a, b), x + y, j + k + 1),
{
    reveal(double_sum);
    let n = magnitude(a + b);
    lemma_as_double(n);
    assert((x + y) * UNITS == x * UNITS + y * UNITS) by (nonlinear_arith);
    assert(-8_000_000 * UNITS <= x * UNITS <= 8_000_000 * UNITS && -8_000_000 * UNITS <= y * UNITS
        <= 8_000_000 * UNITS) by (nonlinear_arith)
        requires
            -8_000_000 <= x <= 8_000_000,
            -8_000_000 <= y <= 8_000_000,
            UNITS > 0,
    ;
    assert(n <= 20 * UNITS);
    assert((j + k + 1) * 0x4_0000_0000_0000 == j * 0x4_0000_0000_0000 + k * 0x4_0000_0000_0000
        + 0x4_0000_0000_0000);
}

/// What lies near a number of millionths is, in millionths, that number or a neighbour.
pub(crate) proof fn lemma_near_millionths(a: int, x: int, k: int)
    requires
        lies_near(a, x, k),
        0 <= k <= 256,
        -16_000_000 <= x <= 16_000_000,
    ensures
        x - 1 <= in_millionths(a) <= x + 1,
{
    let f = (a * 1_000_000) / UNITS as int;
    assert(x - 1 <= f <= x) by (nonlinear_arith)
        requires
            f == (a * 1_000_000) / UNITS as int,
            -256 * 0x4_0000_0000_0000 <= a * 1_000_000 - x * UNITS <= 256 * 0x4_0000_0000_0000,
            UNITS == 0x100_0000_0000_0000_0000,
    ;
}

pub(crate) proof fn lemma_minus_near(a: int, x: int, k: int)
    requires
        lies_near(a, x, k),
    ensures
        lies_near(-a, -x, k),
{
    assert((-x) * UNITS == -(x * UNITS)) by (nonlinear_arith);
}

/// A double times a small whole number lies near the product.
pub(crate) proof fn lemma_times_near(n: nat, step: int)
    requires
        n <= 64,
        0 <= step <= 100_000,
    ensures
        lies_near(as_double((n * double_units(step)) as nat) as int, n * step, (n + 1) as int),
{
    lemma_units_near(step);
    lemma_units_sign(step);
    let u = double_units(step);
    let p = n * u;
    assert(0 <= p && p * 1_000_000 - (n * step) * UNITS == n * (u * 1_000_000 - step * UNITS))
        by (nonlinear_arith)
        requires
            p == n * u,
            u >= 0,
            n >= 0,
    ;
    let d = u * 1_000_000 - step * UNITS;
    assert(-(n * 0x4_0000_0000_0000) <= n * d <= n * 0x4_0000_0000_0000) by (nonlinear_arith)
        requires
            -0x4_0000_0000_0000 <= d <= 0x4_0000_0000_0000,
            n >= 0,
    ;
    lemma_as_double(p as nat);
    assert(step * UNITS <= 100_000 * UNITS) by (nonlinear_arith)
        requires
            step <= 100_000,
            UNITS > 0,
    ;
    assert(p <= 64 * UNITS) by (nonlinear_arith)
        requires
            p == n * u,
            0 <= u <= UNITS,
            0 <= n <= 64,
    ;
}

pub(crate) proof fn lemma_units_sign(x: int)
    ensures
        x >= 0 ==> double_units(x) >= 0,
{
    reveal(double_units);
    let q = double_quotient(magnitude(x), 1_000_000);
    lemma_quotient_sign(magnitude(x), 1_000_000);
    assert((q.0 * UNITS) as int / q.1 as int >= 0) by {
        assert(q.0 * UNITS >= 0) by (nonlinear_arith)
            requires
                q.0 >= 0,
                UNITS > 0,
        ;
        vstd::arithmetic::div_mod::lemma_div_pos_is_pos((q.0 * UNITS) as int, q.1 as int);
    }
}

proof fn lemma_quotient_sign(num: nat, den: nat)
    requires
        den > 0,
    ensures
        double_quotient(num, den).1 > 0,
    decreases
            (if num < 0x10_0000_0000_0000 * den {
                0x10_0000_0000_0000 * den - num
            } else if num >= 0x20_0000_0000_0000 * den {
                num - 0x20_0000_0000_0000 * den + 1
            } else {
                0
            }),
{
    if num == 0 {
    } else if num < 0x10_0000_0000_0000 * den {
        lemma_quotient_sign(2 * num, den);
    } else if num >= 0x20_0000_0000_0000 * den {
        lemma_quotient_sign(num, 2 * den);
    }
}

/// A product of doubles, cut to a range, is the exact product to three millionths, or the end of
/// the range on whose far side that lies. The factor is counted in parts of two to the 52nd.
pub proof fn products_are_near(x: int, factor: nat, lo: int, hi: int)
    requires
        0 < x,
        0x10_0000_0000_0000 <= factor <= 0x40_0000_0000_0000,
        0 <= lo < hi <= 0x4000_0000,
    ensures
        ({
            let y = product_within(x, factor, lo, hi);
            &&& lo <= y <= hi
            &&& y < hi ==> x * factor <= (y + 3) * 0x10_0000_0000_0000
            &&& y > lo ==> x * factor >= (y - 3) * 0x10_0000_0000_0000
        }),
{
    reveal(product_within);
    if x >= hi {
        assert(x * factor >= (hi - 3) * 0x10_0000_0000_0000) by (nonlinear_arith)
            requires
                x >= hi,
                hi >= 0,
                factor >= 0x10_0000_0000_0000,
        ;
    } else {
        lemma_product(x as nat, factor);
        let a = double_product(x as nat, factor);
        let f = (a * 1_000_000) / UNITS as int;
        let xf = x * factor;
        assert((f + 1) * 0x10_0000_0000_0000 >= xf - 0x8_0000_0000_0000 && f * 0x10_0000_0000_0000
            <= xf + 0x8_0000_0000_0000) by (nonlinear_arith)
            requires
                f == (a * 1_000_000) / UNITS as int,
                UNITS == 0x100_0000_0000_0000_0000,
                xf * 0x10_0000 - 0x80_0000_0000_0000_0000 <= a * 1_000_000,
                a * 1_000_000 <= xf * 0x10_0000 + 0x80_0000_0000_0000_0000,
        ;
        let g = beside_wholes(a);
        assert(f <= g <= f + 2);
    }
}

proof fn lemma_product(x: nat, factor: nat)
    requires
        0 < x < 0x4000_0000,
        factor <= 0x40_0000_0000_0000,
    ensures
        (x * factor) * 0x10_0000 - 0x80_0000_0000_0000_0000 <= double_product(x, factor)
            * 1_000_000 <= (x * factor) * 0x10_0000 + 0x80_0000_0000_0000_0000,
{
    reveal(double_product);
    let q = double_quotient(x, 1_000_000);
    let (m, d) = (q.0 as int, q.1 as int);
    lemma_double_error(x, 1_000_000);
    lemma_double_quotient(x, 1_000_000, 0x800);
    let n = m * factor;
    assert(n >= 0) by (nonlinear_arith)
        requires
            n == m * factor,
            m >= 0,
            factor >= 0,
    ;
    let p = as_double(n as nat) as int;
    lemma_as_double(n as nat);
    let e = n / 0x20_0000_0000_0000;
    assert(d >= 0x200_0000_0000) by (nonlinear_arith)
        requires
            0x10_0000_0000_0000 <= m,
            m <= 0x800 * d,
    ;
    assert(e <= 0x1000 * d) by (nonlinear_arith)
        requires
            n == m * factor,
            0 <= m <= 0x800 * d,
            0 <= factor <= 0x40_0000_0000_0000,
            e * 0x20_0000_0000_0000 <= n,
    ;
    let a = (p * 0x10_0000) / d;
    vstd::arithmetic::div_mod::lemma_fundamental_div_mod(p * 0x10_0000, d);
    vstd::arithmetic::div_mod::lemma_mod_bound(p * 0x10_0000, d);
    let rest = (p * 0x10_0000) % d;
    assert(a * d == d * a) by (nonlinear_arith);
    assert(a * d <= p * 0x10_0000 < a * d + d);
    // The fraction, times the factor.
    let xdf = (x * d) * factor;
    assert(2 * (n * 1_000_000) <= 2 * xdf + 1_000_000 * factor && 2 * xdf <= 2 * (n * 1_000_000)
        + 1_000_000 * factor) by (nonlinear_arith)
        requires
            n == m * factor,
            xdf == (x * d) * factor,
            2 * (m * 1_000_000) <= 2 * (x * d) + 1_000_000,
            2 * (x * d) <= 2 * (m * 1_000_000) + 1_000_000,
            factor >= 0,
    ;
    let target = (x * factor) * 0x10_0000;
    assert(target * d == xdf * 0x10_0000) by (nonlinear_arith)
        requires
            target == (x * factor) * 0x10_0000,
            xdf == (x * d) * factor,
    ;
    let slack: int = 0x80_0000_0000_0000_0000;
    let big = a * 1_000_000;
    assert(big * d == 1_000_000 * (a * d)) by (nonlinear_arith)
        requires
            big == a * 1_000_000,
    ;
    assert(slack * d == 0x80_0000_0000_0000_0000 * d);
    assert(big * d <= target * d + slack * d);
    assert(target * d <= big * d + slack * d);
    assert(big <= target + slack) by (nonlinear_arith)
        requires
            big * d <= target * d + slack * d,
            d > 0,
    ;
    assert(target <= big + slack) by (nonlinear_arith)
        requires
            target * d <= big * d + slack * d,
            d > 0,
    ;
}

/// A double in finer units lies within `k` small steps of a number of millionths of a hundredth.
pub open spec fn lies_fine(a: int, x: int, k: int) -> bool {
    -k * 0x1000_0000_0000_0000 <= a * 100_000_000 - x * 0x1_0000_0000_0000_0000_0000 <= k
        * 0x1000_0000_0000_0000
}

/// The double next to a number of up to a hundred lies near it.
proof fn lemma_hundred_units(x: int)
    requires
        0 <= x <= 100_000_000,
    ensures
        x * UNITS - 0x1_0000_0000_0000 <= double_units(x) * 1_000_000 <= x * UNITS
            + 0x1_0000_0000_0000,
        double_units(x) >= 0,
{
    reveal(double_units);
    lemma_units_sign(x);
    if x > 0 {
        let q = double_quotient(x as nat, 1_000_000);
        let (m, d) = (q.0 as int, q.1 as int);
        lemma_double_error(x as nat, 1_000_000);
        lemma_double_quotient(x as nat, 1_000_000, 100);
        let u = (m * UNITS) / d;
        vstd::arithmetic::div_mod::lemma_fundamental_div_mod(m * UNITS, d);
        vstd::arithmetic::div_mod::lemma_mod_bound(m * UNITS, d);
        let rest = (m * UNITS) % d;
        assert(d >= 0x2000_0000_0000);
        assert(u * d <= m * UNITS < u * d + d) by (nonlinear_arith)
            requires
                m * UNITS == d * u + rest,
                0 <= rest < d,
        ;
        assert(u * 1_000_000 <= x * UNITS + 0x1_0000_0000_0000) by (nonlinear_arith)
            requires
                u * d <= m * UNITS,
                2 * (m * 1_000_000) <= 2 * (x * d) + 1_000_000,
                d >= 0x2000_0000_0000,
                UNITS == 0x100_0000_0000_0000_0000,
        ;
        assert(x * UNITS - 0x1_0000_0000_0000 <= u * 1_000_000) by (nonlinear_arith)
            requires
                m * UNITS < u * d + d,
                2 * (x * d) <= 2 * (m * 1_000_000) + 1_000_000,
                d >= 0x2000_0000_0000,
                UNITS == 0x100_0000_0000_0000_0000,
        ;
    }
}

/// A hundredth of a whole lies near it.
proof fn lemma_part(n: nat)
    requires
        n <= 0x80_0000_0000_0000_0000_0000,
    ensures
        n - 0x20_0000_0000 <= double_part(n, 100) * 100 <= n + 0x20_0000_0000,
{
    let s = double_step(n / 100);
    lemma_double_step(n / 100);
    lemma_nearest(n, 100 * s);
    let q = nearest(n, 100 * s);
    assert((q * s) * 100 == q * (100 * s)) by (nonlinear_arith);
}

/// A hundredth of a number lies near it.
pub(crate) proof fn lemma_hundredth_fine(x: int)
    requires
        0 <= x <= 100_000_000,
    ensures
        lies_fine(double_hundredth(x), x, 1),
        double_hundredth(x) >= 0,
{
    reveal(double_hundredth);
    lemma_hundred_units(x);
    let u = double_units(x);
    lemma_part((u * 256) as nat);
}

/// Hundredths of a whole number below a hundred lie near them.
pub(crate) proof fn lemma_part_fine(n: int)
    requires
        0 <= n < 100,
    ensures
        lies_fine(double_part((n * FINE_UNITS) as nat, 100) as int, n * 1_000_000, 1),
{
    lemma_part((n * FINE_UNITS) as nat);
}

/// A number of millionths in finer units lies near it.
pub(crate) proof fn lemma_units_fine(x: int)
    requires
        0 <= x <= 1_000_000,
    ensures
        lies_fine(double_units(x) * 256, 100 * x, 8),
        double_units(x) >= 0,
{
    lemma_double_units(x);
    lemma_units_sign(x);
}

/// A sum of doubles in finer units lies near the sum.
pub(crate) proof fn lemma_sum_fine(a: int, b: int, x: int, y: int, j: int, k: int)
    requires
        lies_fine(a, x, j),
        lies_fine(b, y, k),
        -400_000_000 <= x <= 400_000_000,
        -400_000_000 <= y <= 400_000_000,
        0 <= j <= 256,
        0 <= k <= 256,
    ensures
        lies_fine(double_sum(a, b), x + y, j + k + 1),
{
    reveal(double_sum);
    let n = magnitude(a + b);
    lemma_as_double(n);
}

/// A double in finer units times a small number lies near the product.
pub(crate) proof fn lemma_times_fine(a: int, n: nat, x: int, k: int)
    requires
        lies_fine(a, x, k),
        a >= 0,
        0 <= x <= 12_000_000,
        n <= 8,
        0 <= k <= 16,
    ensures
        lies_fine(double_times(a, n), n * x, n * k + 1),
{
    reveal(double_times);
    let p = a * n;
    assert(0 <= p <= 8 * a) by (nonlinear_arith)
        requires
            p == a * n,
            0 <= n <= 8,
            a >= 0,
    ;
    lemma_as_double(p as nat);
    let d = a * 100_000_000 - x * 0x1_0000_0000_0000_0000_0000;
    let step: int = 0x1000_0000_0000_0000;
    assert(p * 100_000_000 - (n * x) * 0x1_0000_0000_0000_0000_0000 == n * d) by (nonlinear_arith)
        requires
            p == a * n,
            d == a * 100_000_000 - x * 0x1_0000_0000_0000_0000_0000,
    ;
    assert(-((n * k) * step) <= n * d <= (n * k) * step) by (nonlinear_arith)
        requires
            -(k * step) <= d <= k * step,
            n >= 0,
    ;
    assert((n * k + 1) * step == (n * k) * step + step) by (nonlinear_arith);
}

/// A number that lies near millionths is shown as them, to the nearest tenth.
pub(crate) proof fn lemma_tenths_near(a: int, one: int, z: int)
    requires
        one == UNITS || one == FINE_UNITS,
        -128 * one <= a <= 128 * one,
        -one <= 1024 * (a * 1_000_000 - z * one) <= one,
    ensures
        z - 50_001 <= double_tenths(a, one) <= z + 50_001,
{
    reveal(double_tenths);
    let m = magnitude(a) as int;
    let n = as_double((m * 10) as nat) as int;
    lemma_as_double((m * 10) as nat);
    let t = (2 * n + one) / (2 * one);
    assert(t == nearest_up(n as nat, one as nat));
    vstd::arithmetic::div_mod::lemma_fundamental_div_mod(2 * n + one, 2 * one);
    vstd::arithmetic::div_mod::lemma_mod_bound(2 * n + one, 2 * one);
    let rest = (2 * n + one) % (2 * one);
    let w = if a < 0 {
        -z
    } else {
        z
    };
    assert(w * one == if a < 0 {
        -(z * one)
    } else {
        z * one
    }) by (nonlinear_arith)
        requires
            w == (if a < 0 {
                -z
            } else {
                z
            }),
    ;
    assert(100_000 * t <= w + 50_001 && w - 50_001 <= 100_000 * t) by (nonlinear_arith)
        requires
            2 * one * t + rest == 2 * n + one,
            0 <= rest < 2 * one,
            one > 0,
            1024 * (m * 1_000_000 - w * one) <= one,
            -one <= 1024 * (m * 1_000_000 - w * one),
            1_000_000 * (n - m * 10) <= one,
            1_000_000 * (m * 10 - n) <= one,
    ;
}

/// A hundred times a double is, in double precision, near that.
pub(crate) proof fn lemma_hundred_times(a: int)
    ensures
        ({
            let m = magnitude(a) as int;
            let t = double_times(a, 100);
            &&& -(m / 0x1000_0000_0000) - 1 <= t - 100 * a <= m / 0x1000_0000_0000 + 1
            &&& a >= 0 ==> t >= 0
            &&& a <= 0 ==> t <= 0
        }),
{
    reveal(double_times);
    lemma_as_double((magnitude(a) * 100) as nat);
}

/// A number is shown to the nearest: as wholes, tenths or hundredths, up to a million.
pub proof fn shown_numbers_are_nearest(x: int, scale: nat)
    requires
        -1_000_000_000_000 <= x <= 1_000_000_000_000,
        1 <= scale <= 100,
    ensures
        ({
            let m = magnitude(x) as int;
            1000 * (shown(x, scale) * 1_000_000 - m * scale) <= 501_000_000 && 1000 * (m * scale
                - shown(x, scale) * 1_000_000) <= 501_000_000
        }),
{
    reveal(shown);
    let n = magnitude(x);
    if n > 0 {
        let q = double_quotient(n, 1_000_000);
        lemma_double_error(n, 1_000_000);
        lemma_double_quotient(n, 1_000_000, 0x10_0000);
        let p = q.0 * scale;
        lemma_nearest(p, q.1);
        lemma_rounded(
            q.0 as int,
            q.1 as int,
            n as int,
            1_000_000,
            scale as int,
            p as int,
            shown(x, scale) as int,
        );
    } else {
        assert(double_quotient(0, 1_000_000) == (0nat, 1nat));
        assert(0 * scale == 0) by (nonlinear_arith);
        lemma_nearest(0, 1);
    }
}

/// Percents are a share times a hundred, to the nearest.
pub proof fn percents_are_nearest(num: nat, den: nat)
    requires
        0 < den,
        num <= 0x10_0000 * den,
    ensures
        1000 * (percents(num, den) * den - 100 * num) <= 501 * den,
        1000 * (100 * num - percents(num, den) * den) <= 501 * den,
{
    reveal(percents);
    if num > 0 {
        let q = double_quotient(num, den);
        lemma_double_error(num, den);
        lemma_double_quotient(num, den, 0x10_0000);
        lemma_as_double(q.0 * 100);
        let p = as_double(q.0 * 100);
        lemma_nearest(p, q.1);
        lemma_rounded(
            q.0 as int,
            q.1 as int,
            num as int,
            den as int,
            100,
            p as int,
            percents(num, den) as int,
        );
    } else {
        assert(double_quotient(0, den) == (0nat, 1nat));
        lemma_as_double(0);
        lemma_nearest(0, 1);
        assert(0 * den == 0) by (nonlinear_arith);
    }
}

/// Tenths of a percent are a share times a thousand, to the nearest.
pub proof fn percent_tenths_are_nearest(a: nat, b: nat)
    requires
        0 < b < 0x20_0000_0000_0000,
        a <= b,
    ensures
        1000 * (percent_tenths(a, b) * b - 1000 * a) <= 501 * b,
        1000 * (1000 * a - percent_tenths(a, b) * b) <= 501 * b,
{
    reveal(percent_tenths);
    lemma_whole_double(a);
    lemma_whole_double(b);
    if a > 0 {
        let q = double_quotient(a, b);
        lemma_double_error(a, b);
        lemma_double_quotient(a, b, 1);
        lemma_as_double(q.0 * 100);
        lemma_as_double(as_double(q.0 * 100) * 10);
        let p = as_double(as_double(q.0 * 100) * 10) as int;
        let t = nearest_up(p as nat, q.1) as int;
        lemma_nearest_up(p as nat, q.1);
        lemma_rounded(q.0 as int, q.1 as int, a as int, b as int, 1000, p, t);
        if t > 1000 {
            assert(t * b >= 1001 * b) by (nonlinear_arith)
                requires
                    t >= 1001,
                    b > 0,
            ;
        }
    } else {
        assert(double_quotient(0, b) == (0nat, 1nat));
        lemma_as_double(0);
        lemma_nearest_up(0, 1);
        assert(0 * b == 0) by (nonlinear_arith);
    }
}

/// Hundredths of a ratio are that ratio times a hundred, to the nearest.
pub proof fn hundredths_are_nearest(a: nat, b: nat)
    requires
        0 < b < 0x20_0000_0000_0000,
        a < 0x20_0000_0000_0000,
        a <= 0x10_0000 * b,
    ensures
        hundredths_of(a, b) % 10_000 == 0,
        1000 * ((hundredths_of(a, b) / 10_000) * b - 100 * a) <= 501 * b,
        1000 * (100 * a - (hundredths_of(a, b) / 10_000) * b) <= 501 * b,
{
    reveal(hundredths_of);
    lemma_whole_double(a);
    lemma_whole_double(b);
    if a > 0 {
        let q = double_quotient(a, b);
        lemma_double_error(a, b);
        lemma_double_quotient(a, b, 0x10_0000);
        lemma_as_double(q.0 * 100);
        let p = as_double(q.0 * 100);
        let t = nearest_up(p, q.1) as int;
        lemma_nearest_up(p, q.1);
        lemma_rounded(q.0 as int, q.1 as int, a as int, b as int, 100, p as int, t);
    } else {
        assert(double_quotient(0, b) == (0nat, 1nat));
        lemma_as_double(0);
        lemma_nearest_up(0, 1);
        assert(0 * b == 0) by (nonlinear_arith);
    }
}

proof fn lemma_whole_double(n: nat)
    requires
        n < 0x20_0000_0000_0000,
    ensures
        as_double(n) == n,
{
    assert(double_step(n) == 1);
    lemma_nearest(n, 1);
}

proof fn lemma_nearest_up(n: nat, d: nat)
    requires
        d > 0,
    ensures
        2 * (nearest_up(n, d) * d) <= 2 * n + d,
        2 * n < 2 * (nearest_up(n, d) * d) + d + 1,
{
    let t = nearest_up(n, d) as int;
    let k = (2 * n + d) as int;
    vstd::arithmetic::div_mod::lemma_fundamental_div_mod(k, (2 * d) as int);
    vstd::arithmetic::div_mod::lemma_mod_bound(k, (2 * d) as int);
    assert((2 * d) * t == 2 * (t * d)) by (nonlinear_arith);
}

/// A fraction that is scaled as a double and rounded is the scaled fraction, rounded.
proof fn lemma_rounded(m: int, d: int, num: int, den: int, k: int, p: int, t: int)
    requires
        0x10_0000_0000_0000 <= m <= 0x10_0000 * d,
        den > 0,
        1 <= k <= 1000,
        2 * (m * den) <= 2 * (num * d) + den,
        2 * (num * d) <= 2 * (m * den) + den,
        0x1_0000_0000_0000 * (p - m * k) <= m * k,
        0x1_0000_0000_0000 * (m * k - p) <= m * k,
        2 * (t * d) <= 2 * p + d,
        2 * p <= 2 * (t * d) + d,
    ensures
        1000 * (t * den - k * num) <= 501 * den,
        1000 * (k * num - t * den) <= 501 * den,
{
    let mk = m * k;
    assert(mk <= 1000 * m) by (nonlinear_arith)
        requires
            mk == m * k,
            0 <= m,
            1 <= k <= 1000,
    ;
    let e = p - mk;
    assert(d >= 0x1_0000_0000);
    assert(0x1_0000_0000_0000 * e <= mk && -mk <= 0x1_0000_0000_0000 * e);
    assert(mk <= 0x8000_0000 * d);
    assert(0x2_0000 * e <= d && -d <= 0x2_0000 * e);
    // All sides times the denominator, and then times that of the double.
    let td = t * d;
    let tden = t * den;
    let knum = k * num;
    let mden = m * den;
    let edge = e * den;
    assert(td * den == tden * d) by (nonlinear_arith)
        requires
            td == t * d,
            tden == t * den,
    ;
    assert(2 * (td * den) <= 2 * (p * den) + d * den && 2 * (p * den) <= 2 * (td * den) + d * den)
        by (nonlinear_arith)
        requires
            2 * td <= 2 * p + d,
            2 * p <= 2 * td + d,
            den > 0,
    ;
    assert(p * den == k * mden + edge) by (nonlinear_arith)
        requires
            p == m * k + e,
            mden == m * den,
            edge == e * den,
    ;
    assert(2 * (k * mden) <= 2 * (knum * d) + k * den && 2 * (knum * d) <= 2 * (k * mden) + k * den)
        by (nonlinear_arith)
        requires
            2 * mden <= 2 * (num * d) + den,
            2 * (num * d) <= 2 * mden + den,
            knum == k * num,
            k >= 1,
    ;
    let dd = d * den;
    assert(dd >= 0) by (nonlinear_arith)
        requires
            dd == d * den,
            d > 0,
            den > 0,
    ;
    assert(0x2_0000 * edge <= dd && -dd <= 0x2_0000 * edge) by (nonlinear_arith)
        requires
            edge == e * den,
            dd == d * den,
            0x2_0000 * e <= d,
            -d <= 0x2_0000 * e,
            den > 0,
    ;
    assert(0x10_0000 * (k * den) <= dd) by (nonlinear_arith)
        requires
            dd == d * den,
            d >= 0x1_0000_0000,
            1 <= k <= 1000,
            den > 0,
    ;
    let diff = tden - knum;
    assert(diff * d == tden * d - knum * d) by (nonlinear_arith)
        requires
            diff == tden - knum,
    ;
    assert(1000 * (diff * d) <= 501 * dd && -501 * dd <= 1000 * (diff * d));
    assert(1000 * diff <= 501 * den && -501 * den <= 1000 * diff) by (nonlinear_arith)
        requires
            1000 * (diff * d) <= 501 * dd,
            -501 * dd <= 1000 * (diff * d),
            dd == d * den,
            d > 0,
    ;
}

/// Seven tenths of a number are that, rounded down, or one less where they are whole.
pub proof fn seven_tenths_are_true(n: nat)
    requires
        n < 0x2_0000_0000_0000,
    ensures
        10 * seven_tenths(n) <= 7 * n <= 10 * seven_tenths(n) + 10,
{
    lemma_whole_double(n);
    let k = n * 6_305_039_478_318_694;
    lemma_as_double(k);
    let e = k / 0x20_0000_0000_0000;
    assert(e <= n);
    let p = as_double(k);
    assert(p <= k + n && k <= p + n);
    assert(10 * k + 4 * n == 0x20_0000_0000_0000 * (7 * n));
    let t = p / 0x20_0000_0000_0000;
    assert(t == seven_tenths(n));
    assert(10 * (0x20_0000_0000_0000 * t) <= 0x20_0000_0000_0000 * (7 * n) + 6 * n);
    assert(0x20_0000_0000_0000 * (7 * n) <= 10 * (0x20_0000_0000_0000 * (t + 1)) + 14 * n);
}

/// The smaller of two is one of them and above neither, the larger one of them and below neither; a
/// value that is cut to a range lies in it, and is the nearest that does.
pub proof fn values_are_cut_to_their_range(a: int, b: int, x: int, lo: int, hi: int)
    requires
        lo <= hi,
    ensures
        smaller(a, b) <= a && smaller(a, b) <= b && (smaller(a, b) == a || smaller(a, b) == b),
        larger(a, b) >= a && larger(a, b) >= b && (larger(a, b) == a || larger(a, b) == b),
        lo <= clamped(x, lo, hi) <= hi,
        lo <= x <= hi ==> clamped(x, lo, hi) == x,
        x < lo ==> clamped(x, lo, hi) == lo,
        x > hi ==> clamped(x, lo, hi) == hi,
        -LIMIT <= kept(x) <= LIMIT,
        -LIMIT <= x <= LIMIT ==> kept(x) == x,
        magnitude(x) == x || magnitude(x) == -x,
        magnitude(-x) == magnitude(x),
{
}

/// A quotient lies next to the exact one: it is that where it is whole, and the odd neighbour of it
/// where it is not.
pub proof fn quotients_are_next_to_exact(num: int, den: int)
    requires
        den > 0,
    ensures
        num % den == 0 ==> quotient(num, den) * den == num,
        num % den != 0 ==> quotient(num, den) % 2 != 0,
        (quotient(num, den) - 1) * den < num < (quotient(num, den) + 1) * den,
{
    vstd::arithmetic::div_mod::lemma_fundamental_div_mod(num, den);
    vstd::arithmetic::div_mod::lemma_mod_bound(num, den);
    let q = num / den;
    let r = num % den;
    assert(q * den == den * q && (q - 1) * den == den * q - den && (q + 1) * den == den * q + den
        && (q + 2) * den == den * q + 2 * den) by (nonlinear_arith);
}

} // verus!
