//! Building documents: numbers, lists and objects as JSON values.
use vstd::prelude::*;

use vstd::arithmetic::power::{lemma_pow0, lemma_pow1, lemma_pow_adds, pow};

use crate::fixed::{keep, kept, magnitude, sign_text, ticks, ticks_of, ONE};
use crate::json::{array, entry_views, first_of, json_views, object, text, Json, JsonView};
use crate::text::{
    all_digits, dec, decimal, digit, digit_char, digits_value, is_digit, views,
};

verus! {

// ---------------------------------------------------------------------------------------------
// Numbers

/// The lowest `digits` decimal digits of `n`.
pub open spec fn low_digits(n: nat, digits: nat) -> Seq<char>
    decreases digits,
{
    if digits == 0 {
        Seq::empty()
    } else {
        low_digits(n / 10, (digits - 1) as nat).push(digit_char(n % 10))
    }
}

/// The lowest `digits` decimal digits of `n`, at least one, without zeros at the end.
pub open spec fn fraction_text(n: nat, digits: nat) -> Seq<char>
    decreases digits,
{
    if digits > 1 && n % 10 == 0 {
        fraction_text(n / 10, (digits - 1) as nat)
    } else {
        low_digits(n, digits)
    }
}

/// A number of millionths as JSON writes it: with a point, and with no more decimals than it has.
pub open spec fn real_text(m: int) -> Seq<char> {
    sign_text(m) + decimal(magnitude(m) / 1_000_000) + seq!['.'] + fraction_text(
        magnitude(m) % 1_000_000,
        6,
    )
}

pub open spec fn real_view(m: int) -> JsonView {
    JsonView::Real { micro: m as i64, text: real_text(m) }
}

pub open spec fn opt_real_view(m: Option<i64>) -> JsonView {
    match m {
        Some(x) => real_view(x as int),
        None => JsonView::Null,
    }
}

pub open spec fn int_view(n: int) -> JsonView {
    if n >= 0 {
        JsonView::UInt(n as u64)
    } else {
        JsonView::Int(n as i64)
    }
}

/// A number of millionths, cut to the range that is kept and rounded to a multiple of `step` in
/// double precision, halves away from zero.
pub open spec fn rounded_view(m: int, step: int) -> JsonView {
    real_view(kept(ticks(kept(m), (1_000_000int / step) as nat) * step))
}

/// A number of millionths as a percentage with one decimal, rounded in double precision, halves
/// away from zero.
pub open spec fn percent_view(m: int) -> JsonView {
    real_view(kept(ticks(m, 1000) * 100_000))
}

pub open spec fn opt_rounded_view(m: Option<i64>, step: int) -> JsonView {
    match m {
        Some(x) => rounded_view(x as int, step),
        None => JsonView::Null,
    }
}

/// A count as a number with a fraction, cut to the range that is kept.
pub open spec fn count_view(n: nat) -> JsonView {
    real_view(kept(n * ONE))
}

fn low_digits_of(n: u64, digits: u64) -> (r: String)
    ensures
        r@ == low_digits(n as nat, digits as nat),
    decreases digits,
{
    if digits == 0 {
        String::new()
    } else {
        let mut s = low_digits_of(n / 10, digits - 1);
        s.push(digit(n % 10));
        s
    }
}

fn fraction_of(n: u64, digits: u64) -> (r: String)
    ensures
        r@ == fraction_text(n as nat, digits as nat),
    decreases digits,
{
    if digits > 1 && n % 10 == 0 {
        fraction_of(n / 10, digits - 1)
    } else {
        low_digits_of(n, digits)
    }
}

/// A number of millionths.
pub fn real_json(m: i64) -> (r: Json)
    ensures
        r@ == real_view(m as int),
{
    let n: u64 = if m < 0 {
        (-(m as i128)) as u64
    } else {
        m as u64
    };
    let mut s = if m < 0 {
        "-".to_owned()
    } else {
        String::new()
    };
    proof {
        reveal_strlit("-");
        reveal_strlit(".");
    }
    assert(s@ =~= sign_text(m as int));
    let whole = dec(n / 1_000_000);
    let part = fraction_of(n % 1_000_000, 6);
    s.append(whole.as_str());
    s.append(".");
    s.append(part.as_str());
    assert("."@ =~= seq!['.']);
    Json::Real { micro: m, text: s }
}

/// A number of millionths, or nothing.
pub fn opt_real_json(m: Option<i64>) -> (r: Json)
    ensures
        r@ == opt_real_view(m),
{
    match m {
        Some(x) => real_json(x),
        None => Json::Null,
    }
}

/// A number of millionths, rounded to a multiple of `step`.
pub fn rounded_json(m: i128, step: i64) -> (r: Json)
    requires
        100 <= step <= 1_000_000,
    ensures
        r@ == rounded_view(m as int, step as int),
{
    let x: i64 = keep(m);
    let scale: i64 = 1_000_000 / step;
    assert(1 <= scale <= 10_000) by (nonlinear_arith)
        requires
            scale == 1_000_000int / (step as int),
            100 <= step <= 1_000_000,
    ;
    let n: i128 = ticks_of(x, scale as u128);
    assert(-0x8_0000_0000_0000_0000_0000 * 1_000_000 <= n * step <= 0x8_0000_0000_0000_0000_0000
        * 1_000_000) by (nonlinear_arith)
        requires
            -0x8_0000_0000_0000_0000_0000 <= n <= 0x8_0000_0000_0000_0000_0000,
            0 <= step <= 1_000_000,
    ;
    real_json(keep(n * step as i128))
}

/// A number of millionths as a percentage with one decimal.
pub fn percent_json(m: i64) -> (r: Json)
    ensures
        r@ == percent_view(m as int),
{
    real_json(keep(ticks_of(m, 1000) * 100_000))
}

/// A number of millionths, rounded to a multiple of `step`, or nothing.
pub fn opt_rounded_json(m: Option<i64>, step: i64) -> (r: Json)
    requires
        100 <= step <= 1_000_000,
    ensures
        r@ == opt_rounded_view(m, step as int),
{
    match m {
        Some(x) => rounded_json(x as i128, step),
        None => Json::Null,
    }
}

/// A count as a number with a fraction.
pub fn count_json(n: u64) -> (r: Json)
    ensures
        r@ == count_view(n as nat),
{
    real_json(keep(n as i128 * 1_000_000))
}

/// A whole number.
pub fn int_json(n: i64) -> (r: Json)
    ensures
        r@ == int_view(n as int),
{
    if n >= 0 {
        Json::UInt(n as u64)
    } else {
        Json::Int(n)
    }
}

// ---------------------------------------------------------------------------------------------
// Lists

pub open spec fn opt_text_view(s: Option<Seq<char>>) -> JsonView {
    match s {
        Some(t) => JsonView::Str(t),
        None => JsonView::Null,
    }
}

/// Texts as an array.
pub open spec fn texts_view(v: Seq<Seq<char>>) -> JsonView {
    JsonView::Arr(v.map_values(|s: Seq<char>| JsonView::Str(s)))
}

/// Numbers of millionths as an array.
pub open spec fn reals_view(v: Seq<i64>) -> JsonView {
    JsonView::Arr(v.map_values(|m: i64| real_view(m as int)))
}

/// Whole numbers as an array.
pub open spec fn ints_view(v: Seq<i64>) -> JsonView {
    JsonView::Arr(v.map_values(|n: i64| int_view(n as int)))
}

/// A text, or nothing.
pub fn opt_text(s: &Option<String>) -> (r: Json)
    ensures
        r@ == opt_text_view(crate::enrich::opt_text(*s)),
{
    match s {
        Some(t) => text(t.as_str()),
        None => Json::Null,
    }
}

/// The first `n` texts as an array.
pub fn first_texts(v: &Vec<String>, n: usize) -> (r: Json)
    ensures
        r@ == texts_view(first_of(views(v@), n as nat)),
{
    let ghost want = first_of(views(v@), n as nat).map_values(|s: Seq<char>| JsonView::Str(s));
    let mut out: Vec<Json> = Vec::new();
    let mut i: usize = 0;
    while i < v.len() && i < n
        invariant
            i <= v.len(),
            i <= n,
            want == first_of(views(v@), n as nat).map_values(|s: Seq<char>| JsonView::Str(s)),
            json_views(out@) == want.take(i as int),
        decreases v.len() - i,
    {
        let ghost before = out@;
        let t = text(v[i].as_str());
        out.push(t);
        assert(json_views(out@) =~= json_views(before).push(t@));
        assert(first_of(views(v@), n as nat)[i as int] == views(v@)[i as int]);
        assert(json_views(out@) =~= want.take(i + 1));
        i += 1;
    }
    assert(views(v@).len() == v.len());
    assert(want.take(i as int) =~= want);
    array(out)
}

/// Texts as an array.
pub fn texts(v: &Vec<String>) -> (r: Json)
    ensures
        r@ == texts_view(views(v@)),
{
    first_texts(v, v.len())
}

/// Numbers of millionths as an array.
pub fn reals(v: &Vec<i64>) -> (r: Json)
    ensures
        r@ == reals_view(v@),
{
    let ghost want = v@.map_values(|m: i64| real_view(m as int));
    let mut out: Vec<Json> = Vec::new();
    let mut i: usize = 0;
    while i < v.len()
        invariant
            i <= v.len(),
            want == v@.map_values(|m: i64| real_view(m as int)),
            json_views(out@) == want.take(i as int),
        decreases v.len() - i,
    {
        let ghost before = out@;
        let t = real_json(v[i]);
        out.push(t);
        assert(json_views(out@) =~= json_views(before).push(t@));
        assert(json_views(out@) =~= want.take(i + 1));
        i += 1;
    }
    assert(want.take(i as int) =~= want);
    array(out)
}

/// Whole numbers as an array.
pub fn ints(v: &Vec<i64>) -> (r: Json)
    ensures
        r@ == ints_view(v@),
{
    let ghost want = v@.map_values(|n: i64| int_view(n as int));
    let mut out: Vec<Json> = Vec::new();
    let mut i: usize = 0;
    while i < v.len()
        invariant
            i <= v.len(),
            want == v@.map_values(|n: i64| int_view(n as int)),
            json_views(out@) == want.take(i as int),
        decreases v.len() - i,
    {
        let ghost before = out@;
        let t = int_json(v[i]);
        out.push(t);
        assert(json_views(out@) =~= json_views(before).push(t@));
        assert(json_views(out@) =~= want.take(i + 1));
        i += 1;
    }
    assert(want.take(i as int) =~= want);
    array(out)
}

// ---------------------------------------------------------------------------------------------
// Objects

/// The entries of an object, in order.
pub type Entries = Seq<(Seq<char>, JsonView)>;

/// The entries of an object that is being built, in order.
pub struct Fields {
    entries: Vec<(String, Json)>,
}

impl View for Fields {
    type V = Seq<(Seq<char>, JsonView)>;

    closed spec fn view(&self) -> Seq<(Seq<char>, JsonView)> {
        entry_views(self.entries@)
    }
}

impl Fields {
    pub fn new() -> (r: Fields)
        ensures
            r@ == Seq::<(Seq<char>, JsonView)>::empty(),
    {
        let r = Fields { entries: Vec::new() };
        assert(r@ =~= Seq::<(Seq<char>, JsonView)>::empty());
        r
    }

    /// With one more entry.
    pub fn put(self, key: &str, value: Json) -> (r: Fields)
        ensures
            r@ == self@.push((key@, value@)),
    {
        let mut entries = self.entries;
        entries.push((key.to_owned(), value));
        let r = Fields { entries };
        assert(r@ =~= self@.push((key@, value@)));
        r
    }

    /// The object.
    pub fn done(self) -> (r: Json)
        ensures
            r@ == JsonView::Obj(self@),
    {
        object(self.entries)
    }
}

/// A number of millionths is written with its sign, its whole part, and as many decimals as it
/// needs, one at least and six at most.
pub proof fn reals_are_written_short(n: nat, digits: nat)
    requires
        digits > 0,
    ensures
        1 <= fraction_text(n, digits).len() <= digits,
        n % 10 != 0 ==> fraction_text(n, digits).len() == digits,
        digits > 1 && n % 10 == 0 ==> fraction_text(n, digits) == fraction_text(
            n / 10,
            (digits - 1) as nat,
        ),
        fraction_text(n, digits).len() > 1 ==> fraction_text(n, digits).last() != '0',
    decreases digits,
{
    lemma_low_digits(n, digits);
    if digits > 1 && n % 10 == 0 {
        reals_are_written_short(n / 10, (digits - 1) as nat);
    }
}

proof fn lemma_low_digits(n: nat, digits: nat)
    ensures
        low_digits(n, digits).len() == digits,
        digits > 0 ==> low_digits(n, digits).last() == digit_char(n % 10),
    decreases digits,
{
    if digits > 0 {
        lemma_low_digits(n / 10, (digits - 1) as nat);
    }
}

/// The digits of a number below a power of ten write that number.
pub proof fn low_digits_write_the_number(n: nat, digits: nat)
    requires
        n < pow(10, digits),
    ensures
        digits_value(low_digits(n, digits)) == n,
        all_digits(low_digits(n, digits)),
    decreases digits,
{
    lemma_pow0(10);
    if digits > 0 {
        let d = (digits - 1) as nat;
        lemma_pow_adds(10, d, 1);
        lemma_pow1(10);
        let p = pow(10, d);
        assert(n / 10 < p) by (nonlinear_arith)
            requires
                n < p * 10,
        ;
        low_digits_write_the_number(n / 10, d);
        let s = low_digits(n, digits);
        let u = low_digits(n / 10, d);
        assert(s.drop_last() =~= u);
        assert(s.last() == digit_char(n % 10));
        assert forall|i: int| 0 <= i < s.len() implies is_digit(#[trigger] s[i]) by {
            if i < u.len() {
                assert(s[i] == u[i]);
            }
        }
    }
}

/// The decimals of a number keep its value: they are its digits, without the zeros behind them.
pub proof fn decimals_keep_the_value(n: nat, digits: nat)
    requires
        digits > 0,
        n < pow(10, digits),
    ensures
        ({
            let t = fraction_text(n, digits);
            &&& all_digits(t)
            &&& 1 <= t.len() <= digits
            &&& digits_value(t) * pow(10, (digits - t.len()) as nat) == n
        }),
    decreases digits,
{
    let t = fraction_text(n, digits);
    reals_are_written_short(n, digits);
    lemma_pow1(10);
    if digits > 1 && n % 10 == 0 {
        let d = (digits - 1) as nat;
        lemma_pow_adds(10, d, 1);
        let p = pow(10, d);
        assert(n / 10 < p) by (nonlinear_arith)
            requires
                n < p * 10,
        ;
        decimals_keep_the_value(n / 10, d);
        let k = (d - t.len()) as nat;
        lemma_pow_adds(10, k, 1);
        let v = digits_value(t) as int;
        let q = pow(10, k);
        assert(v * (q * 10) == 10 * (v * q)) by (nonlinear_arith);
        assert(n == 10 * (n / 10));
    } else {
        low_digits_write_the_number(n, digits);
        lemma_low_digits(n, digits);
        lemma_pow0(10);
        assert(n * 1 == n);
    }
}

/// A number is kept as it is in its document, beside its text.
pub proof fn documents_keep_their_numbers(m: i64, n: int)
    ensures
        real_view(m as int).micro() == Some(m as int),
        opt_real_view(None) is Null,
        opt_real_view(Some(m)) == real_view(m as int),
        0 <= n <= u64::MAX ==> int_view(n).uint() == Some(n as u64),
        i64::MIN <= n < 0 ==> int_view(n) == JsonView::Int(n as i64),
{
}

} // verus!
