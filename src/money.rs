//! Currencies and exact decimal amounts of money.

use crate::text::same_text;
use vstd::prelude::*;

verus! {

/// The currencies the ledger knows.
#[derive(Clone, Copy, Debug, PartialEq, Eq, Structural)]
pub enum Currency {
    Usd,
    Btc,
}

#[derive(Debug, PartialEq, Eq)]
pub enum MoneyError {
    /// The code, in upper case, that names no known currency.
    UnknownCurrency(String),
}

/// The three-letter upper-case code of a currency.
pub open spec fn code_of(c: Currency) -> Seq<char> {
    match c {
        Currency::Usd => "USD"@,
        Currency::Btc => "BTC"@,
    }
}

/// What `str::to_uppercase` makes of a string.
pub uninterp spec fn upper_of(s: Seq<char>) -> Seq<char>;

/// Relies on `str::to_uppercase`: the upper-case form depends on the characters alone.
#[verifier::external_body]
fn to_upper(s: &str) -> (r: String)
    ensures
        r@ == upper_of(s@),
{
    s.to_uppercase()
}

/// The currency whose code is exactly `u`, if any.
pub open spec fn currency_of_code(u: Seq<char>) -> Option<Currency> {
    if u == "USD"@ {
        Some(Currency::Usd)
    } else if u == "BTC"@ {
        Some(Currency::Btc)
    } else {
        None
    }
}

impl Currency {
    /// Reads a currency from its code already in upper case.
    pub fn from_upper(u: String) -> (r: Result<Currency, MoneyError>)
        ensures
            match currency_of_code(u@) {
                Some(c) => r == Ok::<Currency, MoneyError>(c),
                None => r == Err::<Currency, MoneyError>(MoneyError::UnknownCurrency(u)),
            },
    {
        if same_text(u.as_str(), "USD") {
            Ok(Currency::Usd)
        } else if same_text(u.as_str(), "BTC") {
            Ok(Currency::Btc)
        } else {
            Err(MoneyError::UnknownCurrency(u))
        }
    }

    /// Reads a currency from its code in any letter case.
    pub fn parse_code(code: &str) -> (r: Result<Currency, MoneyError>)
        ensures
            match currency_of_code(upper_of(code@)) {
                Some(c) => r == Ok::<Currency, MoneyError>(c),
                None => r is Err && (r->Err_0 matches MoneyError::UnknownCurrency(u) && u@ == upper_of(code@)),
            },
    {
        let u = to_upper(code);
        Currency::from_upper(u)
    }

    /// The currency's code, in upper case.
    pub fn code(&self) -> (r: &'static str)
        ensures
            r@ == code_of(*self),
    {
        match self {
            Currency::Usd => "USD",
            Currency::Btc => "BTC",
        }
    }
}

impl std::str::FromStr for Currency {
    type Err = MoneyError;

    fn from_str(code: &str) -> Result<Currency, MoneyError> {
        Currency::parse_code(code)
    }
}

/// The largest scale (digits after the point) a decimal may have.
pub const MAX_SCALE: u32 = 28;

/// A mantissa fits in 96 bits with a sign.
pub open spec fn fits_mantissa(m: int) -> bool {
    -0x1_0000_0000_0000_0000_0000_0000 < m < 0x1_0000_0000_0000_0000_0000_0000
}

pub open spec fn pow10(n: nat) -> int
    decreases n,
{
    if n == 0 {
        1
    } else {
        10 * pow10((n - 1) as nat)
    }
}

/// The value `m / 10^s` counted in units of `10^-28`; exact for every scale up to 28.
pub open spec fn scaled_value(m: int, s: nat) -> int {
    m * pow10((28 - s) as nat)
}

pub open spec fn abs_int(m: int) -> int {
    if m < 0 { -m } else { m }
}

pub open spec fn digit_char(d: int) -> char {
    seq!['0', '1', '2', '3', '4', '5', '6', '7', '8', '9'][d]
}

/// The decimal digits of `n`, most significant first; empty for zero.
pub open spec fn digits(n: nat) -> Seq<char>
    decreases n,
{
    if n == 0 {
        Seq::empty()
    } else {
        digits(n / 10).push(digit_char((n % 10) as int))
    }
}

/// The digits of `n`, with zeros in front up to `w` of them.
pub open spec fn padded_digits(n: nat, w: nat) -> Seq<char> {
    let d = digits(n);
    if d.len() < w {
        Seq::new((w - d.len()) as nat, |i: int| '0') + d
    } else {
        d
    }
}

/// Plain decimal notation of `m / 10^s`: `-` for a negative value, the whole part (`0` when
/// it is empty), then, for a positive scale, a point and exactly `s` digits.
pub open spec fn decimal_text(m: int, s: nat) -> Seq<char> {
    let p = padded_digits(abs_int(m) as nat, s);
    let whole = p.subrange(0, p.len() - s);
    let lead = if whole.len() == 0 { seq!['0'] } else { whole };
    let body = if s == 0 { lead } else { lead + seq!['.'] + p.subrange(p.len() - s, p.len() as int) };
    if m < 0 { seq!['-'] + body } else { body }
}

pub open spec fn is_decimal_digit(c: char) -> bool {
    '0' <= c && c <= '9'
}

pub open spec fn digit_of(c: char) -> int {
    (c as u32) as int - 48
}

pub open spec fn all_digits(s: Seq<char>) -> bool {
    forall|i: int| 0 <= i < s.len() ==> is_decimal_digit(#[trigger] s[i])
}

/// The number that a string of decimal digits writes.
pub open spec fn digits_value(s: Seq<char>) -> int
    decreases s.len(),
{
    if s.len() == 0 {
        0
    } else {
        digits_value(s.drop_last()) * 10 + digit_of(s.last())
    }
}

/// `s` splits into an optional `-`, the digits `whole` without a superfluous leading zero and,
/// for a positive scale, a point and the `sc` digits `frac`, and so writes `m / 10^sc`.
pub open spec fn plain_parts(
    s: Seq<char>,
    m: int,
    sc: nat,
    neg: bool,
    whole: Seq<char>,
    frac: Seq<char>,
) -> bool {
    let magnitude = digits_value(whole) * pow10(sc) + digits_value(frac);
    &&& whole.len() > 0 && (whole.len() == 1 || whole[0] != '0')
    &&& all_digits(whole) && all_digits(frac) && frac.len() == sc
    &&& s == (if neg { seq!['-'] } else { Seq::empty() }) + whole + (if sc == 0 {
        Seq::empty()
    } else {
        seq!['.'] + frac
    })
    &&& m == if neg { -magnitude } else { magnitude }
}

/// `s` writes `m / 10^sc` in plain decimal notation.
pub open spec fn writes_plain(s: Seq<char>, m: int, sc: nat) -> bool {
    exists|neg: bool, whole: Seq<char>, frac: Seq<char>| #[trigger] plain_parts(s, m, sc, neg, whole, frac)
}

proof fn lemma_digit_char(d: int)
    requires
        0 <= d < 10,
    ensures
        is_decimal_digit(digit_char(d)),
        digit_of(digit_char(d)) == d,
{
    let t = seq!['0', '1', '2', '3', '4', '5', '6', '7', '8', '9'];
    assert(t[0] == '0' && t[1] == '1' && t[2] == '2' && t[3] == '3' && t[4] == '4');
    assert(t[5] == '5' && t[6] == '6' && t[7] == '7' && t[8] == '8' && t[9] == '9');
}

proof fn lemma_digits(n: nat)
    ensures
        all_digits(digits(n)),
        digits_value(digits(n)) == n,
        digits(n).len() == 0 <==> n == 0,
        n > 0 ==> digits(n)[0] != '0',
    decreases n,
{
    if n > 0 {
        lemma_digits(n / 10);
        lemma_digit_char((n % 10) as int);
        let d = digits(n);
        assert(d.drop_last() =~= digits(n / 10));
        if n / 10 == 0 {
            assert(d[0] == digit_char((n % 10) as int));
        } else {
            assert(d[0] == digits(n / 10)[0]);
        }
    }
}

proof fn lemma_value_concat(a: Seq<char>, b: Seq<char>)
    ensures
        digits_value(a + b) == digits_value(a) * pow10(b.len()) + digits_value(b),
    decreases b.len(),
{
    if b.len() == 0 {
        assert(a + b =~= a);
    } else {
        lemma_value_concat(a, b.drop_last());
        assert((a + b).drop_last() =~= a + b.drop_last());
        assert((a + b).last() == b.last());
        let va = digits_value(a);
        let p = pow10((b.len() - 1) as nat);
        assert(pow10(b.len()) == 10 * p);
        assert((va * p + digits_value(b.drop_last())) * 10 + digit_of(b.last()) == va * (10 * p)
            + (digits_value(b.drop_last()) * 10 + digit_of(b.last()))) by (nonlinear_arith);
    }
}

proof fn lemma_zeros(k: nat)
    ensures
        all_digits(Seq::new(k, |i: int| '0')),
        digits_value(Seq::new(k, |i: int| '0')) == 0,
    decreases k,
{
    if k > 0 {
        lemma_zeros((k - 1) as nat);
        assert(Seq::new(k, |i: int| '0').drop_last() =~= Seq::new((k - 1) as nat, |i: int| '0'));
        lemma_digit_char(0);
    }
}

/// The text of every decimal is plain notation of that same mantissa and scale, so reading
/// it back gives the number that was written.
pub proof fn lemma_text_is_plain(m: int, sc: nat)
    ensures
        writes_plain(decimal_text(m, sc), m, sc),
{
    let n = abs_int(m) as nat;
    let d = digits(n);
    lemma_digits(n);
    let p = padded_digits(n, sc);
    if d.len() < sc {
        let z = Seq::new((sc - d.len()) as nat, |i: int| '0');
        lemma_zeros((sc - d.len()) as nat);
        lemma_value_concat(z, d);
        assert(all_digits(p));
    }
    assert(all_digits(p));
    assert(digits_value(p) == n);
    let whole = p.subrange(0, p.len() - sc);
    let frac = p.subrange(p.len() - sc, p.len() as int);
    assert(p =~= whole + frac);
    lemma_value_concat(whole, frac);
    let lead = if whole.len() == 0 { seq!['0'] } else { whole };
    if whole.len() == 0 {
        let zero = seq!['0'];
        assert(zero.drop_last() =~= Seq::<char>::empty());
        assert(zero.last() == '0');
        assert(digit_of('0') == 0);
        assert(digits_value(zero) == digits_value(zero.drop_last()) * 10 + digit_of(zero.last()));
        assert(digits_value(zero) == 0);
        assert(is_decimal_digit(zero[0]));
    }
    assert(digits_value(lead) == digits_value(whole));
    if whole.len() > 0 {
        assert(d.len() >= sc);
        assert(whole[0] == d[0]);
    }
    assert(all_digits(lead));
    let neg = m < 0;
    let t = decimal_text(m, sc);
    assert(t =~= (if neg { seq!['-'] } else { Seq::empty() }) + lead + (if sc == 0 {
        Seq::empty()
    } else {
        seq!['.'] + frac
    }));
    assert(plain_parts(t, m, sc, neg, lead, frac));
}

/// An exact decimal number: a mantissa of at most 96 bits and a scale of at most 28.
#[derive(Clone, Copy, Debug)]
pub struct Decimal {
    mantissa: i128,
    scale: u32,
}

/// What `rust_decimal::Decimal::from_str` yields for a text, as mantissa and scale.
pub uninterp spec fn decimal_parse(s: Seq<char>) -> Option<(int, nat)>;

/// What `rust_decimal::Decimal::from_scientific` yields for a text, as mantissa and scale.
pub uninterp spec fn scientific_parse(s: Seq<char>) -> Option<(int, nat)>;

/// What `rust_decimal::Decimal::checked_add` yields for two numbers, as mantissa and scale.
pub uninterp spec fn decimal_sum(am: int, ascale: nat, bm: int, bscale: nat) -> Option<(int, nat)>;

/// Relies on `rust_decimal::Decimal::from_str`: a mantissa and scale within range, and plain
/// notation with at most 28 digits after the point and a mantissa in range read exactly.
#[verifier::external_body]
fn outside_from_str(s: &str) -> (r: Result<Decimal, rust_decimal::Error>)
    ensures
        r is Ok <==> decimal_parse(s@) is Some,
        r is Ok ==> (r->Ok_0.m(), r->Ok_0.s()) == decimal_parse(s@)->0,
        forall|m: int, sc: nat|
            fits_mantissa(m) && sc <= 28 && #[trigger] writes_plain(s@, m, sc) ==> r is Ok
                && r->Ok_0.m() == m && r->Ok_0.s() == sc,
{
    let d = <rust_decimal::Decimal as std::str::FromStr>::from_str(s)?;
    Ok(Decimal { mantissa: d.mantissa(), scale: d.scale() })
}

/// Relies on `rust_decimal::Decimal::from_scientific`: a mantissa and scale within range.
#[verifier::external_body]
fn outside_from_scientific(s: &str) -> (r: Result<Decimal, rust_decimal::Error>)
    ensures
        r is Ok <==> scientific_parse(s@) is Some,
        r is Ok ==> (r->Ok_0.m(), r->Ok_0.s()) == scientific_parse(s@)->0,
{
    let d = rust_decimal::Decimal::from_scientific(s)?;
    Ok(Decimal { mantissa: d.mantissa(), scale: d.scale() })
}

/// Relies on `rust_decimal::Decimal::checked_add`: `None` on overflow, and the exact sum
/// whenever that sum fits at the larger of the two scales.
#[verifier::external_body]
fn outside_add(a: Decimal, b: Decimal) -> (r: Option<Decimal>)
    requires
        a.valid(),
        b.valid(),
    ensures
        r is Some <==> decimal_sum(a.m(), a.s(), b.m(), b.s()) is Some,
        r is Some ==> (r->0.m(), r->0.s()) == decimal_sum(a.m(), a.s(), b.m(), b.s())->0,
        sum_fits(a, b) ==> r is Some && r->0.value() == a.value() + b.value(),
{
    let x = rust_decimal::Decimal::from_i128_with_scale(a.mantissa, a.scale);
    let y = rust_decimal::Decimal::from_i128_with_scale(b.mantissa, b.scale);
    x.checked_add(y).map(|d| Decimal { mantissa: d.mantissa(), scale: d.scale() })
}

/// Relies on `rust_decimal::Decimal`'s `Display`, through `to_string`, for plain notation.
#[verifier::external_body]
fn outside_text(d: Decimal) -> (r: String)
    requires
        d.valid(),
    ensures
        r@ == decimal_text(d.m(), d.s()),
{
    rust_decimal::Decimal::from_i128_with_scale(d.mantissa, d.scale).to_string()
}

/// Relies on `rust_decimal::Decimal`'s `PartialEq`, which compares numeric values.
#[verifier::external_body]
fn outside_eq(a: Decimal, b: Decimal) -> (r: bool)
    requires
        a.valid(),
        b.valid(),
    ensures
        r == (a.value() == b.value()),
{
    rust_decimal::Decimal::from_i128_with_scale(a.mantissa, a.scale)
        == rust_decimal::Decimal::from_i128_with_scale(b.mantissa, b.scale)
}

/// The exact sum of two decimals fits a mantissa at the larger of their scales.
pub open spec fn sum_fits(a: Decimal, b: Decimal) -> bool {
    fits_sum(a.m(), a.s(), b.m(), b.s())
}

/// The exact sum of `am / 10^ascale` and `bm / 10^bscale` fits a mantissa at the larger of
/// the two scales.
pub open spec fn fits_sum(am: int, ascale: nat, bm: int, bscale: nat) -> bool {
    let s = if ascale >= bscale { ascale } else { bscale };
    fits_mantissa(am * pow10((s - ascale) as nat) + bm * pow10((s - bscale) as nat))
}

impl Decimal {
    #[verifier::type_invariant]
    spec fn inv(&self) -> bool {
        fits_mantissa(self.mantissa as int) && self.scale <= MAX_SCALE
    }

    pub closed spec fn m(&self) -> int {
        self.mantissa as int
    }

    pub closed spec fn s(&self) -> nat {
        self.scale as nat
    }

    /// Mantissa and scale are in range.
    pub open spec fn valid(&self) -> bool {
        fits_mantissa(self.m()) && self.s() <= 28
    }

    /// The number, in units of `10^-28`.
    pub open spec fn value(&self) -> int {
        scaled_value(self.m(), self.s())
    }

    /// The decimal `mantissa / 10^scale`, where both are in range.
    pub fn try_new(mantissa: i128, scale: u32) -> (r: Option<Decimal>)
        ensures
            r is Some <==> fits_mantissa(mantissa as int) && scale <= 28,
            r is Some ==> r->0.m() == mantissa && r->0.s() == scale,
    {
        if -0x1_0000_0000_0000_0000_0000_0000 < mantissa && mantissa < 0x1_0000_0000_0000_0000_0000_0000
            && scale <= MAX_SCALE {
            Some(Decimal { mantissa, scale })
        } else {
            None
        }
    }

    /// The whole number `n`.
    pub fn from_u64(n: u64) -> (r: Decimal)
        ensures
            r.m() == n,
            r.s() == 0,
    {
        Decimal { mantissa: n as i128, scale: 0 }
    }

    pub fn mantissa(&self) -> (r: i128)
        ensures
            r == self.m(),
            self.valid(),
    {
        proof {
            use_type_invariant(self);
        }
        self.mantissa
    }

    pub fn scale(&self) -> (r: u32)
        ensures
            r == self.s(),
            self.valid(),
    {
        proof {
            use_type_invariant(self);
        }
        self.scale
    }

    /// The magnitude, at the same scale.
    pub fn abs(&self) -> (r: Decimal)
        ensures
            r.m() == abs_int(self.m()),
            r.s() == self.s(),
    {
        proof {
            use_type_invariant(self);
        }
        let m = if self.mantissa < 0 { -self.mantissa } else { self.mantissa };
        Decimal { mantissa: m, scale: self.scale }
    }

    /// The sum, as `rust_decimal` computes it; `None` on overflow.
    pub fn checked_add(&self, other: &Decimal) -> (r: Option<Decimal>)
        ensures
            r is Some <==> decimal_sum(self.m(), self.s(), other.m(), other.s()) is Some,
            r is Some ==> (r->0.m(), r->0.s()) == decimal_sum(self.m(), self.s(), other.m(), other.s())->0,
            sum_fits(*self, *other) ==> r is Some && r->0.value() == self.value() + other.value(),
    {
        proof {
            use_type_invariant(self);
            use_type_invariant(other);
        }
        outside_add(*self, *other)
    }

    /// Plain decimal notation, every digit of the scale kept.
    pub fn to_text(&self) -> (r: String)
        ensures
            r@ == decimal_text(self.m(), self.s()),
    {
        proof {
            use_type_invariant(self);
        }
        outside_text(*self)
    }
}

impl PartialEq for Decimal {
    fn eq(&self, other: &Decimal) -> (r: bool) {
        proof {
            use_type_invariant(self);
            use_type_invariant(other);
        }
        outside_eq(*self, *other)
    }
}

impl vstd::std_specs::cmp::PartialEqSpecImpl for Decimal {
    open spec fn obeys_eq_spec() -> bool {
        true
    }

    open spec fn eq_spec(&self, other: &Decimal) -> bool {
        self.value() == other.value()
    }
}

impl Eq for Decimal {

}

/// The amount a text reads as: plain decimal notation first, scientific notation where that
/// fails.
pub open spec fn parsed_amount(s: Seq<char>) -> Option<(int, nat)> {
    match decimal_parse(s) {
        Some(p) => Some(p),
        None => scientific_parse(s),
    }
}

/// Reads an amount: plain decimal notation first, scientific notation where that fails.
pub fn parse_decimal(s: &str) -> (r: Result<Decimal, rust_decimal::Error>)
    ensures
        r is Ok <==> parsed_amount(s@) is Some,
        r is Ok ==> (r->Ok_0.m(), r->Ok_0.s()) == parsed_amount(s@)->0,
        forall|m: int, sc: nat|
            fits_mantissa(m) && sc <= 28 && #[trigger] writes_plain(s@, m, sc) ==> r is Ok
                && r->Ok_0.m() == m && r->Ok_0.s() == sc,
{
    match outside_from_str(s) {
        Ok(d) => Ok(d),
        Err(_) => outside_from_scientific(s),
    }
}

/// An amount in a currency.
#[derive(Clone, Copy, Debug, PartialEq, Eq)]
pub struct Money {
    pub amount: Decimal,
    pub currency: Currency,
}

impl Money {
    pub fn new(amount: Decimal, currency: Currency) -> (r: Money)
        ensures
            r.amount == amount,
            r.currency == currency,
    {
        Money { amount, currency }
    }
}

#[verifier::external_type_specification]
#[verifier::external_body]
pub struct ExDecimalError(rust_decimal::Error);

} // verus!
