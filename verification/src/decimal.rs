//! Decimal numbers: a sign, a 96 bit mantissa and a decimal scale of at most 28 places.
//!
//! The arithmetic itself is that of the `rust_decimal` crate. This module holds a number as
//! plain integers, so that contracts can speak of its value, and hands the four arithmetic
//! operations to the crate.
use vstd::arithmetic::div_mod::lemma_div_denominator;
use vstd::arithmetic::power::lemma_pow0;
use vstd::arithmetic::power::lemma_pow1;
use vstd::arithmetic::power::lemma_pow_adds;
use vstd::arithmetic::power::lemma_pow_positive;
use vstd::arithmetic::power::pow;
use vstd::multiset::Multiset;
use vstd::prelude::*;
use vstd::std_specs::cmp::PartialEqSpecImpl;
use vstd::std_specs::convert::FromSpecImpl;
use vstd::std_specs::convert::IntoSpec;

verus! {

/// The mantissa of a decimal is below this bound (two to the power of 96).
pub const MANTISSA_BOUND: u128 = 0x1_0000_0000_0000_0000_0000_0000;

/// The largest number of decimal places that a decimal can have.
pub const MAX_SCALE: u32 = 28;

/// The value of a [`Decimal`]: `mantissa / 10^scale`, negated when `negative` is set.
pub struct DecimalView {
    pub negative: bool,
    pub mantissa: nat,
    pub scale: nat,
}

impl DecimalView {
    /// The ranges that every decimal keeps to.
    pub open spec fn valid(self) -> bool {
        self.mantissa < MANTISSA_BOUND && self.scale <= MAX_SCALE
    }

    /// An integer: no decimal places.
    pub open spec fn integer(n: int) -> DecimalView {
        DecimalView { negative: n < 0, mantissa: magnitude(n), scale: 0 }
    }

    pub open spec fn is_zero(self) -> bool {
        self.mantissa == 0
    }

    /// The mantissa with its sign.
    pub open spec fn signed(self) -> int {
        if self.negative {
            -(self.mantissa as int)
        } else {
            self.mantissa as int
        }
    }

    /// The number as a multiple of `10^-places`, for `places` of at least its own scale.
    pub open spec fn at_scale(self, places: nat) -> int {
        self.signed() * ten_to((places - self.scale) as nat)
    }

    /// The sign is flipped; the sign of zero too.
    pub open spec fn neg(self) -> DecimalView {
        DecimalView { negative: !self.negative, mantissa: self.mantissa, scale: self.scale }
    }

    /// The number without its sign.
    pub open spec fn abs(self) -> DecimalView {
        DecimalView { negative: false, mantissa: self.mantissa, scale: self.scale }
    }

    /// The integer part of the magnitude.
    pub open spec fn whole(self) -> int {
        self.mantissa as int / ten_to(self.scale)
    }

    /// The integer part, where it is not negative and fits in 64 bits.
    pub open spec fn to_u64(self) -> Option<u64> {
        if !self.negative && self.whole() <= u64::MAX {
            Some(self.whole() as u64)
        } else {
            None
        }
    }

    /// The integer part, where it is not negative and fits in 32 bits.
    pub open spec fn to_u32(self) -> Option<u32> {
        if !self.negative && self.whole() <= u32::MAX {
            Some(self.whole() as u32)
        } else {
            None
        }
    }

    /// The integer part, where it fits in a signed 64 bit integer.
    pub open spec fn to_i64(self) -> Option<i64> {
        let whole = if self.negative {
            -self.whole()
        } else {
            self.whole()
        };
        if i64::MIN <= whole <= i64::MAX {
            Some(whole as i64)
        } else {
            None
        }
    }
}

pub open spec fn magnitude(n: int) -> nat {
    if n < 0 {
        (-n) as nat
    } else {
        n as nat
    }
}

pub open spec fn ten_to(n: nat) -> int {
    pow(10, n)
}

pub open spec fn larger(a: nat, b: nat) -> nat {
    if a < b {
        b
    } else {
        a
    }
}

/// Both operands and the sum fit in the mantissa once they are written with the same number
/// of decimal places.
pub open spec fn sum_is_exact(a: DecimalView, b: DecimalView) -> bool {
    let places = larger(a.scale, b.scale);
    &&& magnitude(a.at_scale(places)) < MANTISSA_BOUND
    &&& magnitude(b.at_scale(places)) < MANTISSA_BOUND
    &&& magnitude(a.at_scale(places) + b.at_scale(places)) < MANTISSA_BOUND
}

pub open spec fn exact_sum(a: DecimalView, b: DecimalView) -> DecimalView {
    let places = larger(a.scale, b.scale);
    let total = a.at_scale(places) + b.at_scale(places);
    DecimalView { negative: total < 0, mantissa: magnitude(total), scale: places }
}

/// The exact sum is too large for any decimal.
pub open spec fn sum_overflows(a: DecimalView, b: DecimalView) -> bool {
    let places = larger(a.scale, b.scale);
    magnitude(a.at_scale(places) + b.at_scale(places)) >= MANTISSA_BOUND * ten_to(places)
}

/// Two operands, in no order.
pub open spec fn both(a: DecimalView, b: DecimalView) -> Multiset<DecimalView> {
    Multiset::singleton(a).insert(b)
}

/// What `rust_decimal` answers for a sum of two terms that has to be rounded.
pub uninterp spec fn rounded_sum(terms: Multiset<DecimalView>) -> Option<DecimalView>;

/// `a + b`: an operand that is zero leaves the other one as it is, a sum that fits is exact,
/// one that is too large for a decimal does not exist, and everything else is `rounded`.
pub open spec fn sum_or(
    a: DecimalView,
    b: DecimalView,
    rounded: Option<DecimalView>,
) -> Option<DecimalView> {
    if a.is_zero() {
        Some(b)
    } else if b.is_zero() {
        Some(a)
    } else if sum_is_exact(a, b) {
        Some(exact_sum(a, b))
    } else if sum_overflows(a, b) {
        None
    } else {
        rounded
    }
}

pub open spec fn decimal_sum(a: DecimalView, b: DecimalView) -> Option<DecimalView> {
    sum_or(a, b, rounded_sum(both(a, b)))
}

/// `a - b`, which is `a + (-b)`, rounded as that sum is; of two zeros it is the second one.
pub open spec fn difference_or(
    a: DecimalView,
    b: DecimalView,
    rounded: Option<DecimalView>,
) -> Option<DecimalView> {
    if a.is_zero() && b.is_zero() {
        Some(b)
    } else {
        sum_or(a, b.neg(), rounded)
    }
}

pub open spec fn decimal_difference(a: DecimalView, b: DecimalView) -> Option<DecimalView> {
    difference_or(a, b, rounded_sum(both(a, b.neg())))
}

/// What `rust_decimal` answers for a product of two positive factors that has to be rounded.
pub uninterp spec fn rounded_product(factors: Multiset<DecimalView>) -> Option<DecimalView>;

/// The sign of a product that was rounded. One that was rounded to zero loses the sign where
/// both mantissas fit in 32 bits.
pub open spec fn with_sign_of_product(
    a: DecimalView,
    b: DecimalView,
    rounded: DecimalView,
) -> DecimalView {
    let negative = a.negative != b.negative && (!rounded.is_zero() || larger(
        a.mantissa,
        b.mantissa,
    ) >= 0x1_0000_0000);
    DecimalView { negative, mantissa: rounded.mantissa, scale: rounded.scale }
}

/// `a * b`: zero times anything is the plain zero, a product that fits is exact, one that is
/// too large for a decimal does not exist, and everything else is `rounded`, with its sign.
pub open spec fn product_or(
    a: DecimalView,
    b: DecimalView,
    rounded: Option<DecimalView>,
) -> Option<DecimalView> {
    if a.is_zero() || b.is_zero() {
        Some(DecimalView::integer(0))
    } else if a.mantissa * b.mantissa < MANTISSA_BOUND && a.scale + b.scale <= MAX_SCALE {
        Some(
            DecimalView {
                negative: a.negative != b.negative,
                mantissa: a.mantissa * b.mantissa,
                scale: a.scale + b.scale,
            },
        )
    } else if a.mantissa * b.mantissa >= MANTISSA_BOUND * ten_to(a.scale + b.scale) {
        None
    } else {
        match rounded {
            Some(rounded) => Some(with_sign_of_product(a, b, rounded)),
            None => None,
        }
    }
}

pub open spec fn decimal_product(a: DecimalView, b: DecimalView) -> Option<DecimalView> {
    product_or(a, b, rounded_product(both(a.abs(), b.abs())))
}

/// `q * b == a`.
pub open spec fn is_quotient(a: DecimalView, b: DecimalView, q: DecimalView) -> bool {
    q.signed() * b.signed() * ten_to(a.scale) == a.signed() * ten_to(q.scale + b.scale)
}

/// The decimal `q` is `a / b` without rounding.
pub open spec fn is_exact_quotient(a: DecimalView, b: DecimalView, q: DecimalView) -> bool {
    q.valid() && !b.is_zero() && is_quotient(a, b, q)
}

/// The mantissas do not divide evenly, but they do after two more decimal places.
pub open spec fn divides_within_two_places(a: DecimalView, b: DecimalView) -> bool {
    &&& 0 < b.mantissa < 0x1_0000_0000
    &&& b.scale <= a.scale <= b.scale + 6
    &&& a.mantissa % b.mantissa != 0
    &&& a.mantissa * 100 % b.mantissa == 0
    &&& a.mantissa * 1_000_000_000 / b.mantissa < MANTISSA_BOUND
}

/// The quotient with two more decimal places; with one where that is enough and the quotient
/// with nine places has only zeros in its lower 32 bits.
pub open spec fn quotient_within_two_places(a: DecimalView, b: DecimalView) -> DecimalView {
    let negative = a.negative != b.negative;
    let places = (a.scale - b.scale) as nat;
    if a.mantissa * 10 % b.mantissa == 0 && a.mantissa * 1_000_000_000 / b.mantissa
        % 0x1_0000_0000 == 0 {
        DecimalView { negative, mantissa: a.mantissa * 10 / b.mantissa, scale: places + 1 }
    } else {
        DecimalView { negative, mantissa: a.mantissa * 100 / b.mantissa, scale: places + 2 }
    }
}

/// What `rust_decimal` answers for a quotient whose mantissas do not divide evenly.
pub uninterp spec fn rounded_quotient(a: DecimalView, b: DecimalView) -> Option<DecimalView>;

/// `a / b`: nothing can be divided by zero, and zero divided by anything else is the plain
/// zero. Where the mantissas divide evenly the quotient is exact, with no decimal places when
/// the divisor has more of them than the dividend; where two more places are enough it has
/// those. A quotient that is a decimal at all is that number, at the scale of `rounded`.
/// Everything else is `rounded`.
pub open spec fn quotient_or(
    a: DecimalView,
    b: DecimalView,
    rounded: Option<DecimalView>,
) -> Option<DecimalView> {
    if b.is_zero() {
        None
    } else if a.is_zero() {
        Some(DecimalView::integer(0))
    } else if a.mantissa % b.mantissa == 0 {
        let quotient = a.mantissa / b.mantissa;
        let negative = a.negative != b.negative;
        if a.scale >= b.scale {
            Some(
                DecimalView {
                    negative,
                    mantissa: quotient,
                    scale: (a.scale - b.scale) as nat,
                },
            )
        } else {
            let scaled = quotient * ten_to((b.scale - a.scale) as nat);
            if scaled < MANTISSA_BOUND {
                Some(DecimalView { negative, mantissa: scaled as nat, scale: 0 })
            } else {
                None
            }
        }
    } else if divides_within_two_places(a, b) {
        Some(quotient_within_two_places(a, b))
    } else if exists|q: DecimalView| is_exact_quotient(a, b, q) {
        if rounded is Some && is_exact_quotient(a, b, rounded->Some_0) {
            rounded
        } else {
            Some(choose|q: DecimalView| is_exact_quotient(a, b, q))
        }
    } else {
        rounded
    }
}

pub open spec fn decimal_quotient(a: DecimalView, b: DecimalView) -> Option<DecimalView> {
    quotient_or(a, b, rounded_quotient(a, b))
}

/// The same number, written at the larger of the two scales.
pub open spec fn same_number(a: DecimalView, b: DecimalView) -> bool {
    a.at_scale(larger(a.scale, b.scale)) == b.at_scale(larger(a.scale, b.scale))
}

/// Where a decimal is `a / b` without rounding, the answer is that number.
pub open spec fn divides_exactly(
    a: DecimalView,
    b: DecimalView,
    answer: Option<DecimalView>,
) -> bool {
    forall|q: DecimalView| #[trigger]
        is_exact_quotient(a, b, q) ==> (answer matches Some(n) && same_number(n, q))
}

/// The quotient of the two numbers is not rounded where it is a decimal.
pub open spec fn not_rounded(division: Option<(DecimalView, DecimalView)>) -> bool {
    division matches Some((a, b)) ==> divides_exactly(a, b, decimal_quotient(a, b))
}

/// A decimal number.
#[derive(Clone, Copy, Debug)]
pub struct Decimal {
    negative: bool,
    mantissa: u128,
    scale: u32,
}

impl View for Decimal {
    type V = DecimalView;

    closed spec fn view(&self) -> DecimalView {
        DecimalView {
            negative: self.negative,
            mantissa: self.mantissa as nat,
            scale: self.scale as nat,
        }
    }
}

/// The view of an optional decimal.
pub open spec fn view_of(d: Option<Decimal>) -> Option<DecimalView> {
    match d {
        Some(d) => Some(d@),
        None => None,
    }
}

impl Decimal {
    #[verifier::type_invariant]
    closed spec fn in_range(self) -> bool {
        self.mantissa < MANTISSA_BOUND && self.scale <= MAX_SCALE
    }

    /// Every decimal keeps to the ranges of its parts.
    pub fn parts(&self) -> (parts: (bool, u128, u32))
        ensures
            self@.valid(),
            parts.0 == self@.negative,
            parts.1 == self@.mantissa,
            parts.2 == self@.scale,
    {
        proof {
            use_type_invariant(self);
        }
        (self.negative, self.mantissa, self.scale)
    }

    /// A decimal of the given parts, where they are in range.
    pub fn from_parts(negative: bool, mantissa: u128, scale: u32) -> (r: Option<Decimal>)
        ensures
            r is Some <==> mantissa < MANTISSA_BOUND && scale <= MAX_SCALE,
            r matches Some(d) ==> d@ == (DecimalView {
                negative,
                mantissa: mantissa as nat,
                scale: scale as nat,
            }),
    {
        if mantissa < MANTISSA_BOUND && scale <= MAX_SCALE {
            Some(Decimal { negative, mantissa, scale })
        } else {
            None
        }
    }

    pub fn zero() -> (r: Decimal)
        ensures
            r@ == DecimalView::integer(0),
    {
        Decimal { negative: false, mantissa: 0, scale: 0 }
    }

    pub fn one() -> (r: Decimal)
        ensures
            r@ == DecimalView::integer(1),
    {
        Decimal { negative: false, mantissa: 1, scale: 0 }
    }

    pub fn is_zero(&self) -> (r: bool)
        ensures
            r == self@.is_zero(),
    {
        self.mantissa == 0
    }

    pub fn neg(&self) -> (r: Decimal)
        ensures
            r@ == self@.neg(),
    {
        proof {
            use_type_invariant(self);
        }
        Decimal { negative: !self.negative, mantissa: self.mantissa, scale: self.scale }
    }

    /// `rust_decimal`'s `Decimal::checked_add`. Claimed: an operand that is zero leaves the
    /// other one as it is; operands that fit in 96 bits at the larger of the two scales, and
    /// whose sum does too, are added exactly at that scale, zero being positive; a sum of at
    /// least 2^96 gives `None`; any other answer depends on the two operands alone, and not on
    /// their order.
    #[verifier::external_body]
    pub(crate) fn checked_add(&self, other: &Decimal) -> (r: Option<Decimal>)
        ensures
            view_of(r) == sum_or(self@, other@, rounded_sum(both(self@, other@))),
    {
        let mut a = rust_decimal::Decimal::from_i128_with_scale(self.mantissa as i128, self.scale);
        a.set_sign_negative(self.negative);
        let m = other.mantissa as i128;
        let mut b = rust_decimal::Decimal::from_i128_with_scale(m, other.scale);
        b.set_sign_negative(other.negative);
        match a.checked_add(b) {
            Some(r) => Some(Decimal {
                negative: r.is_sign_negative(),
                mantissa: r.mantissa().unsigned_abs(),
                scale: r.scale(),
            }),
            None => None,
        }
    }

    /// `rust_decimal`'s `Decimal::checked_sub`. Claimed: zero taken from zero is the second
    /// zero; otherwise the answer is that of `checked_add` for the first operand and the second
    /// one with its sign flipped.
    #[verifier::external_body]
    pub(crate) fn checked_sub(&self, other: &Decimal) -> (r: Option<Decimal>)
        ensures
            view_of(r) == difference_or(self@, other@, rounded_sum(both(self@, other@.neg()))),
    {
        let mut a = rust_decimal::Decimal::from_i128_with_scale(self.mantissa as i128, self.scale);
        a.set_sign_negative(self.negative);
        let m = other.mantissa as i128;
        let mut b = rust_decimal::Decimal::from_i128_with_scale(m, other.scale);
        b.set_sign_negative(other.negative);
        match a.checked_sub(b) {
            Some(r) => Some(Decimal {
                negative: r.is_sign_negative(),
                mantissa: r.mantissa().unsigned_abs(),
                scale: r.scale(),
            }),
            None => None,
        }
    }

    /// `rust_decimal`'s `Decimal::checked_mul`. Claimed: a factor of zero gives the positive zero
    /// without decimal places; a product of mantissas that fits in 96 bits is exact where the
    /// scales add up to at most 28; a product of at least 2^96 gives `None`; any other answer
    /// has a mantissa and a scale that depend on those of the two operands alone, and not on
    /// their order, and is negative where exactly one operand is, except that a product of
    /// two 32 bit mantissas that is rounded to zero is positive.
    #[verifier::external_body]
    pub(crate) fn checked_mul(&self, other: &Decimal) -> (r: Option<Decimal>)
        ensures
            view_of(r) == product_or(
                self@,
                other@,
                rounded_product(both(self@.abs(), other@.abs())),
            ),
    {
        let mut a = rust_decimal::Decimal::from_i128_with_scale(self.mantissa as i128, self.scale);
        a.set_sign_negative(self.negative);
        let m = other.mantissa as i128;
        let mut b = rust_decimal::Decimal::from_i128_with_scale(m, other.scale);
        b.set_sign_negative(other.negative);
        match a.checked_mul(b) {
            Some(r) => Some(Decimal {
                negative: r.is_sign_negative(),
                mantissa: r.mantissa().unsigned_abs(),
                scale: r.scale(),
            }),
            None => None,
        }
    }

    /// `rust_decimal`'s `Decimal::checked_div`. Claimed: a divisor of zero gives `None`; zero
    /// divided by anything else is the positive zero without decimal places; where the
    /// mantissas divide evenly the quotient is exact, its scale the difference of the two, or
    /// without decimal places (`None` where that does not fit in 96 bits) when that difference
    /// is negative. Where a 32 bit divisor divides the dividend evenly after two more decimal
    /// places, the quotient has those two: it is worked out to nine places, and seven zeros are
    /// taken off again (eight, where the lower 32 bits are all zero). Where a decimal is the
    /// quotient without rounding, the answer is that number, at some scale. Any other answer
    /// depends on the two operands alone.
    #[verifier::external_body]
    pub(crate) fn checked_div(&self, other: &Decimal) -> (r: Option<Decimal>)
        ensures
            view_of(r) == quotient_or(self@, other@, rounded_quotient(self@, other@)),
    {
        let mut a = rust_decimal::Decimal::from_i128_with_scale(self.mantissa as i128, self.scale);
        a.set_sign_negative(self.negative);
        let m = other.mantissa as i128;
        let mut b = rust_decimal::Decimal::from_i128_with_scale(m, other.scale);
        b.set_sign_negative(other.negative);
        match a.checked_div(b) {
            Some(r) => Some(Decimal {
                negative: r.is_sign_negative(),
                mantissa: r.mantissa().unsigned_abs(),
                scale: r.scale(),
            }),
            None => None,
        }
    }

    /// `rust_decimal`'s `==`. Claimed: it compares the numbers, whatever their scales; the two
    /// zeros are equal.
    #[verifier::external_body]
    pub(crate) fn same_number(&self, other: &Decimal) -> (r: bool)
        ensures
            r == same_number(self@, other@),
    {
        let mut a = rust_decimal::Decimal::from_i128_with_scale(self.mantissa as i128, self.scale);
        a.set_sign_negative(self.negative);
        let m = other.mantissa as i128;
        let mut b = rust_decimal::Decimal::from_i128_with_scale(m, other.scale);
        b.set_sign_negative(other.negative);
        a == b
    }

    /// The integer part of the magnitude.
    fn whole(&self) -> (r: u128)
        ensures
            r == self@.whole(),
            r < MANTISSA_BOUND,
    {
        proof {
            use_type_invariant(self);
            lemma_pow0(10);
        }
        let mut rest: u128 = self.mantissa;
        let mut places: u32 = 0;
        while places < self.scale
            invariant
                places <= self.scale,
                rest == self.mantissa as int / ten_to(places as nat),
                rest <= self.mantissa,
            decreases self.scale - places,
        {
            proof {
                lemma_pow_positive(10, places as nat);
                lemma_pow1(10);
                lemma_pow_adds(10, places as nat, 1);
                lemma_div_denominator(self.mantissa as int, ten_to(places as nat), 10);
            }
            rest = rest / 10;
            places = places + 1;
        }
        rest
    }

    pub fn to_u64(&self) -> (r: Option<u64>)
        ensures
            r == self@.to_u64(),
    {
        let whole: u128 = self.whole();
        if !self.negative && whole <= u64::MAX as u128 {
            Some(whole as u64)
        } else {
            None
        }
    }

    pub fn to_u32(&self) -> (r: Option<u32>)
        ensures
            r == self@.to_u32(),
    {
        let whole: u128 = self.whole();
        if !self.negative && whole <= u32::MAX as u128 {
            Some(whole as u32)
        } else {
            None
        }
    }

    pub fn to_i64(&self) -> (r: Option<i64>)
        ensures
            r == self@.to_i64(),
    {
        let whole: u128 = self.whole();
        if self.negative {
            if whole == 0x8000_0000_0000_0000 {
                Some(i64::MIN)
            } else if whole <= i64::MAX as u128 {
                Some(-(whole as i64))
            } else {
                None
            }
        } else if whole <= i64::MAX as u128 {
            Some(whole as i64)
        } else {
            None
        }
    }
}

impl PartialEq for Decimal {
    fn eq(&self, other: &Decimal) -> (r: bool) {
        self.same_number(other)
    }
}

impl PartialEqSpecImpl for Decimal {
    open spec fn obeys_eq_spec() -> bool {
        true
    }

    open spec fn eq_spec(&self, other: &Decimal) -> bool {
        same_number(self@, other@)
    }
}

impl Eq for Decimal {

}

/// The decimal of an integer.
pub closed spec fn decimal_of(n: int) -> Decimal {
    Decimal { negative: n < 0, mantissa: magnitude(n) as u128, scale: 0 }
}

/// What [`decimal_of`] holds.
pub broadcast proof fn lemma_decimal_of(n: int)
    requires
        magnitude(n) < MANTISSA_BOUND,
    ensures
        (#[trigger] decimal_of(n))@ == DecimalView::integer(n),
{
}

fn integer_decimal(n: i128) -> (r: Decimal)
    requires
        magnitude(n as int) < MANTISSA_BOUND,
    ensures
        r == decimal_of(n as int),
{
    if n < 0 {
        Decimal { negative: true, mantissa: (-n) as u128, scale: 0 }
    } else {
        Decimal { negative: false, mantissa: n as u128, scale: 0 }
    }
}

impl From<u8> for Decimal {
    fn from(n: u8) -> (r: Decimal) {
        Decimal { negative: false, mantissa: n as u128, scale: 0 }
    }
}

impl FromSpecImpl<u8> for Decimal {
    open spec fn obeys_from_spec() -> bool {
        true
    }

    open spec fn from_spec(n: u8) -> Decimal {
        decimal_of(n as int)
    }
}

impl From<u16> for Decimal {
    fn from(n: u16) -> (r: Decimal) {
        Decimal { negative: false, mantissa: n as u128, scale: 0 }
    }
}

impl FromSpecImpl<u16> for Decimal {
    open spec fn obeys_from_spec() -> bool {
        true
    }

    open spec fn from_spec(n: u16) -> Decimal {
        decimal_of(n as int)
    }
}

impl From<u32> for Decimal {
    fn from(n: u32) -> (r: Decimal) {
        Decimal { negative: false, mantissa: n as u128, scale: 0 }
    }
}

impl FromSpecImpl<u32> for Decimal {
    open spec fn obeys_from_spec() -> bool {
        true
    }

    open spec fn from_spec(n: u32) -> Decimal {
        decimal_of(n as int)
    }
}

impl From<u64> for Decimal {
    fn from(n: u64) -> (r: Decimal) {
        Decimal { negative: false, mantissa: n as u128, scale: 0 }
    }
}

impl FromSpecImpl<u64> for Decimal {
    open spec fn obeys_from_spec() -> bool {
        true
    }

    open spec fn from_spec(n: u64) -> Decimal {
        decimal_of(n as int)
    }
}

impl From<usize> for Decimal {
    fn from(n: usize) -> (r: Decimal) {
        Decimal { negative: false, mantissa: n as u128, scale: 0 }
    }
}

impl FromSpecImpl<usize> for Decimal {
    open spec fn obeys_from_spec() -> bool {
        true
    }

    open spec fn from_spec(n: usize) -> Decimal {
        decimal_of(n as int)
    }
}

impl From<i8> for Decimal {
    fn from(n: i8) -> (r: Decimal) {
        integer_decimal(n as i128)
    }
}

impl FromSpecImpl<i8> for Decimal {
    open spec fn obeys_from_spec() -> bool {
        true
    }

    open spec fn from_spec(n: i8) -> Decimal {
        decimal_of(n as int)
    }
}

impl From<i16> for Decimal {
    fn from(n: i16) -> (r: Decimal) {
        integer_decimal(n as i128)
    }
}

impl FromSpecImpl<i16> for Decimal {
    open spec fn obeys_from_spec() -> bool {
        true
    }

    open spec fn from_spec(n: i16) -> Decimal {
        decimal_of(n as int)
    }
}

impl From<i32> for Decimal {
    fn from(n: i32) -> (r: Decimal) {
        integer_decimal(n as i128)
    }
}

impl FromSpecImpl<i32> for Decimal {
    open spec fn obeys_from_spec() -> bool {
        true
    }

    open spec fn from_spec(n: i32) -> Decimal {
        decimal_of(n as int)
    }
}

impl From<i64> for Decimal {
    fn from(n: i64) -> (r: Decimal) {
        integer_decimal(n as i128)
    }
}

impl FromSpecImpl<i64> for Decimal {
    open spec fn obeys_from_spec() -> bool {
        true
    }

    open spec fn from_spec(n: i64) -> Decimal {
        decimal_of(n as int)
    }
}

impl From<isize> for Decimal {
    fn from(n: isize) -> (r: Decimal) {
        integer_decimal(n as i128)
    }
}

impl FromSpecImpl<isize> for Decimal {
    open spec fn obeys_from_spec() -> bool {
        true
    }

    open spec fn from_spec(n: isize) -> Decimal {
        decimal_of(n as int)
    }
}

/// The decimal that a number converts to.
pub fn dec<T: Into<Decimal>>(num: T) -> (r: Decimal)
    ensures
        <T as IntoSpec<Decimal>>::obeys_into_spec() ==> r == <T as IntoSpec<Decimal>>::into_spec(
            num,
        ),
{
    num.into()
}

} // verus!
