//! Decimals as the numbers that they stand for, and what arithmetic makes of those numbers
//! where nothing is rounded.
use crate::decimal::decimal_difference;
use crate::decimal::decimal_product;
use crate::decimal::decimal_quotient;
use crate::decimal::decimal_sum;
use crate::decimal::exact_sum;
use crate::decimal::is_exact_quotient;
use crate::decimal::larger;
use crate::decimal::same_number;
use crate::decimal::sum_is_exact;
use crate::decimal::ten_to;
use crate::decimal::DecimalView;
use crate::decimal::MANTISSA_BOUND;
use crate::decimal::MAX_SCALE;
use crate::decimal_laws::law_difference_is_sum_with_negated;
use crate::decimal_laws::law_exact_quotients;
use crate::decimal_laws::lemma_powers_of_ten_multiply;
use vstd::arithmetic::power::lemma_pow0;
use vstd::arithmetic::power::lemma_pow_positive;
use vstd::prelude::*;

verus! {

/// The number that a decimal stands for.
pub open spec fn number(d: DecimalView) -> real {
    d.signed() as real / ten_to(d.scale) as real
}

/// A sum that is not rounded.
pub open spec fn adds_exactly(a: DecimalView, b: DecimalView) -> bool {
    a.is_zero() || b.is_zero() || sum_is_exact(a, b)
}

/// A difference that is not rounded.
pub open spec fn subtracts_exactly(a: DecimalView, b: DecimalView) -> bool {
    adds_exactly(a, b.neg())
}

/// A product that is not rounded.
pub open spec fn multiplies_exactly(a: DecimalView, b: DecimalView) -> bool {
    a.is_zero() || b.is_zero() || a.mantissa * b.mantissa < MANTISSA_BOUND && a.scale + b.scale
        <= MAX_SCALE
}

/// The decimal `q` times `b` is `a`.
pub open spec fn is_ratio(a: DecimalView, b: DecimalView, q: DecimalView) -> bool {
    q.valid() && !b.is_zero() && number(q) * number(b) == number(a)
}

/// A quotient that is not rounded: some decimal times `b` is `a`.
pub open spec fn divides_evenly(a: DecimalView, b: DecimalView) -> bool {
    exists|q: DecimalView| #[trigger] is_ratio(a, b, q)
}

pub proof fn lemma_ten_to(n: nat)
    ensures
        ten_to(n) as real > 0 as real,
{
    lemma_pow_positive(10, n);
}

/// A decimal that is written with more decimal places stands for the same number.
pub proof fn law_number_at_scale(d: DecimalView, places: nat)
    requires
        d.scale <= places,
    ensures
        number(d) == d.at_scale(places) as real / ten_to(places) as real,
        number(d) * ten_to(places) as real == d.at_scale(places) as real,
{
    let k = (places - d.scale) as nat;
    lemma_powers_of_ten_multiply(d.scale, k);
    let (s, t, u) = (d.signed(), ten_to(d.scale), ten_to(k));
    assert(s as real / t as real == (s * u) as real / (t * u) as real && (s as real / t as real) * (
    t * u) as real == (s * u) as real) by (nonlinear_arith)
        requires
            t > 0,
            u > 0,
    ;
}

/// An integer stands for itself.
pub proof fn law_number_of_integer(n: int)
    ensures
        number(DecimalView::integer(n)) == n as real,
{
    lemma_pow0(10);
    assert(n as real / 1 as real == n as real) by (nonlinear_arith);
}

/// Flipping the sign, be it that of a zero, negates the number and keeps its decimal places.
pub proof fn law_number_of_negated(d: DecimalView)
    ensures
        number(d.neg()) == -number(d),
        d.neg().scale == d.scale,
        d.neg().negative != d.negative,
{
    lemma_ten_to(d.scale);
    let (s, t) = (d.signed(), ten_to(d.scale));
    assert((-s) as real / t as real == -(s as real / t as real)) by (nonlinear_arith)
        requires
            t as real > 0 as real,
    ;
}

/// A decimal is zero when it stands for the number zero.
pub proof fn law_number_of_zero(d: DecimalView)
    ensures
        d.is_zero() <==> number(d) == 0 as real,
{
    lemma_ten_to(d.scale);
    let (s, t) = (d.signed(), ten_to(d.scale));
    assert(s == 0 <==> s as real / t as real == 0 as real) by (nonlinear_arith)
        requires
            t as real > 0 as real,
    ;
}

/// Decimals are the same number when they stand for the same number.
pub proof fn law_same_number(a: DecimalView, b: DecimalView)
    ensures
        same_number(a, b) <==> number(a) == number(b),
{
    let places = larger(a.scale, b.scale);
    law_number_at_scale(a, places);
    law_number_at_scale(b, places);
}

/// A sum that is not rounded stands for the sum of the numbers.
pub proof fn law_sum_is_exact(a: DecimalView, b: DecimalView)
    requires
        adds_exactly(a, b),
    ensures
        decimal_sum(a, b) matches Some(c) && number(c) == number(a) + number(b),
{
    law_number_of_zero(a);
    law_number_of_zero(b);
    if !a.is_zero() && !b.is_zero() {
        let places = larger(a.scale, b.scale);
        let c = exact_sum(a, b);
        law_number_at_scale(a, places);
        law_number_at_scale(b, places);
        lemma_ten_to(places);
        let (x, y, t) = (a.at_scale(places), b.at_scale(places), ten_to(places) as real);
        assert(c.signed() == x + y);
        assert((x + y) as real / t == x as real / t + y as real / t) by (nonlinear_arith)
            requires
                t > 0 as real,
        ;
    }
}

/// A difference that is not rounded stands for the difference of the numbers.
pub proof fn law_difference_is_exact(a: DecimalView, b: DecimalView)
    requires
        subtracts_exactly(a, b),
    ensures
        decimal_difference(a, b) matches Some(c) && number(c) == number(a) - number(b),
{
    law_number_of_negated(b);
    law_number_of_zero(a);
    law_number_of_zero(b);
    law_difference_is_sum_with_negated(a, b);
    law_sum_is_exact(a, b.neg());
}

/// A product that is not rounded stands for the product of the numbers.
pub proof fn law_product_is_exact(a: DecimalView, b: DecimalView)
    requires
        multiplies_exactly(a, b),
    ensures
        decimal_product(a, b) matches Some(c) && number(c) == number(a) * number(b),
{
    law_number_of_zero(a);
    law_number_of_zero(b);
    let (x, y) = (number(a), number(b));
    if a.is_zero() || b.is_zero() {
        law_number_of_zero(DecimalView::integer(0));
        assert(x * y == 0 as real) by (nonlinear_arith)
            requires
                x == 0 as real || y == 0 as real,
        ;
    } else {
        let c = decimal_product(a, b)->Some_0;
        lemma_powers_of_ten_multiply(a.scale, b.scale);
        let (s, t) = (ten_to(a.scale), ten_to(b.scale));
        let (m, n) = (a.signed(), b.signed());
        let (p, q) = (a.mantissa as int, b.mantissa as int);
        assert((-p) * (-q) == p * q && (-p) * q == -(p * q) && p * (-q) == -(p * q))
            by (nonlinear_arith);
        assert(c.signed() == m * n);
        assert((m * n) as real / (s * t) as real == (m as real / s as real) * (n as real / t as real))
            by (nonlinear_arith)
            requires
                s > 0,
                t > 0,
        ;
    }
}

proof fn lemma_ratio(a: DecimalView, b: DecimalView, q: DecimalView)
    requires
        is_ratio(a, b, q),
    ensures
        is_exact_quotient(a, b, q),
{
    lemma_powers_of_ten_multiply(q.scale, b.scale);
    lemma_ten_to(a.scale);
    let (x, y, z) = (q.signed(), b.signed(), a.signed());
    let (s, t, u) = (ten_to(q.scale), ten_to(b.scale), ten_to(a.scale));
    assert((x * y * u) as real == (z * (s * t)) as real) by (nonlinear_arith)
        requires
            (x as real / s as real) * (y as real / t as real) == z as real / u as real,
            s > 0,
            t > 0,
            u > 0,
    ;
}

/// A quotient that is not rounded stands for the quotient of the numbers: times the divisor,
/// it is the dividend.
pub proof fn law_quotient_is_exact(a: DecimalView, b: DecimalView)
    requires
        divides_evenly(a, b),
    ensures
        decimal_quotient(a, b) matches Some(c) && number(c) * number(b) == number(a),
        number(b) != 0 as real,
{
    let q = choose|q: DecimalView| #[trigger] is_ratio(a, b, q);
    lemma_ratio(a, b, q);
    law_exact_quotients(a, b);
    law_same_number(decimal_quotient(a, b)->Some_0, q);
    law_number_of_zero(b);
}

} // verus!
