//! Laws of decimal arithmetic.
use crate::decimal::both;
use crate::decimal::decimal_difference;
use crate::decimal::decimal_product;
use crate::decimal::decimal_quotient;
use crate::decimal::decimal_sum;
use crate::decimal::divides_exactly;
use crate::decimal::divides_within_two_places;
use crate::decimal::is_exact_quotient;
use crate::decimal::is_quotient;
use crate::decimal::larger;
use crate::decimal::magnitude;
use crate::decimal::not_rounded;
use crate::decimal::quotient_within_two_places;
use crate::decimal::same_number;
use crate::decimal::sum_is_exact;
use crate::decimal::ten_to;
use crate::decimal::DecimalView;
use crate::decimal::MANTISSA_BOUND;
use crate::decimal::MAX_SCALE;
use vstd::arithmetic::div_mod::lemma_div_multiples_vanish;
use vstd::arithmetic::div_mod::lemma_fundamental_div_mod;
use vstd::arithmetic::div_mod::lemma_mod_multiples_basic;
use vstd::arithmetic::mul::lemma_mul_equality_converse;
use vstd::arithmetic::mul::lemma_mul_unary_negation;
use vstd::arithmetic::power::lemma_pow0;
use vstd::arithmetic::power::lemma_pow1;
use vstd::arithmetic::power::lemma_pow_adds;
use vstd::arithmetic::power::lemma_pow_positive;
use vstd::prelude::*;

verus! {

/// Flipping the sign twice changes nothing.
pub proof fn law_negation_undoes_itself(a: DecimalView)
    ensures
        a.neg().neg() == a,
{
}

proof fn lemma_at_own_scale(a: DecimalView)
    ensures
        a.at_scale(a.scale) == a.signed(),
{
    lemma_pow0(10);
}

/// Flipping the sign flips the sign of the multiple.
pub proof fn lemma_neg_at_scale(a: DecimalView, places: nat)
    ensures
        a.neg().at_scale(places) == -a.at_scale(places),
{
    lemma_mul_unary_negation(a.signed(), ten_to((places - a.scale) as nat));
}

proof fn lemma_zero_at_scale(a: DecimalView, places: nat)
    requires
        a.is_zero(),
    ensures
        a.at_scale(places) == 0,
{
    assert(a.signed() == 0);
    assert(0 * ten_to((places - a.scale) as nat) == 0);
}

/// Taking away a number that was added exactly gives back the same number.
pub proof fn law_subtraction_undoes_addition(a: DecimalView, b: DecimalView)
    requires
        a.valid(),
        b.valid(),
        sum_is_exact(a, b),
    ensures
        decimal_sum(a, b) matches Some(total) && decimal_difference(total, b) matches Some(rest)
            && same_number(rest, a),
{
    let places = larger(a.scale, b.scale);
    let total = decimal_sum(a, b)->Some_0;
    let rest = decimal_difference(total, b)->Some_0;
    let common = larger(rest.scale, a.scale);
    lemma_at_own_scale(a);
    lemma_at_own_scale(b);
    lemma_at_own_scale(total);
    lemma_neg_at_scale(b, places);
    lemma_neg_at_scale(b, b.scale);
    lemma_at_own_scale(rest);
    if a.is_zero() {
        lemma_zero_at_scale(a, common);
        lemma_zero_at_scale(rest, common);
    } else if b.is_zero() {
    } else if total.is_zero() {
        lemma_neg_at_scale(b, common);
    } else {
        assert(total.at_scale(places) == a.at_scale(places) + b.at_scale(places));
    }
}

/// Dividing by a factor of an exact product gives back the other factor.
pub proof fn law_division_undoes_multiplication(a: DecimalView, b: DecimalView)
    requires
        !a.is_zero(),
        !b.is_zero(),
        a.mantissa * b.mantissa < MANTISSA_BOUND,
        a.scale + b.scale <= MAX_SCALE,
    ensures
        decimal_product(a, b) matches Some(c) && decimal_quotient(c, b) == Some(a),
{
    let c = decimal_product(a, b)->Some_0;
    let (x, y) = (a.mantissa as int, b.mantissa as int);
    lemma_mod_multiples_basic(x, y);
    lemma_div_multiples_vanish(x, y);
    assert(x * y == y * x && x * y > 0) by (nonlinear_arith)
        requires
            x > 0,
            y > 0,
    ;
}

/// A number divided by itself is one.
pub proof fn law_number_divided_by_itself(a: DecimalView)
    requires
        !a.is_zero(),
    ensures
        decimal_quotient(a, a) == Some(DecimalView::integer(1)),
{
    let x = a.mantissa as int;
    lemma_mod_multiples_basic(1, x);
    lemma_div_multiples_vanish(1, x);
}

/// Zero is neutral for addition and subtraction, one for multiplication and division.
pub proof fn law_neutral_elements(a: DecimalView)
    requires
        a.valid(),
        !a.is_zero(),
    ensures
        decimal_sum(a, DecimalView::integer(0)) == Some(a),
        decimal_sum(DecimalView::integer(0), a) == Some(a),
        decimal_difference(a, DecimalView::integer(0)) == Some(a),
        decimal_product(a, DecimalView::integer(1)) == Some(a),
        decimal_product(DecimalView::integer(1), a) == Some(a),
        decimal_quotient(a, DecimalView::integer(1)) == Some(a),
{
    assert(a.mantissa * 1 == a.mantissa && 1 * a.mantissa == a.mantissa);
}

/// A number taken away from itself is zero.
pub proof fn law_number_minus_itself(a: DecimalView)
    requires
        a.valid(),
    ensures
        decimal_difference(a, a) matches Some(rest) && rest.is_zero(),
{
    lemma_at_own_scale(a);
    lemma_neg_at_scale(a, a.scale);
}

/// Nothing is divided by zero.
pub proof fn law_division_by_zero(a: DecimalView, b: DecimalView)
    requires
        b.is_zero(),
    ensures
        decimal_quotient(a, b) is None,
{
}

pub proof fn lemma_powers_of_ten_multiply(m: nat, n: nat)
    ensures
        ten_to(m + n) == ten_to(m) * ten_to(n),
        ten_to(m) > 0,
        ten_to(n) > 0,
{
    lemma_pow_adds(10, m, n);
    lemma_pow_positive(10, m);
    lemma_pow_positive(10, n);
}

/// The small powers of ten.
pub proof fn lemma_small_powers_of_ten()
    ensures
        ten_to(0) == 1,
        ten_to(1) == 10,
        ten_to(2) == 100,
{
    lemma_pow0(10);
    lemma_pow1(10);
    lemma_powers_of_ten_multiply(1, 1);
}

/// Two numbers with the same product with `b` are the same.
proof fn lemma_quotients_agree(a: DecimalView, b: DecimalView, p: DecimalView, q: DecimalView)
    requires
        !b.is_zero(),
        is_quotient(a, b, p),
        is_quotient(a, b, q),
    ensures
        same_number(p, q),
    decreases
            (if p.scale > q.scale {
                1nat
            } else {
                0nat
            }),
{
    if p.scale > q.scale {
        lemma_quotients_agree(a, b, q, p);
    } else {
        let d = (q.scale - p.scale) as nat;
        let (x, y, c, e) = (p.signed(), q.signed(), b.signed(), a.signed());
        let (t, u, v) = (ten_to(a.scale), ten_to(p.scale + b.scale), ten_to(d));
        lemma_powers_of_ten_multiply(p.scale + b.scale, d);
        lemma_powers_of_ten_multiply(a.scale, 0);
        assert(p.scale + b.scale + d == q.scale + b.scale);
        assert(y * c * t == e * (u * v));
        assert((c * t) * (x * v) == (c * t) * y && c * t != 0) by (nonlinear_arith)
            requires
                x * c * t == e * u,
                y * c * t == e * (u * v),
                c != 0,
                t > 0,
        ;
        lemma_mul_equality_converse(c * t, x * v, y);
        lemma_pow0(10);
        assert(y * 1 == y);
    }
}

/// A quotient of the mantissas after `k` more places is the quotient.
proof fn lemma_is_quotient(a: DecimalView, b: DecimalView, q: DecimalView, k: nat)
    requires
        q.mantissa * b.mantissa == a.mantissa * ten_to(k),
        q.scale + b.scale == a.scale + k,
        q.negative == (a.negative != b.negative),
    ensures
        is_quotient(a, b, q),
{
    let (x, c, e) = (q.mantissa as int, b.mantissa as int, a.mantissa as int);
    let (t, u) = (ten_to(a.scale), ten_to(k));
    lemma_powers_of_ten_multiply(a.scale, k);
    assert(q.signed() * b.signed() == a.signed() * u) by {
        assert((-x) * (-c) == x * c && (-x) * c == -(x * c) && x * (-c) == -(x * c) && (-e) * u
            == -(e * u)) by (nonlinear_arith);
    }
    assert(a.signed() * u * t == a.signed() * (t * u)) by (nonlinear_arith);
}

/// A quotient that is a decimal is not rounded.
pub proof fn law_exact_quotients(a: DecimalView, b: DecimalView)
    ensures
        divides_exactly(a, b, decimal_quotient(a, b)),
{
    assert forall|q: DecimalView| #[trigger] is_exact_quotient(a, b, q) implies (
    decimal_quotient(a, b) matches Some(n) && same_number(n, q)) by {
        lemma_exact_quotient(a, b, q);
    }
}

/// Numbers that are equal without fractions are the same.
pub proof fn lemma_same_number(p: DecimalView, q: DecimalView)
    requires
        p.signed() * ten_to(q.scale) == q.signed() * ten_to(p.scale),
    ensures
        same_number(p, q),
{
    let one = DecimalView::integer(1);
    assert(one.signed() == 1);
    assert(p.signed() * one.signed() == p.signed());
    assert(q.signed() * one.signed() == q.signed());
    assert(p.scale + one.scale == p.scale && q.scale + one.scale == q.scale);
    lemma_quotients_agree(q, one, p, q);
}

/// [`law_exact_quotients`] for a division that may not take place.
pub proof fn lemma_not_rounded(division: Option<(DecimalView, DecimalView)>)
    ensures
        not_rounded(division),
{
    if let Some((a, b)) = division {
        law_exact_quotients(a, b);
    }
}

proof fn lemma_exact_quotient(a: DecimalView, b: DecimalView, q: DecimalView)
    requires
        is_exact_quotient(a, b, q),
    ensures
        decimal_quotient(a, b) matches Some(n) && same_number(n, q),
{
    let (m, d) = (a.mantissa as int, b.mantissa as int);
    lemma_small_powers_of_ten();
    if a.is_zero() {
        let (x, c, t) = (q.signed(), b.signed(), ten_to(a.scale));
        lemma_pow_positive(10, a.scale);
        assert(a.signed() == 0);
        assert(x == 0) by (nonlinear_arith)
            requires
                x * c * t == 0,
                c != 0,
                t > 0,
        ;
        lemma_zero_at_scale(q, larger(0, q.scale));
        lemma_zero_at_scale(DecimalView::integer(0), larger(0, q.scale));
    } else if m % d == 0 {
        lemma_fundamental_div_mod(m, d);
        let quotient = m / d;
        assert(quotient * d == d * quotient) by (nonlinear_arith);
        if a.scale >= b.scale {
            let n = decimal_quotient(a, b)->Some_0;
            lemma_is_quotient(a, b, n, 0);
            lemma_quotients_agree(a, b, n, q);
        } else {
            let k = (b.scale - a.scale) as nat;
            let scaled = quotient * ten_to(k);
            lemma_pow_positive(10, k);
            assert(scaled * d == m * ten_to(k) && scaled >= 0) by (nonlinear_arith)
                requires
                    scaled == quotient * ten_to(k),
                    m == d * quotient,
                    m > 0,
                    d > 0,
                    ten_to(k) > 0,
            ;
            let n = DecimalView {
                negative: a.negative != b.negative,
                mantissa: scaled as nat,
                scale: 0,
            };
            lemma_is_quotient(a, b, n, k);
            lemma_quotients_agree(a, b, n, q);
            // at the scale of `q` the number is no smaller than without decimal places
            let (t, x) = (ten_to(q.scale), n.signed());
            lemma_pow_positive(10, q.scale);
            assert(q.at_scale(q.scale) == q.signed() * 1);
            assert(magnitude(x) <= magnitude(x * t)) by (nonlinear_arith)
                requires
                    t >= 1,
            ;
        }
    } else if divides_within_two_places(a, b) {
        let n = quotient_within_two_places(a, b);
        lemma_fundamental_div_mod(m * 10, d);
        lemma_fundamental_div_mod(m * 100, d);
        assert(d * (m * 10 / d) == (m * 10 / d) * d && d * (m * 100 / d) == (m * 100 / d) * d)
            by (nonlinear_arith);
        lemma_is_quotient(
            a,
            b,
            n,
            (n.scale + b.scale - a.scale) as nat,
        );
        lemma_quotients_agree(a, b, n, q);
    } else {
        let n = decimal_quotient(a, b)->Some_0;
        assert(is_exact_quotient(a, b, n));
        lemma_quotients_agree(a, b, n, q);
    }
}

/// A sum does not depend on the order of its terms, nor a product on the order of its
/// factors, whether it is rounded or not. (Of two zeros, the second one is the sum.)
pub proof fn law_decimals_commute(a: DecimalView, b: DecimalView)
    ensures
        decimal_product(a, b) == decimal_product(b, a),
        !(a.is_zero() && b.is_zero()) ==> decimal_sum(a, b) == decimal_sum(b, a),
        a.is_zero() && b.is_zero() ==> decimal_sum(a, b) == Some(b) && decimal_sum(b, a) == Some(a)
            && same_number(a, b),
{
    assert(both(a, b) =~= both(b, a));
    assert(both(a.abs(), b.abs()) =~= both(b.abs(), a.abs()));
    assert(a.mantissa * b.mantissa == b.mantissa * a.mantissa) by (nonlinear_arith);
    if a.is_zero() && b.is_zero() {
        lemma_zero_at_scale(a, larger(a.scale, b.scale));
        lemma_zero_at_scale(b, larger(a.scale, b.scale));
    }
}

/// Flipping the sign of a factor flips the sign of the product, whether it is rounded or not;
/// a product of zero, or one that is rounded to zero, stays zero.
pub proof fn law_product_with_negated(a: DecimalView, b: DecimalView)
    ensures
        match (decimal_product(a, b), decimal_product(a, b.neg())) {
            (Some(c), Some(d)) => d == c.neg() || c.is_zero() && d.is_zero(),
            (None, None) => true,
            _ => false,
        },
{
    assert(b.neg().abs() == b.abs());
}

/// Subtracting is adding the number with its sign flipped, whether the result is rounded or
/// not. (Of two zeros, the difference is the second one itself.)
pub proof fn law_difference_is_sum_with_negated(a: DecimalView, b: DecimalView)
    ensures
        !(a.is_zero() && b.is_zero()) ==> decimal_difference(a, b) == decimal_sum(a, b.neg()),
        a.is_zero() && b.is_zero() ==> decimal_difference(a, b) == Some(b) && decimal_sum(
            a,
            b.neg(),
        ) == Some(b.neg()) && same_number(b, b.neg()),
{
    if a.is_zero() && b.is_zero() {
        lemma_zero_at_scale(b, b.scale);
        lemma_zero_at_scale(b.neg(), b.scale);
    }
}

} // verus!
