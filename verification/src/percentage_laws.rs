//! Laws of percentages.
use crate::addition::sum;
use crate::arithmetic::decreased;
use crate::arithmetic::increased;
use crate::decimal::decimal_difference;
use crate::decimal::decimal_product;
use crate::decimal::decimal_quotient;
use crate::decimal::decimal_sum;
use crate::decimal::is_exact_quotient;
use crate::decimal::larger;
use crate::decimal::magnitude;
use crate::decimal::same_number;
use crate::decimal::ten_to;
use crate::decimal::DecimalView;
use crate::decimal::MANTISSA_BOUND;
use crate::decimal::MAX_SCALE;
use crate::decimal_laws::law_decimals_commute;
use crate::decimal_laws::law_difference_is_sum_with_negated;
use crate::decimal_laws::law_product_with_negated;
use crate::decimal_laws::lemma_neg_at_scale;
use crate::decimal_laws::lemma_powers_of_ten_multiply;
use crate::decimal_laws::lemma_same_number;
use crate::decimal_laws::lemma_small_powers_of_ten;
use crate::percentage::base_decreased;
use crate::percentage::base_increased;
use crate::percentage::decrease_rate;
use crate::percentage::hundred_view;
use crate::percentage::hundredfold_quotient;
use crate::percentage::increase_rate;
use crate::percentage::share;
use crate::percentage::what_perc_off;
use crate::percentage::what_perc_on;
use crate::percentage::xperc_off_what;
use crate::percentage::xperc_on_what;
use crate::subtraction::difference;
use crate::value::plain;
use crate::value::ResultView;
use crate::value::ValueView;
use vstd::arithmetic::div_mod::lemma_div_multiples_vanish;
use vstd::arithmetic::div_mod::lemma_mod_multiples_basic;
use vstd::arithmetic::mul::lemma_mul_unary_negation;
use vstd::arithmetic::power::lemma_pow_positive;
use vstd::prelude::*;

verus! {

/// A hundredth of `b` is known to the last place: `b` is a multiple of a hundred, or not too
/// large for two more decimal places.
pub open spec fn hundredth_is_exact(b: DecimalView) -> bool {
    b.mantissa % 100 == 0 || b.scale <= 6 && b.mantissa * 10_000_000 < MANTISSA_BOUND
}

/// A hundredth of `b`.
pub open spec fn hundredth(b: DecimalView) -> DecimalView {
    decimal_quotient(b, hundred_view())->Some_0
}

/// A hundredth has up to two decimal places more.
pub proof fn law_hundredths(b: DecimalView)
    requires
        !b.is_zero(),
        hundredth_is_exact(b),
    ensures
        decimal_quotient(b, hundred_view()) == Some(hundredth(b)),
        hundredth(b).negative == b.negative,
        hundredth(b).mantissa > 0,
        b.scale <= hundredth(b).scale <= b.scale + 2,
        hundredth(b).mantissa * 100 == b.mantissa * ten_to((hundredth(b).scale - b.scale) as nat),
{
    lemma_small_powers_of_ten();
    let m = b.mantissa as int;
    if m % 100 != 0 {
        lemma_mod_multiples_basic(m, 100);
        lemma_div_multiples_vanish(m, 100);
        lemma_mod_multiples_basic(m * 10_000_000, 100);
        lemma_div_multiples_vanish(m * 10_000_000, 100);
        assert(b.mantissa * 100 / 100 == b.mantissa);
        assert(b.mantissa * 1_000_000_000 / 100 == b.mantissa * 10_000_000);
    }
}

/// A share is exact, or too large, where a hundredth of the base is.
pub open spec fn share_is_exact(rate: DecimalView, base: DecimalView) -> bool {
    ||| rate.is_zero()
    ||| base.is_zero()
    ||| {
        &&& hundredth_is_exact(base)
        &&& hundredth(base).mantissa * rate.mantissa < MANTISSA_BOUND
        &&& hundredth(base).scale + rate.scale <= MAX_SCALE
    }
}

/// `rate` percent of `base` is a hundredth of it, `rate` times.
pub proof fn law_exact_shares(rate: DecimalView, base: DecimalView)
    requires
        share_is_exact(rate, base),
        !rate.is_zero(),
        !base.is_zero(),
    ensures
        share(rate, base) == Some(
            DecimalView {
                negative: rate.negative != base.negative,
                mantissa: hundredth(base).mantissa * rate.mantissa,
                scale: hundredth(base).scale + rate.scale,
            },
        ),
        hundredth(base).mantissa * rate.mantissa > 0,
{
    law_hundredths(base);
    let (k, m) = (hundredth(base).mantissa, rate.mantissa);
    assert(k * m > 0) by (nonlinear_arith)
        requires
            k > 0,
            m > 0,
    ;
}

/// Increasing by a negative percentage is decreasing, whether the share is rounded or not.
pub proof fn law_decrease_is_negative_increase(base: DecimalView, rate: DecimalView)
    ensures
        decreased(base, rate) == increased(base, rate.neg()),
{
    if let Some(h) = decimal_quotient(base, hundred_view()) {
        law_product_with_negated(h, rate);
        if let Some(part) = decimal_product(h, rate) {
            law_difference_is_sum_with_negated(base, part);
        }
    }
}

/// `100 + p` as a multiple of `10^-scale`.
pub open spec fn increase_factor(p: DecimalView) -> int {
    100 * ten_to(p.scale) + p.signed()
}

/// Increasing `b` by `p` percent takes no rounding: a hundredth of `b` is exact, and
/// everything fits.
pub open spec fn increase_is_exact(b: DecimalView, p: DecimalView) -> bool {
    &&& b.valid()
    &&& p.valid()
    &&& !b.is_zero()
    &&& hundredth_is_exact(b)
    &&& p.scale <= 24
    &&& p.mantissa * 100 < MANTISSA_BOUND
    &&& hundredth(b).scale + p.scale <= MAX_SCALE
    &&& hundredth(b).mantissa * (100 * ten_to(p.scale)) < MANTISSA_BOUND
    &&& hundredth(b).mantissa * p.mantissa < MANTISSA_BOUND
    &&& hundredth(b).mantissa * magnitude(increase_factor(p)) * 100 < MANTISSA_BOUND
}

/// The increased number: `(100 + p)` hundredths of `b`.
proof fn lemma_increased(b: DecimalView, p: DecimalView)
    requires
        increase_is_exact(b, p),
        p.mantissa > 0,
        increase_factor(p) != 0,
    ensures
        increased(b, p) == Some(
            DecimalView {
                negative: b.negative != (increase_factor(p) < 0),
                mantissa: hundredth(b).mantissa * magnitude(increase_factor(p)),
                scale: hundredth(b).scale + p.scale,
            },
        ),
{
    law_hundredths(b);
    law_exact_shares(p, b);
    lemma_small_powers_of_ten();
    let h = hundredth(b);
    let d = (h.scale - b.scale) as nat;
    let k = h.mantissa as int;
    let unit = ten_to(p.scale);
    let places = h.scale + p.scale;
    let factor = increase_factor(p);
    let part = share(p, b)->Some_0;
    let m = p.mantissa as int;
    let q = p.signed();
    let f = magnitude(factor) as int;
    let sign: int = if b.negative {
        -1
    } else {
        1
    };
    lemma_powers_of_ten_multiply(d, p.scale);
    assert(d + p.scale == places - b.scale);
    assert(part.at_scale(places) == part.signed() * 1);
    assert(part.signed() == sign * (k * q)) by {
        assert(k * (-m) == -(k * m)) by (nonlinear_arith);
    }
    assert(b.at_scale(places) == sign * (k * (100 * unit))) by {
        let t = ten_to(d);
        let bm = b.mantissa as int;
        assert((sign * bm) * (t * unit) == sign * (k * (100 * unit))) by (nonlinear_arith)
            requires
                k * 100 == bm * t,
        ;
        assert(b.signed() == sign * bm);
    }
    assert(sign * (k * (100 * unit)) + sign * (k * q) == sign * (k * factor)) by (nonlinear_arith)
        requires
            factor == 100 * unit + q,
    ;
    assert(k * f > 0 && (factor > 0 ==> k * factor == k * f) && (factor < 0 ==> k * factor == -(k
        * f))) by (nonlinear_arith)
        requires
            k > 0,
            f > 0,
            f == (if factor < 0 {
                -factor
            } else {
                factor
            }),
    ;
    assert(k * (100 * unit) > 0) by (nonlinear_arith)
        requires
            k > 0,
            unit > 0,
    ;
}

/// `p + 100`, as a decimal.
spec fn rate_of(p: DecimalView) -> DecimalView {
    DecimalView {
        negative: increase_factor(p) < 0,
        mantissa: magnitude(increase_factor(p)),
        scale: p.scale,
    }
}

proof fn lemma_rate(b: DecimalView, p: DecimalView)
    requires
        increase_is_exact(b, p),
        p.mantissa > 0,
    ensures
        decimal_sum(p, hundred_view()) == Some(rate_of(p)),
{
    law_hundredths(b);
    lemma_small_powers_of_ten();
    let k = hundredth(b).mantissa as int;
    let unit = ten_to(p.scale);
    let f = magnitude(increase_factor(p)) as int;
    lemma_powers_of_ten_multiply(p.scale, 0);
    assert(100 * unit <= k * (100 * unit) && f <= k * f) by (nonlinear_arith)
        requires
            k > 0,
            unit > 0,
            f >= 0,
    ;
    assert(p.at_scale(p.scale) == p.signed() * 1);
}

/// The rate found again, minus a hundred, is `p` with `d` more places.
proof fn lemma_rate_minus_hundred(p: DecimalView, d: nat)
    requires
        p.valid(),
        p.scale <= 24,
        d <= 2,
        increase_factor(p) != 0,
        magnitude(increase_factor(p)) * ten_to(d) < MANTISSA_BOUND,
        p.mantissa * ten_to(d) < MANTISSA_BOUND,
    ensures
        ({
            let rate = DecimalView {
                negative: increase_factor(p) < 0,
                mantissa: (magnitude(increase_factor(p)) * ten_to(d)) as nat,
                scale: p.scale + d,
            };
            decimal_difference(rate, hundred_view()) matches Some(n) && same_number(n, p)
        }),
{
    let factor = increase_factor(p);
    let t = ten_to(d);
    let unit = ten_to(p.scale);
    let places = p.scale + d;
    let q = p.signed();
    let rate = DecimalView {
        negative: factor < 0,
        mantissa: (magnitude(factor) * t) as nat,
        scale: places,
    };
    lemma_small_powers_of_ten();
    lemma_powers_of_ten_multiply(p.scale, d);
    lemma_hundreds_fit(places);
    let f = magnitude(factor) as int;
    assert(f * t > 0 && (-f) * t == -(f * t)) by (nonlinear_arith)
        requires
            f > 0,
            t > 0,
    ;
    assert(rate.at_scale(places) == rate.signed() * 1);
    assert(rate.signed() == factor * t);
    assert(hundred_view().neg().at_scale(places) == -100 * (unit * t));
    assert(factor * t + -100 * (unit * t) == q * t) by (nonlinear_arith)
        requires
            factor == 100 * unit + q,
    ;
    let m = p.mantissa as int;
    assert(magnitude(q * t) == m * t) by {
        assert((-m) * t == -(m * t) && m * t >= 0) by (nonlinear_arith)
            requires
                m >= 0,
                t > 0,
        ;
    }
    let n = decimal_difference(rate, hundred_view())->Some_0;
    assert(n.scale == places && n.signed() == q * t);
    assert(n.at_scale(places) == n.signed() * 1);
    assert(p.at_scale(places) == q * t);
}

/// A hundred fits with up to 26 decimal places.
proof fn lemma_hundreds_fit(n: nat)
    requires
        n <= 26,
    ensures
        100 * ten_to(n) < MANTISSA_BOUND,
{
    let rest = (26 - n) as nat;
    lemma_powers_of_ten_multiply(n, rest);
    let (x, y) = (ten_to(n), ten_to(rest));
    assert(x <= x * y) by (nonlinear_arith)
        requires
            x > 0,
            y > 0,
    ;
    lemma_small_powers_of_ten();
    lemma_powers_of_ten_multiply(2, 2);
    assert(ten_to(4) == 10_000) by {
        assert(100 * 100 == 10_000);
    }
    lemma_powers_of_ten_multiply(4, 4);
    assert(ten_to(8) == 100_000_000);
    lemma_powers_of_ten_multiply(8, 8);
    assert(ten_to(16) == 10_000_000_000_000_000);
    lemma_powers_of_ten_multiply(16, 8);
    assert(ten_to(24) == 1_000_000_000_000_000_000_000_000);
    lemma_powers_of_ten_multiply(24, 2);
}

/// A number that was increased without rounding tells both the number that it was increased
/// from and the percentage. (Nothing comes back from an increase by minus a hundred percent.)
pub proof fn law_increase_is_found_again(b: DecimalView, p: DecimalView)
    requires
        increase_is_exact(b, p),
        increase_factor(p) != 0,
    ensures
        increased(b, p) matches Some(y) && (base_increased(y, p) matches Some(base) && same_number(
            base,
            b,
        )) && (increase_rate(y, b) matches Some(rate) && same_number(rate, p)),
{
    law_hundredths(b);
    lemma_small_powers_of_ten();
    let h = hundredth(b);
    let d = (h.scale - b.scale) as nat;
    let t = ten_to(d);
    let k = h.mantissa as int;
    let m = b.mantissa as int;
    let f = magnitude(increase_factor(p)) as int;
    lemma_powers_of_ten_multiply(d, p.scale);
    if p.mantissa == 0 {
        let unit = ten_to(p.scale);
        assert(k * f * 100 >= m * 100) by (nonlinear_arith)
            requires
                k * 100 == m * t,
                t >= 1,
                m > 0,
                k > 0,
                f == 100 * unit,
                unit >= 1,
        ;
        lemma_mod_multiples_basic(m, 100);
        lemma_div_multiples_vanish(m, 100);
        lemma_mod_multiples_basic(100, m);
        lemma_div_multiples_vanish(100, m);
        assert(hundred_view().at_scale(0) == 100 * 1);
        assert(hundred_view().neg().at_scale(0) == -100 * 1);
        let rate = increase_rate(b, b)->Some_0;
        assert(rate.signed() == 0 && p.signed() == 0);
        assert(increased(b, p) == Some(b));
        assert(base_increased(b, p) == Some(b));
    } else {
        lemma_increased(b, p);
        lemma_rate(b, p);
        let y = increased(b, p)->Some_0;
        assert(k * f * 100 == (k * 100) * f && (k * 100) * f == m * (t * f) && f * (k * 100) == (k
            * 100) * f && m * (t * f) == (t * f) * m && k * f > 0 && k * f * 100 > 0 && t * f > 0
            && t * f <= k * f * 100) by (nonlinear_arith)
            requires
                k * 100 == m * t,
                k > 0,
                m >= 1,
                t > 0,
                f > 0,
        ;
        lemma_mod_multiples_basic(k * 100, f);
        lemma_div_multiples_vanish(k * 100, f);
        lemma_mod_multiples_basic(t * f, m);
        lemma_div_multiples_vanish(t * f, m);
        let base = DecimalView { negative: b.negative, mantissa: (k * 100) as nat, scale: h.scale };
        assert(base_increased(y, p) == Some(base));
        assert(same_number(base, b)) by {
            assert(base.at_scale(h.scale) == base.signed() * 1);
            assert((-m) * t == -(m * t)) by (nonlinear_arith);
        }
        let pm = p.mantissa as int;
        assert(f * t == t * f) by (nonlinear_arith);
        assert(pm * t <= pm * 100) by (nonlinear_arith)
            requires
                t <= 100,
                pm > 0,
        ;
        lemma_rate_minus_hundred(p, d);
    }
}

/// A number that was decreased without rounding tells both the number that it was decreased
/// from and the percentage. (Nothing comes back from a decrease by a hundred percent.)
pub proof fn law_decrease_is_found_again(b: DecimalView, p: DecimalView)
    requires
        increase_is_exact(b, p.neg()),
        increase_factor(p.neg()) != 0,
    ensures
        decreased(b, p) matches Some(y) && (base_decreased(y, p) matches Some(base) && same_number(
            base,
            b,
        )) && (decrease_rate(y, b) matches Some(rate) && same_number(rate, p)),
{
    let n = p.neg();
    law_increase_is_found_again(b, n);
    law_decrease_is_negative_increase(b, p);
    let y = increased(b, n)->Some_0;
    law_difference_is_sum_with_negated(hundred_view(), p);
    law_decimals_commute(hundred_view(), n);
    let rate = increase_rate(y, b)->Some_0;
    let places = larger(rate.scale, p.scale);
    lemma_neg_at_scale(rate, places);
    lemma_neg_at_scale(p, places);
}

/// A number of ordinary size as a value.
pub open spec fn number(n: int) -> ResultView {
    plain(ValueView::Number(DecimalView::integer(n)))
}

/// A percentage of ordinary size as a value.
pub open spec fn percent(n: int) -> ResultView {
    plain(ValueView::Percentage(DecimalView::integer(n)))
}

/// An answer that is the number `n`.
pub open spec fn is_number(answer: Option<ResultView>, n: int) -> bool {
    answer matches Some(r) && (r.typ matches ValueView::Number(d) && same_number(
        d,
        DecimalView::integer(n),
    ))
}

/// An answer that is `n` percent.
pub open spec fn is_percentage(answer: Option<ResultView>, n: int) -> bool {
    answer matches Some(r) && (r.typ matches ValueView::Percentage(d) && same_number(
        d,
        DecimalView::integer(n),
    ))
}

proof fn lemma_integers_increase_exactly(x: int, p: int)
    requires
        0 < x <= 1_000_000,
        -1_000_000 <= p <= 1_000_000,
    ensures
        increase_is_exact(DecimalView::integer(x), DecimalView::integer(p)),
        increase_factor(DecimalView::integer(p)) == 100 + p,
        share_is_exact(DecimalView::integer(p), DecimalView::integer(x)),
{
    lemma_small_powers_of_ten();
    let b = DecimalView::integer(x);
    law_hundredths(b);
    let k = hundredth(b).mantissa as int;
    let t = ten_to((hundredth(b).scale - b.scale) as nat);
    assert(k <= 1_000_000) by (nonlinear_arith)
        requires
            k * 100 == x * t,
            0 < t <= 100,
            0 < x <= 1_000_000,
    ;
    let (m, f) = (magnitude(p) as int, magnitude(100 + p) as int);
    assert(k * m <= 1_000_000 * 1_000_000 && k * f <= 1_000_000 * 1_000_100) by (nonlinear_arith)
        requires
            0 < k <= 1_000_000,
            0 <= m <= 1_000_000,
            0 <= f <= 1_000_100,
    ;
}

/// Adding `p` percent to an integer is undone by asking on what it was `p` percent, except
/// for minus a hundred percent, of which there is no answer; and by how many percent it is
/// more is `p`.
pub proof fn law_percent_on_what_undoes_addition(x: int, p: int)
    requires
        0 <= x <= 1_000_000,
        -1_000_000 <= p <= 1_000_000,
    ensures
        sum(number(x), percent(p)) matches Some(y) && if p == -100 {
            xperc_on_what(y, percent(p)) is None
        } else {
            is_number(xperc_on_what(y, percent(p)), x) && (x > 0 ==> is_percentage(
                what_perc_on(y, number(x)),
                p,
            ))
        },
{
    let (b, q) = (DecimalView::integer(x), DecimalView::integer(p));
    lemma_small_powers_of_ten();
    assert(q.at_scale(0) == q.signed() * 1);
    assert(hundred_view().at_scale(0) == 100 * 1);
    if x > 0 {
        lemma_integers_increase_exactly(x, p);
        if p != -100 {
            law_increase_is_found_again(b, q);
        } else {
            law_exact_shares(q, b);
        }
    }
}

/// Taking `p` percent off an integer is undone by asking off what it was `p` percent, except
/// for a hundred percent, of which there is no answer; and by how many percent it is less is
/// `p`.
pub proof fn law_percent_off_what_undoes_subtraction(x: int, p: int)
    requires
        0 <= x <= 1_000_000,
        -1_000_000 <= p <= 1_000_000,
    ensures
        difference(number(x), percent(p)) matches Some(y) && if p == 100 {
            xperc_off_what(y, percent(p)) is None
        } else {
            is_number(xperc_off_what(y, percent(p)), x) && (x > 0 ==> is_percentage(
                what_perc_off(y, number(x)),
                p,
            ))
        },
{
    let (b, q) = (DecimalView::integer(x), DecimalView::integer(p));
    lemma_small_powers_of_ten();
    assert(q.neg().at_scale(0) == q.neg().signed() * 1);
    assert(hundred_view().at_scale(0) == 100 * 1);
    if x > 0 {
        lemma_integers_increase_exactly(x, -p);
        assert(q.neg().signed() == -p && q.neg().mantissa == magnitude(-p));
        assert(increase_is_exact(b, q.neg()));
        if p != 100 {
            law_decrease_is_found_again(b, q);
        } else {
            law_exact_shares(q, b);
            law_decrease_is_negative_increase(b, q);
            law_percent_on_what_undoes_addition(x, -p);
            assert(q.neg() == DecimalView::integer(-p));
        }
    }
}

/// `y` is some percentage of `x` that takes no rounding, neither to find nor to apply.
pub open spec fn rate_is_exact(y: DecimalView, x: DecimalView) -> bool {
    decimal_quotient(y, x) matches Some(q) && {
        &&& is_exact_quotient(y, x, q)
        &&& hundredth_is_exact(x)
        &&& hundredth(x).mantissa * (q.mantissa * 100) < MANTISSA_BOUND
        &&& hundredth(x).scale + q.scale <= MAX_SCALE
    }
}

/// What `y` is of `x` in percent, and that percentage of `x`, are `y` again, where nothing is
/// rounded.
pub proof fn law_share_is_found_again(y: DecimalView, x: DecimalView)
    requires
        rate_is_exact(y, x),
    ensures
        hundredfold_quotient(y, x) matches Some(p) && share(p, x) matches Some(part)
            && same_number(part, y),
{
    law_hundredths(x);
    lemma_small_powers_of_ten();
    let q = decimal_quotient(y, x)->Some_0;
    let h = hundredth(x);
    let part = share(hundredfold_quotient(y, x)->Some_0, x)->Some_0;
    let d = (h.scale - x.scale) as nat;
    let t = ten_to(d);
    let (k, m) = (h.mantissa as int, q.mantissa as int);
    let (ys, xs, qs, hs) = (y.signed(), x.signed(), q.signed(), h.signed());
    let (places, wide) = (ten_to(y.scale), ten_to(q.scale + x.scale));
    assert(qs * xs * places == ys * wide);
    if m == 0 {
        lemma_pow_positive(10, q.scale + x.scale);
        assert(ys == 0) by (nonlinear_arith)
            requires
                qs * xs * places == ys * wide,
                qs == 0,
                wide > 0,
        ;
        assert(part.signed() == 0);
    } else {
        assert(m * 100 <= k * (m * 100) && k * (m * 100) > 0) by (nonlinear_arith)
            requires
                k > 0,
                m > 0,
        ;
        lemma_powers_of_ten_multiply(q.scale + x.scale, d);
        assert(hs * 100 == xs * t) by {
            lemma_mul_unary_negation(x.mantissa as int, t);
        }
        assert(part.signed() == hs * (qs * 100)) by {
            lemma_mul_unary_negation(k, m * 100);
            lemma_mul_unary_negation(k, -(m * 100));
        }
        assert(hs * (qs * 100) * places == ys * (wide * t)) by (nonlinear_arith)
            requires
                hs * 100 == xs * t,
                qs * xs * places == ys * wide,
        ;
    }
    lemma_same_number(part, y);
}

} // verus!
