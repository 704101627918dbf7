//! What powers are: products of copies of a number.
use crate::decimal::decimal_product;
use crate::decimal::decimal_quotient;
use crate::decimal::magnitude;
use crate::decimal::ten_to;
use crate::decimal::DecimalView;
use crate::exact::divides_evenly;
use crate::exact::law_number_of_integer;
use crate::exact::law_number_of_zero;
use crate::exact::law_quotient_is_exact;
use crate::exact::lemma_ten_to;
use crate::exact::number;
use crate::operation::raised;
use crate::power::decimal_power;
use crate::power::law_first_powers;
use crate::power::law_power_is_exact;
use crate::power::power_fits;
use crate::power::power_from;
use crate::scalar_laws::decimal_in;
use crate::scalar_laws::has_no_token;
use crate::scalar_laws::is_power_of_unit;
use crate::scalar_laws::law_units_combine;
use crate::scalar_laws::number_in;
use crate::value::ResultView;
use crate::value::ValueView;
use vstd::arithmetic::div_mod::lemma_fundamental_div_mod;
use vstd::arithmetic::power::lemma_pow_multiplies;
use vstd::arithmetic::power::lemma_pow_positive;
use vstd::arithmetic::power::pow;
use vstd::prelude::*;

verus! {

/// The product of `n` copies of `x`.
pub open spec fn copies(x: real, n: nat) -> real
    decreases n,
{
    if n == 0 {
        1 as real
    } else {
        x * copies(x, (n - 1) as nat)
    }
}

proof fn lemma_copies_of_ratio(a: int, b: int, n: nat)
    requires
        b > 0,
    ensures
        pow(a, n) as real / pow(b, n) as real == copies(a as real / b as real, n),
        pow(b, n) > 0,
    decreases n,
{
    reveal(pow);
    lemma_pow_positive(b, n);
    if n == 0 {
        assert(1 as real / 1 as real == 1 as real) by (nonlinear_arith);
    } else {
        lemma_copies_of_ratio(a, b, (n - 1) as nat);
        let (x, y) = (pow(a, (n - 1) as nat), pow(b, (n - 1) as nat));
        assert((a * x) as real / (b * y) as real == (a as real / b as real) * (x as real
            / y as real)) by (nonlinear_arith)
            requires
                b > 0,
                y > 0,
        ;
    }
}

proof fn lemma_signed_power(m: int, n: nat)
    ensures
        pow(-m, n) == (if n % 2 == 1 {
            -pow(m, n)
        } else {
            pow(m, n)
        }),
    decreases n,
{
    reveal(pow);
    if n > 0 {
        lemma_signed_power(m, (n - 1) as nat);
        let x = pow(m, (n - 1) as nat);
        assert((-m) * x == -(m * x) && (-m) * (-x) == m * x) by (nonlinear_arith);
    }
}

/// A power with an exponent that is not negative, where it fits, stands for the product of
/// that many copies of the number, with its sign.
pub proof fn law_powers_multiply_copies(this: DecimalView, n: nat)
    requires
        power_fits(this, n),
    ensures
        decimal_power(this, n as int) matches Some(p) && number(p) == copies(number(this), n),
{
    law_power_is_exact(this, n);
    let p = decimal_power(this, n as int)->Some_0;
    law_number_of_zero(this);
    if this.is_zero() && n > 0 {
        law_number_of_zero(p);
        let rest = copies(number(this), (n - 1) as nat);
        assert(0 as real * rest == 0 as real) by (nonlinear_arith);
    } else {
        let m = this.mantissa as int;
        if !this.is_zero() {
            lemma_pow_positive(m, n);
        } else {
            reveal(pow);
        }
        lemma_signed_power(m, n);
        assert(p.signed() == pow(this.signed(), n));
        lemma_pow_multiplies(10, this.scale, n);
        lemma_ten_to(this.scale);
        lemma_pow_positive(10, this.scale);
        lemma_copies_of_ratio(this.signed(), ten_to(this.scale), n);
    }
}

/// A power with a negative exponent, where nothing is rounded, is the reciprocal: times the
/// product of the copies, it is one.
pub proof fn law_negative_powers_are_reciprocals(this: DecimalView, n: nat)
    requires
        n > 0,
        !this.is_zero(),
        power_fits(this, n),
        divides_evenly(DecimalView::integer(1), decimal_power(this, n as int)->Some_0),
    ensures
        decimal_power(this, -n) matches Some(p) && number(p) * copies(number(this), n) == 1 as real,
{
    law_powers_multiply_copies(this, n);
    law_number_of_integer(1);
    law_quotient_is_exact(DecimalView::integer(1), decimal_power(this, n as int)->Some_0);
}

/// An even power is that of the square with half the exponent, whether it is rounded or not.
pub proof fn law_even_powers(this: DecimalView, n: nat)
    requires
        n > 0,
    ensures
        decimal_power(this, (2 * n) as int) == (match decimal_product(this, this) {
            Some(square) => decimal_power(square, n as int),
            None => None,
        }),
{
}

/// The zeroth power is one, the first the number, the second one time its product with itself
/// and the third the product of that with the number, whether they are rounded or not.
pub proof fn law_low_powers(this: DecimalView)
    requires
        this.valid(),
        !this.is_zero(),
    ensures
        decimal_power(this, 0) == Some(DecimalView::integer(1)),
        decimal_power(this, 1) == Some(this),
        decimal_power(this, 2) == (match decimal_product(this, this) {
            Some(square) => decimal_product(DecimalView::integer(1), square),
            None => None,
        }),
        decimal_power(this, 3) == (match decimal_product(this, this) {
            Some(square) => decimal_product(this, square),
            None => None,
        }),
{
    law_first_powers(this);
    assert(1 * this.mantissa == this.mantissa);
    law_even_powers(this, 1);
    if let Some(square) = decimal_product(this, this) {
        let p = decimal_product(DecimalView::integer(1), this);
        assert(p == Some(this));
        reveal_with_fuel(power_from, 3);
    }
}

/// Powers are taken by squaring, and rounded on the way: `acc * base^(2k)` is that of the
/// square with half the exponent, and an odd exponent takes one factor off first. A negative
/// power is one divided by the positive one.
pub proof fn law_powers_by_squaring(acc: DecimalView, base: DecimalView, k: nat)
    ensures
        power_from(acc, base, 0) == Some(acc),
        power_from(acc, base, 1) == decimal_product(acc, base),
        k > 0 ==> power_from(acc, base, 2 * k) == (match decimal_product(base, base) {
            Some(square) => power_from(acc, square, k),
            None => None,
        }),
        k > 0 ==> power_from(acc, base, 2 * k + 1) == (match (
            decimal_product(acc, base),
            decimal_product(base, base),
        ) {
            (Some(taken), Some(square)) => power_from(taken, square, k),
            _ => None,
        }),
        decimal_power(base, k as int) == power_from(DecimalView::integer(1), base, k),
        k > 0 && !base.is_zero() ==> decimal_power(base, -k) == (match decimal_power(
            base,
            k as int,
        ) {
            Some(power) => decimal_quotient(DecimalView::integer(1), power),
            None => None,
        }),
        k > 0 && base.is_zero() ==> decimal_power(base, -k) is None,
{
}

/// Two decimals that differ at most in their signs, and there by `flipped`.
spec fn differ_by_sign(x: DecimalView, y: DecimalView, flipped: bool) -> bool {
    &&& x.mantissa == y.mantissa
    &&& x.scale == y.scale
    &&& x.is_zero() || y.negative == (x.negative != flipped)
}

spec fn answers_differ_by_sign(
    x: Option<DecimalView>,
    y: Option<DecimalView>,
    flipped: bool,
) -> bool {
    match (x, y) {
        (Some(x), Some(y)) => differ_by_sign(x, y, flipped),
        (None, None) => true,
        _ => false,
    }
}

proof fn lemma_products_differ_by_sign(
    a: DecimalView,
    b: DecimalView,
    c: DecimalView,
    d: DecimalView,
    f: bool,
    g: bool,
)
    requires
        differ_by_sign(a, c, f),
        differ_by_sign(b, d, g),
    ensures
        answers_differ_by_sign(decimal_product(a, b), decimal_product(c, d), f != g),
{
    assert(a.abs() == c.abs() && b.abs() == d.abs());
}

proof fn lemma_powers_differ_by_sign(
    a: DecimalView,
    b: DecimalView,
    c: DecimalView,
    d: DecimalView,
    f: bool,
    g: bool,
    n: nat,
)
    requires
        differ_by_sign(a, c, f),
        differ_by_sign(b, d, g),
    ensures
        answers_differ_by_sign(power_from(a, b, n), power_from(c, d, n), f != (g && n % 2 == 1)),
    decreases n,
{
    lemma_products_differ_by_sign(a, b, c, d, f, g);
    lemma_products_differ_by_sign(b, b, d, d, g, g);
    if n > 1 {
        if let (Some(p), Some(q)) = (decimal_product(b, b), decimal_product(d, d)) {
            if n % 2 == 1 {
                if let (Some(x), Some(y)) = (decimal_product(a, b), decimal_product(c, d)) {
                    lemma_powers_differ_by_sign(x, p, y, q, f != g, false, n / 2);
                }
            } else {
                lemma_powers_differ_by_sign(a, p, c, q, f, false, n / 2);
            }
        }
    }
}

/// The number with the opposite sign has the same even powers and the opposite odd powers,
/// whether they are rounded or not.
pub proof fn law_powers_of_negated(this: DecimalView, n: nat)
    ensures
        match (decimal_power(this, n as int), decimal_power(this.neg(), n as int)) {
            (Some(p), Some(q)) => {
                &&& p.mantissa == q.mantissa
                &&& p.scale == q.scale
                &&& !p.is_zero() ==> q.negative == (p.negative != (n % 2 == 1))
            },
            (None, None) => true,
            _ => false,
        },
{
    let one = DecimalView::integer(1);
    lemma_powers_differ_by_sign(one, this, one, this.neg(), false, true, n);
}

/// `n` is the integer part of the decimal: what is left when the decimal places are cut off.
pub open spec fn is_integer_part(d: DecimalView, n: int) -> bool {
    if d.negative {
        n <= 0 && number(d) > (n - 1) as real && number(d) <= n as real
    } else {
        n >= 0 && n as real <= number(d) && number(d) < (n + 1) as real
    }
}

/// Every decimal has an integer part.
pub proof fn lemma_whole(d: DecimalView)
    ensures
        is_integer_part(
            d,
            if d.negative {
                -d.whole()
            } else {
                d.whole()
            },
        ),
        d.whole() >= 0,
{
    let (m, t) = (d.mantissa as int, ten_to(d.scale));
    lemma_pow_positive(10, d.scale);
    lemma_fundamental_div_mod(m, t);
    let w = d.whole();
    assert(w >= 0 && w as real <= m as real / t as real && (m as real / t as real) < (w + 1) as real
        && (-m) as real / t as real == -(m as real / t as real)) by (nonlinear_arith)
        requires
            m == t * w + m % t,
            0 <= m % t < t,
            m >= 0,
            t > 0,
    ;
}

/// The integer part of a decimal is one integer, and it converts to every type of integers in
/// which it fits; a negative decimal to none without a sign.
pub proof fn law_integer_part_converts(d: DecimalView, n: int)
    requires
        is_integer_part(d, n),
    ensures
        d.to_i64() == (if i64::MIN <= n <= i64::MAX {
            Some(n as i64)
        } else {
            None
        }),
        d.to_u64() == (if !d.negative && n <= u64::MAX {
            Some(n as u64)
        } else {
            None
        }),
        d.to_u32() == (if !d.negative && n <= u32::MAX {
            Some(n as u32)
        } else {
            None
        }),
{
    lemma_whole(d);
    let (w, x) = (d.whole(), number(d));
    if d.negative {
        assert(n == -w) by (nonlinear_arith)
            requires
                x > (n - 1) as real,
                x <= n as real,
                x > (-w - 1) as real,
                x <= (-w) as real,
        ;
    } else {
        assert(n == w) by (nonlinear_arith)
            requires
                n as real <= x,
                x < (n + 1) as real,
                w as real <= x,
                x < (w + 1) as real,
        ;
    }
}

/// A number, or the number and the unit of a quantity, is raised to the integer part of
/// another number. Without a negative exponent, and where it fits, it is the product of so
/// many copies; with one, and where nothing is rounded, the reciprocal of that.
pub proof fn law_raising_multiplies_copies(l: ResultView, r: ResultView, n: int)
    requires
        l.typ is Number || l.typ is Quantity,
        r.typ is Number,
        is_integer_part(decimal_in(r.typ), n),
    ensures
        !(i64::MIN <= n <= i64::MAX) ==> raised(l, r) is None,
        raised(l, r) matches Some(s) ==> has_no_token(s) && decimal_power(decimal_in(l.typ), n)
            == Some(decimal_in(s.typ)) && (l.typ is Number ==> s.typ is Number) && (
        l.typ matches ValueView::Quantity(_, u) ==> (s.typ matches ValueView::Quantity(_, w)
            && is_power_of_unit(w, u, n))),
        raised(l, r) is Some <==> i64::MIN <= n <= i64::MAX && decimal_power(decimal_in(l.typ), n)
            is Some && (l.typ matches ValueView::Quantity(_, u) ==> u.power(n) is Some),
        raised(l, r) is Some && n >= 0 && power_fits(decimal_in(l.typ), n as nat) ==> (raised(
            l,
            r,
        ) matches Some(s) && number_in(s) == copies(number_in(l), n as nat)),
        raised(l, r) is Some && n < 0 && power_fits(decimal_in(l.typ), magnitude(n))
            && divides_evenly(
            DecimalView::integer(1),
            decimal_power(decimal_in(l.typ), -n)->Some_0,
        ) ==> (raised(l, r) matches Some(s) && number_in(s) * copies(number_in(l), magnitude(n))
            == 1 as real),
{
    let a = decimal_in(l.typ);
    law_integer_part_converts(decimal_in(r.typ), n);
    if let ValueView::Quantity(_, u) = l.typ {
        law_units_combine(u, u, n);
    }
    if n >= 0 && power_fits(a, n as nat) {
        law_powers_multiply_copies(a, n as nat);
    }
    if raised(l, r) is Some && n < 0 && power_fits(a, magnitude(n)) && divides_evenly(
        DecimalView::integer(1),
        decimal_power(a, -n)->Some_0,
    ) {
        law_negative_powers_are_reciprocals(a, magnitude(n));
    }
}

/// Nothing else is raised to a power, and nothing to anything but a number.
pub proof fn law_no_other_powers(l: ResultView, r: ResultView)
    requires
        !(l.typ is Number || l.typ is Quantity) || r.typ !is Number,
    ensures
        raised(l, r) is None,
{
}

} // verus!
