//! Raising a decimal to an integer power.
use crate::decimal::decimal_product;
use crate::decimal::decimal_quotient;
use crate::decimal::divides_exactly;
use crate::decimal::magnitude;
use crate::decimal::ten_to;
use crate::decimal::view_of;
use crate::decimal::Decimal;
use crate::decimal::DecimalView;
use crate::decimal::MANTISSA_BOUND;
use crate::decimal::MAX_SCALE;
use crate::decimal_laws::law_exact_quotients;
use vstd::arithmetic::power;
use vstd::arithmetic::power::lemma_pow0;
use vstd::arithmetic::power::lemma_pow1;
use vstd::arithmetic::power::lemma_pow_adds;
use vstd::arithmetic::power::lemma_pow_multiplies;
use vstd::arithmetic::power::lemma_pow_positive;
use vstd::prelude::*;

verus! {

/// `acc * base^n` by repeated squaring. Each product may be rounded, so the order in which
/// they are taken is part of the answer; a product that overflows leaves no answer.
pub open spec fn power_from(acc: DecimalView, base: DecimalView, n: nat) -> Option<DecimalView>
    decreases n,
{
    if n == 0 {
        Some(acc)
    } else if n == 1 {
        decimal_product(acc, base)
    } else {
        let taken = if n % 2 == 1 {
            decimal_product(acc, base)
        } else {
            Some(acc)
        };
        match (taken, decimal_product(base, base)) {
            (Some(taken), Some(square)) => power_from(taken, square, n / 2),
            _ => None,
        }
    }
}

/// `this^exp`. A negative exponent gives the reciprocal of the positive power; zero has no
/// such power.
pub open spec fn decimal_power(this: DecimalView, exp: int) -> Option<DecimalView> {
    if this.is_zero() && exp < 0 {
        None
    } else {
        match power_from(DecimalView::integer(1), this, magnitude(exp)) {
            None => None,
            Some(power) => if exp < 0 {
                decimal_quotient(DecimalView::integer(1), power)
            } else {
                Some(power)
            },
        }
    }
}

pub fn pow(this: Decimal, exp: i64) -> (r: Option<Decimal>)
    ensures
        view_of(r) == decimal_power(this@, exp as int),
        exp < 0 && !this@.is_zero() ==> (decimal_power(this@, -exp) matches Some(power)
            ==> divides_exactly(DecimalView::integer(1), power, view_of(r))),
{
    if this.is_zero() && exp < 0 {
        return None;
    }
    let mut base = this;
    let mut acc = Decimal::one();
    let mut rest: u64 = if exp < 0 {
        (-(exp + 1)) as u64 + 1
    } else {
        exp as u64
    };
    let ghost whole = power_from(acc@, base@, rest as nat);
    while rest > 1
        invariant
            power_from(acc@, base@, rest as nat) == whole,
            whole == power_from(DecimalView::integer(1), this@, magnitude(exp as int)),
            !(this@.is_zero() && exp < 0),
        decreases rest,
    {
        if rest % 2 == 1 {
            acc = acc.checked_mul(&base)?;
        }
        base = base.checked_mul(&base)?;
        rest = rest / 2;
    }
    if rest == 1 {
        acc = acc.checked_mul(&base)?;
    }
    if exp < 0 {
        proof {
            law_exact_quotients(DecimalView::integer(1), acc@);
        }
        Decimal::one().checked_div(&acc)
    } else {
        Some(acc)
    }
}

/// The mantissa and the scale of a power fit, or the power is one of zero.
pub open spec fn power_fits(this: DecimalView, n: nat) -> bool {
    this.is_zero() || power::pow(this.mantissa as int, n) < MANTISSA_BOUND && this.scale * n
        <= MAX_SCALE
}

/// A power whose mantissa and scale fit is exact: `(m / 10^s)^n = m^n / 10^(s*n)`. The
/// positive powers of zero are the plain zero.
pub proof fn law_power_is_exact(this: DecimalView, n: nat)
    requires
        power_fits(this, n),
    ensures
        decimal_power(this, n as int) == Some(
            if this.is_zero() && n > 0 {
                DecimalView::integer(0)
            } else {
                DecimalView {
                    negative: this.negative && n % 2 == 1,
                    mantissa: power::pow(this.mantissa as int, n) as nat,
                    scale: this.scale * n,
                }
            },
        ),
{
    if this.is_zero() {
        lemma_powers_of_zero(DecimalView::integer(1), this, n);
        lemma_pow0(0);
        assert(this.scale * 0 == 0);
    } else {
        lemma_pow_positive(this.mantissa as int, n);
        assert(1 * power::pow(this.mantissa as int, n) == power::pow(this.mantissa as int, n));
        lemma_power_from_is_exact(DecimalView::integer(1), this, n);
    }
}

proof fn lemma_powers_of_zero(acc: DecimalView, base: DecimalView, n: nat)
    requires
        base.is_zero(),
    ensures
        power_from(acc, base, n) == Some(
            if n > 0 {
                DecimalView::integer(0)
            } else {
                acc
            },
        ),
    decreases n,
{
    if n > 1 {
        let zero = DecimalView::integer(0);
        lemma_powers_of_zero(acc, zero, n / 2);
        lemma_powers_of_zero(zero, zero, n / 2);
    }
}

proof fn lemma_power_from_is_exact(acc: DecimalView, base: DecimalView, n: nat)
    requires
        acc.mantissa > 0,
        base.mantissa > 0,
        acc.mantissa * power::pow(base.mantissa as int, n) < MANTISSA_BOUND,
        acc.scale + base.scale * n <= MAX_SCALE,
    ensures
        power_from(acc, base, n) == Some(
            DecimalView {
                negative: acc.negative != (base.negative && n % 2 == 1),
                mantissa: (acc.mantissa * power::pow(
                    base.mantissa as int,
                    n,
                )) as nat,
                scale: acc.scale + base.scale * n,
            },
        ),
    decreases n,
{
    let m = base.mantissa as int;
    let a = acc.mantissa as int;
    if n == 0 {
        lemma_pow0(m);
        assert(a * 1 == a);
        assert(base.scale * 0 == 0);
    } else if n == 1 {
        lemma_pow1(m);
        assert(a * m > 0) by (nonlinear_arith)
            requires
                a > 0,
                m > 0,
        ;
    } else {
        let half = n / 2;
        let odd = n % 2;
        lemma_halves(m, n);
        lemma_pow_positive(m, half);
        lemma_pow_positive(m, (n - 1) as nat);
        lemma_pow_positive(m, (n - 2) as nat);
        let taken_m = if odd == 1 {
            a * m
        } else {
            a
        };
        let p = power::pow(m, n);
        let p2 = power::pow(m * m, half);
        assert(a * p == taken_m * p2) by (nonlinear_arith)
            requires
                p == (if odd == 1 {
                    m * p2
                } else {
                    p2
                }),
                taken_m == (if odd == 1 {
                    a * m
                } else {
                    a
                }),
        ;
        let pm1 = power::pow(m, (n - 1) as nat);
        let pm2 = power::pow(m, (n - 2) as nat);
        assert(a * m > 0 && a * m <= a * p && m * m > 0 && m * m <= a * p) by (nonlinear_arith)
            requires
                a > 0,
                m > 0,
                pm1 > 0,
                pm2 > 0,
                p == m * pm1,
                p == m * m * pm2,
        ;
        let s = base.scale;
        assert(s * n == s * odd + (s + s) * half && s <= s * n && s + s <= s * n) by (nonlinear_arith)
            requires
                n == odd + 2 * half,
                half >= 1,
        ;
        assert(s * odd == (if odd == 1 {
            s
        } else {
            0
        })) by {
            assert(s * 0 == 0);
            assert(s * 1 == s);
        }
        let taken = decimal_product(acc, base);
        let square = decimal_product(base, base)->Some_0;
        if odd == 1 {
            lemma_power_from_is_exact(taken->Some_0, square, half);
        } else {
            lemma_power_from_is_exact(acc, square, half);
        }
    }
}

proof fn lemma_halves(m: int, n: nat)
    requires
        n >= 2,
    ensures
        power::pow(m, n) == (if n % 2 == 1 {
            m * power::pow(m * m, n / 2)
        } else {
            power::pow(m * m, n / 2)
        }),
        power::pow(m, n) == m * power::pow(m, (n - 1) as nat),
        power::pow(m, n) == m * m * power::pow(
            m,
            (n - 2) as nat,
        ),
{
    lemma_pow1(m);
    lemma_pow_adds(m, 1, 1);
    lemma_pow_multiplies(m, 2, n / 2);
    assert(power::pow(m, 2) == m * m);
    if n % 2 == 1 {
        lemma_pow_adds(m, 1, (2 * (n / 2)) as nat);
    }
    lemma_pow_adds(m, 1, (n - 1) as nat);
    lemma_pow_adds(m, 2, (n - 2) as nat);
}

/// The zeroth power of every number is one, and the first power of a number that is not zero
/// is the number.
pub proof fn law_first_powers(this: DecimalView)
    requires
        this.valid(),
    ensures
        decimal_power(this, 0) == Some(DecimalView::integer(1)),
        !this.is_zero() ==> decimal_power(this, 1) == Some(this),
{
    assert(1 * this.mantissa == this.mantissa);
}

/// A negative power is the reciprocal of the positive one, and zero has none.
pub proof fn law_negative_powers(this: DecimalView, n: nat)
    requires
        n > 0,
    ensures
        this.is_zero() ==> decimal_power(this, -n) is None,
        !this.is_zero() ==> decimal_power(this, -n) == (match decimal_power(this, n as int) {
            Some(power) => decimal_quotient(DecimalView::integer(1), power),
            None => None,
        }),
{
}

/// Exponents add up when exact powers are multiplied.
pub proof fn law_exponents_add_up(this: DecimalView, m: nat, n: nat)
    requires
        power_fits(this, m + n),
    ensures
        decimal_power(this, m as int) matches Some(p) && decimal_power(this, n as int) matches Some(
            q,
        ) && decimal_product(p, q) == decimal_power(this, (m + n) as int),
{
    if !this.is_zero() {
        let b = this.mantissa as int;
        let s = this.scale;
        lemma_pow_adds(b, m, n);
        lemma_pow_positive(b, m);
        lemma_pow_positive(b, n);
        let (x, y) = (power::pow(b, m), power::pow(b, n));
        assert(x <= x * y && y <= x * y) by (nonlinear_arith)
            requires
                x > 0,
                y > 0,
        ;
        assert(s * (m + n) == s * m + s * n) by (nonlinear_arith);
    } else {
        lemma_pow0(0);
        assert(this.scale * 0 == 0);
        let one = DecimalView::integer(1);
        assert(one.mantissa == 1);
        assert(one.mantissa * one.mantissa == 1) by (nonlinear_arith)
            requires
                one.mantissa == 1,
        ;
    }
    law_power_is_exact(this, m);
    law_power_is_exact(this, n);
    law_power_is_exact(this, m + n);
}

/// An integer power that does not fit in the mantissa has no answer.
pub proof fn law_power_overflows(this: DecimalView, n: nat)
    requires
        this.valid(),
        this.scale == 0,
        power::pow(this.mantissa as int, n) >= MANTISSA_BOUND,
    ensures
        decimal_power(this, n as int) is None,
{
    if this.mantissa == 0 {
        if n > 0 {
            reveal(power::pow);
        } else {
            lemma_pow0(0);
        }
    } else {
        assert(1 * power::pow(this.mantissa as int, n) == power::pow(this.mantissa as int, n));
        lemma_power_from_overflows(DecimalView::integer(1), this, n);
    }
}

proof fn lemma_power_from_overflows(acc: DecimalView, base: DecimalView, n: nat)
    requires
        acc.valid() && acc.mantissa > 0 && acc.scale == 0,
        base.valid() && base.mantissa > 0 && base.scale == 0,
        acc.mantissa * power::pow(base.mantissa as int, n) >= MANTISSA_BOUND,
    ensures
        power_from(acc, base, n) is None,
    decreases n,
{
    let m = base.mantissa as int;
    let a = acc.mantissa as int;
    lemma_pow0(10);
    assert(MANTISSA_BOUND * ten_to(0) == MANTISSA_BOUND);
    if n == 0 {
        lemma_pow0(m);
        assert(a * 1 == a);
    } else if n == 1 {
        lemma_pow1(m);
    } else {
        let half = n / 2;
        lemma_halves(m, n);
        let p2 = power::pow(m * m, half);
        assert(a * (m * p2) == (a * m) * p2) by (nonlinear_arith);
        assert(a * m > 0 && m * m > 0) by (nonlinear_arith)
            requires
                a > 0,
                m > 0,
        ;
        let taken = if n % 2 == 1 {
            decimal_product(acc, base)
        } else {
            Some(acc)
        };
        let square = decimal_product(base, base);
        if taken is Some && square is Some {
            lemma_power_from_overflows(taken->Some_0, square->Some_0, half);
        }
    }
}

} // verus!
