//! What units are worth, and what that makes of the numbers measured in them.
use crate::decimal::decimal_product;
use crate::decimal::decimal_quotient;
use crate::decimal::magnitude;
use crate::decimal::DecimalView;
use crate::division::quotient;
use crate::exact::divides_evenly;
use crate::exact::law_number_of_integer;
use crate::exact::law_number_of_zero;
use crate::exact::law_product_is_exact;
use crate::exact::law_quotient_is_exact;
use crate::exact::multiplies_exactly;
use crate::exact::number;
use crate::operation::converted;
use crate::operation::with_unit;
use crate::power::decimal_power;
use crate::power::power_fits;
use crate::power_laws::copies;
use crate::power_laws::law_negative_powers_are_reciprocals;
use crate::power_laws::law_powers_multiply_copies;
use crate::scalar_laws::as_number;
use crate::scalar_laws::decimal_in;
use crate::scalar_laws::decimal_in_answer;
use crate::scalar_laws::has_no_token;
use crate::scalar_laws::hundredth_of;
use crate::scalar_laws::integer;
use crate::scalar_laws::is_measured_in;
use crate::scalar_laws::is_power_of_unit;
use crate::scalar_laws::is_product_of_units;
use crate::scalar_laws::law_units_combine;
use crate::scalar_laws::number_in;
use crate::units::FactorView;
use crate::units::UnitView;
use crate::value::ResultView;
use crate::value::ValueView;
use vstd::prelude::*;

verus! {

/// `x` to the power of `p`, be it negative or not.
pub open spec fn to_the_power(x: real, p: int) -> real {
    if p >= 0 {
        copies(x, p as nat)
    } else {
        1 as real / copies(x, (-p) as nat)
    }
}

/// How many base units a factor is worth: the power of its value and its prefix together.
pub open spec fn factor_worth(f: FactorView) -> real {
    to_the_power(number(f.value) * number(f.prefix), f.power)
}

/// How many base units the first `n` factors of a unit are worth.
pub open spec fn worth_of_first(u: UnitView, n: nat) -> real
    decreases n,
{
    if n == 0 {
        1 as real
    } else {
        worth_of_first(u, (n - 1) as nat) * factor_worth(u.factors[n - 1])
    }
}

/// How many base units a unit is worth.
pub open spec fn unit_worth(u: UnitView) -> real {
    worth_of_first(u, u.factors.len())
}

/// The value and the prefix of a factor together.
pub open spec fn factor_scale(f: FactorView) -> DecimalView {
    decimal_product(f.value, f.prefix)->Some_0
}

/// What a factor is worth can be held without rounding, and is not zero.
pub open spec fn factor_is_exact(f: FactorView) -> bool {
    &&& multiplies_exactly(f.value, f.prefix)
    &&& !factor_scale(f).is_zero()
    &&& power_fits(factor_scale(f), magnitude(f.power))
    &&& f.power < 0 ==> divides_evenly(
        DecimalView::integer(1),
        decimal_power(factor_scale(f), -f.power)->Some_0,
    )
}

/// `num` of the first `n` factors can be held in base units without rounding.
pub open spec fn is_held_in_base(u: UnitView, num: DecimalView, n: nat) -> bool
    decreases n,
{
    n == 0 || {
        &&& is_held_in_base(u, num, (n - 1) as nat)
        &&& factor_is_exact(u.factors[n - 1])
        &&& multiplies_exactly(
            u.to_base(num, (n - 1) as nat)->Some_0,
            u.factors[n - 1].worth()->Some_0,
        )
    }
}

/// `num` base units can be counted in the first `n` factors without rounding.
pub open spec fn is_counted(u: UnitView, num: DecimalView, n: nat) -> bool
    decreases n,
{
    n == 0 || {
        &&& is_counted(u, num, (n - 1) as nat)
        &&& factor_is_exact(u.factors[n - 1])
        &&& divides_evenly(
            u.from_base(num, (n - 1) as nat)->Some_0,
            u.factors[n - 1].worth()->Some_0,
        )
    }
}

proof fn lemma_copies_are_not_zero(x: real, n: nat)
    requires
        x != 0 as real,
    ensures
        copies(x, n) != 0 as real,
    decreases n,
{
    if n > 0 {
        lemma_copies_are_not_zero(x, (n - 1) as nat);
        let y = copies(x, (n - 1) as nat);
        assert(x * y != 0 as real) by (nonlinear_arith)
            requires
                x != 0 as real,
                y != 0 as real,
        ;
    }
}

/// The worth of a factor stands for the power of its value and its prefix together.
pub proof fn law_worth_of_factors(f: FactorView)
    requires
        factor_is_exact(f),
    ensures
        f.worth() matches Some(w) && number(w) == factor_worth(f),
        factor_worth(f) != 0 as real,
        number(f.value) * number(f.prefix) != 0 as real,
{
    law_product_is_exact(f.value, f.prefix);
    let s = factor_scale(f);
    law_number_of_zero(s);
    let x = number(s);
    lemma_copies_are_not_zero(x, magnitude(f.power));
    let c = copies(x, magnitude(f.power));
    if f.power >= 0 {
        law_powers_multiply_copies(s, f.power as nat);
    } else {
        law_negative_powers_are_reciprocals(s, magnitude(f.power));
        let w = number(f.worth()->Some_0);
        assert(w == 1 as real / c && 1 as real / c != 0 as real) by (nonlinear_arith)
            requires
                w * c == 1 as real,
                c != 0 as real,
        ;
    }
}

/// `num` of a unit are `num` times its worth in base units.
pub proof fn law_units_are_worth_base_units(u: UnitView, num: DecimalView, n: nat)
    requires
        is_held_in_base(u, num, n),
    ensures
        u.to_base(num, n) matches Some(base) && number(base) == number(num) * worth_of_first(u, n),
    decreases n,
{
    if n == 0 {
        let x = number(num);
        assert(x * 1 as real == x) by (nonlinear_arith);
    } else {
        law_units_are_worth_base_units(u, num, (n - 1) as nat);
        law_worth_of_factors(u.factors[n - 1]);
        let before = u.to_base(num, (n - 1) as nat)->Some_0;
        law_product_is_exact(before, u.factors[n - 1].worth()->Some_0);
        let (x, y, z) = (
            number(num),
            worth_of_first(u, (n - 1) as nat),
            factor_worth(u.factors[n - 1]),
        );
        assert((x * y) * z == x * (y * z)) by (nonlinear_arith);
    }
}

/// The number of units that base units are, times the worth of the unit, are the base units.
pub proof fn law_base_units_are_counted(u: UnitView, num: DecimalView, n: nat)
    requires
        is_counted(u, num, n),
    ensures
        u.from_base(num, n) matches Some(count) && number(count) * worth_of_first(u, n) == number(
            num,
        ),
        worth_of_first(u, n) != 0 as real,
    decreases n,
{
    if n == 0 {
        let x = number(num);
        assert(x * 1 as real == x) by (nonlinear_arith);
    } else {
        law_base_units_are_counted(u, num, (n - 1) as nat);
        law_worth_of_factors(u.factors[n - 1]);
        let before = u.from_base(num, (n - 1) as nat)->Some_0;
        law_quotient_is_exact(before, u.factors[n - 1].worth()->Some_0);
        let count = number(u.from_base(num, n)->Some_0);
        let (x, y, z) = (
            number(num),
            worth_of_first(u, (n - 1) as nat),
            factor_worth(u.factors[n - 1]),
        );
        assert(count * (y * z) == x && y * z != 0 as real) by (nonlinear_arith)
            requires
                number(before) * y == x,
                count * z == number(before),
                y != 0 as real,
                z != 0 as real,
        ;
    }
}

/// A unit raised to minus one is worth the reciprocal.
pub proof fn law_worth_of_inverse(w: UnitView, u: UnitView, n: nat)
    requires
        is_power_of_unit(w, u, -1),
        n <= u.factors.len(),
        forall|i: int| 0 <= i < n ==> factor_is_exact(#[trigger] w.factors[i]),
    ensures
        worth_of_first(w, n) * worth_of_first(u, n) == 1 as real,
    decreases n,
{
    if n == 0 {
        assert(1 as real * 1 as real == 1 as real) by (nonlinear_arith);
    } else {
        law_worth_of_inverse(w, u, (n - 1) as nat);
        let (f, g) = (w.factors[n - 1], u.factors[n - 1]);
        law_worth_of_factors(f);
        let x = number(f.value) * number(f.prefix);
        lemma_copies_are_not_zero(x, magnitude(f.power));
        assert(f.power == g.power * -1);
        let c = copies(x, magnitude(f.power));
        assert(factor_worth(f) * factor_worth(g) == 1 as real) by {
            assert(c * (1 as real / c) == 1 as real && (1 as real / c) * c == 1 as real)
                by (nonlinear_arith)
                requires
                    c != 0 as real,
            ;
            assert(1 as real * 1 as real == 1 as real) by (nonlinear_arith);
        }
        let (a, b, p, q) = (
            worth_of_first(w, (n - 1) as nat),
            worth_of_first(u, (n - 1) as nat),
            factor_worth(f),
            factor_worth(g),
        );
        assert((a * p) * (b * q) == 1 as real) by (nonlinear_arith)
            requires
                a * b == 1 as real,
                p * q == 1 as real,
        ;
    }
}

proof fn lemma_held_factors(u: UnitView, num: DecimalView, n: nat)
    requires
        is_held_in_base(u, num, n),
    ensures
        forall|i: int| 0 <= i < n ==> factor_is_exact(#[trigger] u.factors[i]),
    decreases n,
{
    if n > 0 {
        lemma_held_factors(u, num, (n - 1) as nat);
    }
}

/// `5 km`: a number with a unit behind it is held as the number of base units, and stands for
/// both tokens. Where the dimensions of the unit cancel out it is a number, which stands for
/// its own token alone.
pub proof fn law_numbers_take_on_units(num: DecimalView, u: UnitView, i: usize, j: usize)
    ensures
        with_unit(num, u, i, j) matches Some(s) ==> is_measured_in(s.typ, u) && s.index == i && (
        if s.typ is Number {
            s.index2 is None
        } else {
            s.index2 == Some(j)
        }),
        match with_unit(num, u, i, j) {
            Some(s) => u.normalized(num) == Some(decimal_in(s.typ)),
            None => u.normalized(num) is None,
        },
        is_held_in_base(u, num, u.factors.len()) ==> (with_unit(num, u, i, j) matches Some(s)
            && number_in(s) == number(num) * unit_worth(u)),
{
    if is_held_in_base(u, num, u.factors.len()) {
        law_units_are_worth_base_units(u, num, u.factors.len());
    }
}

/// A quantity converts to exactly the units that measure the same thing. It keeps its size in
/// base units and takes on the unit; nothing but a quantity or a matrix converts, and to
/// nothing but a unit.
pub proof fn law_conversion_keeps_the_size(l: ResultView, r: ResultView)
    requires
        l.typ !is Matrix,
    ensures
        converted(l, r) is Some <==> (l.typ matches ValueView::Quantity(_, u) && r.typ matches
            ValueView::Unit(v) && u.dimensions == v.dimensions),
        converted(l, r) matches Some(s) ==> has_no_token(s) && (s.typ matches ValueView::Quantity(
            n,
            w,
        ) && n == decimal_in(l.typ) && ValueView::Unit(w) == r.typ),
{
}

/// `12 / year`: a number per unit is a quantity in the inverse of the unit. Its size in base
/// units times the worth of the unit is the number.
pub proof fn law_numbers_per_unit(l: ResultView, r: ResultView)
    requires
        l.typ is Number,
        r.typ is Unit,
    ensures
        quotient(l, r) matches Some(s) ==> has_no_token(s) && exists|w: UnitView| #[trigger]
            is_power_of_unit(w, r.typ->Unit_0, -1) && is_measured_in(s.typ, w),
        r.typ->Unit_0.power(-1) matches Some(w) ==> (is_held_in_base(
            w,
            decimal_in(l.typ),
            w.factors.len(),
        ) ==> (quotient(l, r) matches Some(s) && number_in(s) * unit_worth(r.typ->Unit_0)
            == number_in(l))),
{
    let v = r.typ->Unit_0;
    law_units_combine(v, v, -1);
    if let Some(w) = v.power(-1) {
        assert(is_power_of_unit(w, v, -1));
        let a = decimal_in(l.typ);
        if is_held_in_base(w, a, w.factors.len()) {
            lemma_per_unit(a, w, v);
        }
    }
}

proof fn lemma_per_unit(a: DecimalView, w: UnitView, v: UnitView)
    requires
        is_power_of_unit(w, v, -1),
        is_held_in_base(w, a, w.factors.len()),
    ensures
        w.normalized(a) matches Some(s) && number(s) * unit_worth(v) == number(a),
        unit_worth(w) * unit_worth(v) == 1 as real,
        number(w.normalized(a)->Some_0) == number(a) * unit_worth(w),
{
    law_units_are_worth_base_units(w, a, w.factors.len());
    lemma_held_factors(w, a, w.factors.len());
    law_worth_of_inverse(w, v, w.factors.len());
    let (x, y, z) = (number(a), unit_worth(w), unit_worth(v));
    assert((x * y) * z == x) by (nonlinear_arith)
        requires
            y * z == 1 as real,
    ;
}

/// `5% / year`: a percentage per unit is a hundredth of the number per unit.
pub proof fn law_percentages_per_unit(l: ResultView, r: ResultView)
    requires
        l.typ is Percentage,
        r.typ is Unit,
    ensures
        quotient(l, r) matches Some(s) ==> has_no_token(s) && exists|w: UnitView| #[trigger]
            is_power_of_unit(w, r.typ->Unit_0, -1) && is_measured_in(s.typ, w),
        r.typ->Unit_0.power(-1) matches Some(w) ==> (divides_evenly(
            decimal_in(l.typ),
            DecimalView::integer(100),
        ) && is_held_in_base(w, hundredth_of(decimal_in(l.typ)), w.factors.len()) ==> (quotient(
            l,
            r,
        ) matches Some(s) && number_in(s) * unit_worth(r.typ->Unit_0) * 100 as real == number_in(
            l,
        ))),
{
    let v = r.typ->Unit_0;
    law_units_combine(v, v, -1);
    if let Some(w) = v.power(-1) {
        assert(is_power_of_unit(w, v, -1));
        let a = decimal_in(l.typ);
        if divides_evenly(a, DecimalView::integer(100)) && is_held_in_base(
            w,
            hundredth_of(a),
            w.factors.len(),
        ) {
            law_number_of_integer(100);
            law_quotient_is_exact(a, DecimalView::integer(100));
            lemma_per_unit(hundredth_of(a), w, v);
        }
    }
}

/// `100 / 2km`: a number per quantity is a quantity in the inverse of the unit, and times the
/// quantity, both in base units, it is the number.
pub proof fn law_numbers_per_quantity(l: ResultView, r: ResultView)
    requires
        l.typ is Number,
        r.typ is Quantity,
    ensures
        quotient(l, r) matches Some(s) ==> has_no_token(s) && exists|w: UnitView| #[trigger]
            is_power_of_unit(w, r.typ->Quantity_1, -1) && is_measured_in(s.typ, w),
        r.typ->Quantity_1.power(-1) matches Some(w) ==> (is_counted(
            r.typ->Quantity_1,
            decimal_in(r.typ),
            w.factors.len(),
        ) && divides_evenly(
            decimal_in(l.typ),
            r.typ->Quantity_1.denormalized(decimal_in(r.typ))->Some_0,
        ) && is_held_in_base(
            w,
            decimal_quotient(
                decimal_in(l.typ),
                r.typ->Quantity_1.denormalized(decimal_in(r.typ))->Some_0,
            )->Some_0,
            w.factors.len(),
        ) ==> (quotient(l, r) matches Some(s) && number_in(s) * number_in(r) == number_in(l))),
{
    let v = r.typ->Quantity_1;
    let (a, b) = (decimal_in(l.typ), decimal_in(r.typ));
    law_units_combine(v, v, -1);
    if let Some(w) = v.power(-1) {
        assert(is_power_of_unit(w, v, -1));
        let n = w.factors.len();
        if is_counted(v, b, n) {
            law_base_units_are_counted(v, b, n);
            let count = v.denormalized(b)->Some_0;
            if divides_evenly(a, count) {
                law_quotient_is_exact(a, count);
                let q = decimal_quotient(a, count)->Some_0;
                if is_held_in_base(w, q, n) {
                    lemma_per_unit(q, w, v);
                    let s = number(w.normalized(q)->Some_0);
                    let (x, y, c, z, t) = (
                        number(a),
                        number(b),
                        number(count),
                        number(q),
                        unit_worth(v),
                    );
                    assert(s * y == x) by (nonlinear_arith)
                        requires
                            s * t == z,
                            c * t == y,
                            z * c == x,
                    ;
                }
            }
        }
    }
}

/// `12km / h`: a quantity per unit is the quantity in the quotient of the units; per a unit
/// that measures the same thing, it is the number of its own units.
pub proof fn law_quantities_per_unit(l: ResultView, r: ResultView)
    requires
        l.typ is Quantity,
        r.typ is Unit,
        l.typ->Quantity_1.dimensions.len() == r.typ->Unit_0.dimensions.len(),
    ensures
        quotient(l, r) matches Some(s) ==> has_no_token(s),
        quotient(l, r) matches Some(s) ==> if l.typ->Quantity_1.dimensions
            == r.typ->Unit_0.dimensions {
            s.typ is Number
        } else {
            s.typ matches ValueView::Quantity(n, w) && n == decimal_in(l.typ) && (
            r.typ->Unit_0.power(-1) matches Some(inverse) && is_product_of_units(
                w,
                l.typ->Quantity_1,
                inverse,
            ))
        },
        l.typ->Quantity_1.quotient(r.typ->Unit_0) is Some && l.typ->Quantity_1.dimensions
            == r.typ->Unit_0.dimensions && is_counted(
            l.typ->Quantity_1,
            decimal_in(l.typ),
            l.typ->Quantity_1.factors.len(),
        ) ==> (quotient(l, r) matches Some(s) && number_in(s) * unit_worth(l.typ->Quantity_1)
            == number_in(l)),
{
    let (a, u) = (decimal_in(l.typ), l.typ->Quantity_1);
    let v = r.typ->Unit_0;
    law_units_combine(u, v, -1);
    law_units_combine(v, v, -1);
    if let Some(w) = u.quotient(v) {
        let inverse = v.power(-1)->Some_0;
        assert(is_product_of_units(w, u, inverse));
        assert forall|i: int| 0 <= i < w.dimensions.len() implies #[trigger] w.dimensions[i]
            == u.dimensions[i] - v.dimensions[i] by {
            assert(inverse.dimensions[i] == v.dimensions[i] * -1);
        }
        if w.is_unitless() {
            assert forall|i: int| 0 <= i < u.dimensions.len() implies u.dimensions[i]
                == v.dimensions[i] by {
                assert(w.dimensions[i] == 0);
            }
            assert(u.dimensions =~= v.dimensions);
        }
        if is_counted(u, a, u.factors.len()) {
            law_base_units_are_counted(u, a, u.factors.len());
        }
    }
}

/// Numbers of a product of units are measured first in the one and then in the other, whether
/// they are rounded or not; those of a unit without factors stay as they are.
pub proof fn law_units_are_measured_one_by_one(
    w: UnitView,
    u: UnitView,
    v: UnitView,
    num: DecimalView,
)
    ensures
        w.factors == u.factors + v.factors ==> w.normalized(num) == (match u.normalized(num) {
            Some(n) => v.normalized(n),
            None => None,
        }),
        w.factors == u.factors + v.factors ==> w.denormalized(num) == (match u.denormalized(num) {
            Some(n) => v.denormalized(n),
            None => None,
        }),
        u.factors.len() == 0 ==> u.normalized(num) == Some(num) && u.denormalized(num) == Some(num),
{
    if w.factors == u.factors + v.factors {
        lemma_first_factors(w, u, num, u.factors.len());
        lemma_last_factors(w, u, v, num, v.factors.len());
    }
}

proof fn lemma_first_factors(w: UnitView, u: UnitView, num: DecimalView, n: nat)
    requires
        n <= u.factors.len() <= w.factors.len(),
        forall|i: int| 0 <= i < u.factors.len() ==> #[trigger] w.factors[i] == u.factors[i],
    ensures
        w.to_base(num, n) == u.to_base(num, n),
        w.from_base(num, n) == u.from_base(num, n),
    decreases n,
{
    if n > 0 {
        lemma_first_factors(w, u, num, (n - 1) as nat);
        assert(w.factors[n - 1] == u.factors[n - 1]);
    }
}

proof fn lemma_last_factors(w: UnitView, u: UnitView, v: UnitView, num: DecimalView, n: nat)
    requires
        w.factors == u.factors + v.factors,
        n <= v.factors.len(),
        w.to_base(num, u.factors.len()) == u.normalized(num),
        w.from_base(num, u.factors.len()) == u.denormalized(num),
    ensures
        w.to_base(num, u.factors.len() + n) == (match u.normalized(num) {
            Some(base) => v.to_base(base, n),
            None => None,
        }),
        w.from_base(num, u.factors.len() + n) == (match u.denormalized(num) {
            Some(count) => v.from_base(count, n),
            None => None,
        }),
    decreases n,
{
    if n > 0 {
        lemma_last_factors(w, u, v, num, (n - 1) as nat);
        assert(w.factors[u.factors.len() + n - 1] == v.factors[n - 1]);
    }
}

/// A number of a unit with one factor is multiplied by the power of its value and its prefix
/// together, and divided by it on the way back, whether that is rounded or not.
pub proof fn law_single_factors(u: UnitView, num: DecimalView)
    requires
        u.factors.len() == 1,
    ensures
        ({
            let f = u.factors[0];
            match decimal_product(f.value, f.prefix) {
                Some(scale) => match decimal_power(scale, f.power) {
                    Some(worth) => u.normalized(num) == decimal_product(num, worth)
                        && u.denormalized(num) == decimal_quotient(num, worth),
                    None => u.normalized(num) is None && u.denormalized(num) is None,
                },
                None => u.normalized(num) is None && u.denormalized(num) is None,
            }
        }),
{
    reveal_with_fuel(UnitView::to_base, 2);
    reveal_with_fuel(UnitView::from_base, 2);
}

/// Rates round as the calculations do that they stand for: a number per unit is measured in
/// the inverse unit, a percentage per unit is `p / 100` per unit, a number per quantity is
/// divided by the number of its units first, and a quantity per a unit that measures the same
/// is counted in its own unit.
pub proof fn law_rates_stand_for_calculations(l: ResultView, r: ResultView)
    ensures
        l.typ is Number && r.typ is Unit ==> decimal_in_answer(quotient(l, r)) == (
        match r.typ->Unit_0.power(-1) {
            Some(w) => w.normalized(decimal_in(l.typ)),
            None => None,
        }),
        l.typ is Percentage && r.typ is Unit ==> quotient(l, r) == (match quotient(
            as_number(l),
            integer(100),
        ) {
            Some(x) => quotient(x, r),
            None => None,
        }),
        l.typ is Number ==> (r.typ matches ValueView::Quantity(b, v) ==> quotient(l, r) == (
        match v.denormalized(b) {
            Some(count) => match quotient(
                l,
                ResultView { typ: ValueView::Number(count), index: 0, index2: None },
            ) {
                Some(x) => quotient(
                    x,
                    ResultView { typ: ValueView::Unit(v), index: 0, index2: None },
                ),
                None => None,
            },
            None => None,
        })),
        l.typ matches ValueView::Quantity(a, u) ==> (r.typ matches ValueView::Unit(v) ==> match (
            u.quotient(v),
            quotient(l, r),
        ) {
            (Some(w), Some(s)) => if s.typ is Number {
                u.denormalized(a) == Some(decimal_in(s.typ))
            } else {
                decimal_in(s.typ) == a
            },
            (Some(w), None) => u.denormalized(a) is None,
            (None, answer) => answer is None,
        }),
{
}

} // verus!
