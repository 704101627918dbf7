//! Laws of units.
use crate::decimal::DecimalView;
use crate::decimal::MANTISSA_BOUND;
use crate::decimal::MAX_SCALE;
use crate::units::UnitView;
use vstd::arithmetic::div_mod::lemma_div_multiples_vanish;
use vstd::arithmetic::div_mod::lemma_mod_multiples_basic;
use vstd::prelude::*;

verus! {

/// The dimensions of a product are the sums of the dimensions, those of a quotient their
/// differences, and those of a power their multiples.
pub proof fn law_dimensions_of_combined_units(u: UnitView, v: UnitView, p: int, i: int)
    requires
        u.valid(),
        v.valid(),
        0 <= i < u.dimensions.len(),
    ensures
        u.product(v) matches Some(w) ==> w.valid() && w.dimensions[i] == u.dimensions[i]
            + v.dimensions[i],
        u.quotient(v) matches Some(w) ==> w.valid() && w.dimensions[i] == u.dimensions[i]
            - v.dimensions[i],
        u.power(p) matches Some(w) ==> w.valid() && w.dimensions[i] == u.dimensions[i] * p,
{
}

/// Two units have the same dimensions if and only if their quotient has none.
pub proof fn law_quotient_of_equal_dimensions(u: UnitView, v: UnitView)
    requires
        u.valid(),
        v.valid(),
        u.quotient(v) is Some,
    ensures
        u.quotient(v)->Some_0.is_unitless() <==> u.dimensions == v.dimensions,
{
    let w = u.quotient(v)->Some_0;
    assert forall|i: int| 0 <= i < u.dimensions.len() implies w.dimensions[i] == u.dimensions[i]
        - v.dimensions[i] by {
        law_dimensions_of_combined_units(u, v, 1, i);
    }
    if w.is_unitless() {
        assert forall|i: int| 0 <= i < u.dimensions.len() implies u.dimensions[i]
            == v.dimensions[i] by {
            assert(w.dimensions[i] == 0);
        }
        assert(u.dimensions =~= v.dimensions);
    }
}

/// The inverse of the inverse of a unit is the unit.
pub proof fn law_inverse_undoes_itself(u: UnitView)
    requires
        u.fits(),
        u.power(-1) is Some,
    ensures
        u.power(-1)->Some_0.power(-1) == Some(u),
{
    let twice = u.raised(-1).raised(-1);
    assert(twice.factors =~= u.factors) by {
        assert forall|i: int| 0 <= i < u.factors.len() implies twice.factors[i]
            == u.factors[i] by {
            assert(u.factors[i].power * -1 * -1 == u.factors[i].power);
        }
    }
    assert(twice.dimensions =~= u.dimensions);
    assert(twice =~= u);
}

/// The first power of a unit is the unit, and the zeroth power has no dimensions.
pub proof fn law_small_powers(u: UnitView)
    requires
        u.fits(),
    ensures
        u.power(1) == Some(u),
        u.power(0) matches Some(w) && w.is_unitless(),
{
    assert(u.raised(1) =~= u) by {
        assert forall|i: int| 0 <= i < u.factors.len() implies u.raised(1).factors[i]
            == u.factors[i] by {
            assert(u.factors[i].power * 1 == u.factors[i].power);
        }
        assert forall|i: int| 0 <= i < u.dimensions.len() implies u.raised(1).dimensions[i]
            == u.dimensions[i] by {
            assert(u.dimensions[i] * 1 == u.dimensions[i]);
        }
    }
    let w = u.raised(0);
    assert forall|i: int| 0 <= i < w.factors.len() implies (#[trigger] w.factors[i]).power == 0 by {
        assert(u.factors[i].power * 0 == 0);
    }
    assert forall|i: int| 0 <= i < w.dimensions.len() implies #[trigger] w.dimensions[i] == 0 by {
        assert(u.dimensions[i] * 0 == 0);
    }
}

/// The worth of the factors from the `k`-th on, multiplied without rounding.
pub open spec fn exact_worth(u: UnitView, k: nat) -> DecimalView
    decreases u.factors.len() - k,
{
    if k >= u.factors.len() {
        DecimalView::integer(1)
    } else {
        let first = u.factors[k as int].worth()->Some_0;
        let rest = exact_worth(u, k + 1);
        DecimalView {
            negative: first.negative != rest.negative,
            mantissa: first.mantissa * rest.mantissa,
            scale: first.scale + rest.scale,
        }
    }
}

/// `num` of a unit can be held in base units without rounding.
pub open spec fn is_held_exactly(u: UnitView, num: DecimalView) -> bool {
    &&& !num.is_zero()
    &&& forall|i: int|
        0 <= i < u.factors.len() ==> ((#[trigger] u.factors[i]).worth() matches Some(worth)
            && !worth.is_zero())
    &&& num.mantissa * exact_worth(u, 0).mantissa < MANTISSA_BOUND
    &&& num.scale + exact_worth(u, 0).scale <= MAX_SCALE
}

/// A number of units that is held exactly in base units comes back from them unchanged.
pub proof fn law_number_of_units_comes_back(u: UnitView, num: DecimalView)
    requires
        is_held_exactly(u, num),
    ensures
        u.normalized(num) matches Some(base) && u.denormalized(base) == Some(num),
{
    lemma_to_base(u, num, u.factors.len());
    let base = u.normalized(num)->Some_0;
    assert(base.mantissa * 1 == base.mantissa);
    lemma_from_base(u, num, base, u.factors.len());
    assert(num.mantissa * 1 == num.mantissa);
}

/// What remains of `total`, which is `num` times all factors, when the first `k` are gone.
spec fn remaining(u: UnitView, num: DecimalView, k: nat) -> DecimalView {
    let rest = exact_worth(u, k);
    DecimalView {
        negative: num.negative != rest.negative,
        mantissa: num.mantissa * rest.mantissa,
        scale: num.scale + rest.scale,
    }
}

proof fn lemma_worth_is_positive(u: UnitView, k: nat)
    requires
        forall|i: int|
            0 <= i < u.factors.len() ==> ((#[trigger] u.factors[i]).worth() matches Some(worth)
                && !worth.is_zero()),
    ensures
        exact_worth(u, k).mantissa > 0,
    decreases u.factors.len() - k,
{
    if k < u.factors.len() {
        lemma_worth_is_positive(u, k + 1);
        let first = u.factors[k as int].worth()->Some_0.mantissa;
        let rest = exact_worth(u, k + 1).mantissa;
        assert(first * rest > 0) by (nonlinear_arith)
            requires
                first > 0,
                rest > 0,
        ;
    }
}

/// Multiplying by the first `n` factors, and then by the rest, is multiplying by all.
proof fn lemma_to_base(u: UnitView, num: DecimalView, n: nat)
    requires
        is_held_exactly(u, num),
        n <= u.factors.len(),
    ensures
        u.to_base(num, n) matches Some(base) && base.mantissa > 0 && base.mantissa * exact_worth(
            u,
            n,
        ).mantissa == num.mantissa * exact_worth(u, 0).mantissa && base.scale + exact_worth(
            u,
            n,
        ).scale == num.scale + exact_worth(u, 0).scale && (base.negative != exact_worth(
            u,
            n,
        ).negative) == (num.negative != exact_worth(u, 0).negative),
    decreases n,
{
    if n > 0 {
        let k = (n - 1) as nat;
        lemma_to_base(u, num, k);
        let before = u.to_base(num, k)->Some_0;
        let worth = u.factors[k as int].worth()->Some_0;
        assert(u.factors[k as int].worth() is Some && !worth.is_zero());
        lemma_worth_is_positive(u, n);
        let rest = exact_worth(u, n).mantissa;
        let (b, w) = (before.mantissa, worth.mantissa);
        assert(b * (w * rest) == (b * w) * rest) by (nonlinear_arith);
        assert(b * w <= (b * w) * rest && b * w > 0) by (nonlinear_arith)
            requires
                b > 0,
                w > 0,
                rest > 0,
        ;
    }
}

/// Dividing by the first `n` factors takes them away.
proof fn lemma_from_base(u: UnitView, num: DecimalView, base: DecimalView, n: nat)
    requires
        is_held_exactly(u, num),
        base == remaining(u, num, 0),
        n <= u.factors.len(),
    ensures
        u.from_base(base, n) == Some(remaining(u, num, n)),
    decreases n,
{
    if n > 0 {
        let k = (n - 1) as nat;
        lemma_from_base(u, num, base, k);
        let before = remaining(u, num, k);
        let worth = u.factors[k as int].worth()->Some_0;
        assert(u.factors[k as int].worth() is Some && !worth.is_zero());
        lemma_worth_is_positive(u, k);
        lemma_worth_is_positive(u, n);
        let rest = exact_worth(u, n).mantissa as int;
        let (m, w) = (num.mantissa as int, worth.mantissa as int);
        assert(m * (w * rest) == (m * rest) * w && m * (w * rest) == w * (m * rest)) by (nonlinear_arith);
        assert(m * (w * rest) > 0) by (nonlinear_arith)
            requires
                m > 0,
                w > 0,
                rest > 0,
        ;
        lemma_mod_multiples_basic(m * rest, w);
        lemma_div_multiples_vanish(m * rest, w);
    }
}

} // verus!
