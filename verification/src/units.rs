//! Units of measurement: products of powers of scaled units, with their dimensions.
use crate::decimal::decimal_product;
use crate::decimal::decimal_quotient;
use crate::decimal::view_of;
use crate::decimal::Decimal;
use crate::decimal::DecimalView;
use crate::power::decimal_power;
use crate::power::pow;
use vstd::prelude::*;
use vstd::std_specs::cmp::PartialEqSpecImpl;

verus! {

/// The number of base dimensions (mass, length, time and so on, money among them).
pub const DIMENSION_COUNT: usize = 10;

/// Quantities are multiplied and divided only while their units, taken together, stay below
/// this number.
pub const MAX_UNIT_COUNT: usize = 8;

/// One factor of a unit, such as the `km` and the `h^-1` of `km/h`.
#[derive(Clone, Copy, Debug)]
pub struct UnitInstance {
    /// Which unit of the caller's table of units this is.
    pub id: u32,
    /// How many base units one such unit is worth.
    pub value: Decimal,
    /// What the prefix multiplies it by.
    pub prefix: Decimal,
    pub power: i64,
}

/// The model of a [`UnitInstance`].
pub struct FactorView {
    pub id: u32,
    pub value: DecimalView,
    pub prefix: DecimalView,
    pub power: int,
}

impl View for UnitInstance {
    type V = FactorView;

    open spec fn view(&self) -> FactorView {
        FactorView {
            id: self.id,
            value: self.value@,
            prefix: self.prefix@,
            power: self.power as int,
        }
    }
}

impl FactorView {
    /// The factor raised to a further power.
    pub open spec fn raised(self, p: int) -> FactorView {
        FactorView { power: self.power * p, ..self }
    }

    /// How many base units the factor is worth.
    pub open spec fn worth(self) -> Option<DecimalView> {
        match decimal_product(self.value, self.prefix) {
            Some(scale) => decimal_power(scale, self.power),
            None => None,
        }
    }
}

/// The model of a unit: its factors and the power of each base dimension in it.
#[verifier::ext_equal]
pub struct UnitView {
    pub factors: Seq<FactorView>,
    pub dimensions: Seq<int>,
}

pub open spec fn fits(n: int) -> bool {
    i64::MIN <= n <= i64::MAX
}

impl UnitView {
    /// There is one power for each dimension.
    pub open spec fn valid(self) -> bool {
        self.dimensions.len() == DIMENSION_COUNT
    }

    /// The dimensions cancel out.
    pub open spec fn is_unitless(self) -> bool {
        forall|i: int| 0 <= i < self.dimensions.len() ==> self.dimensions[i] == 0
    }

    /// Every power in the unit is a 64 bit integer.
    pub open spec fn fits(self) -> bool {
        &&& forall|i: int| 0 <= i < self.factors.len() ==> fits((#[trigger] self.factors[i]).power)
        &&& forall|i: int| 0 <= i < self.dimensions.len() ==> fits(#[trigger] self.dimensions[i])
    }

    /// All powers multiplied by `p`.
    pub open spec fn raised(self, p: int) -> UnitView {
        UnitView {
            factors: self.factors.map_values(|f: FactorView| f.raised(p)),
            dimensions: self.dimensions.map_values(|d: int| d * p),
        }
    }

    /// The factors of both units, and the sums of their dimensions.
    pub open spec fn joined(self, other: UnitView) -> UnitView {
        UnitView {
            factors: self.factors + other.factors,
            dimensions: Seq::new(
                self.dimensions.len(),
                |i: int| self.dimensions[i] + other.dimensions[i],
            ),
        }
    }

    pub open spec fn product(self, other: UnitView) -> Option<UnitView> {
        if self.joined(other).fits() {
            Some(self.joined(other))
        } else {
            None
        }
    }

    /// The product with the inverse.
    pub open spec fn quotient(self, other: UnitView) -> Option<UnitView> {
        match other.power(-1) {
            Some(inverse) => self.product(inverse),
            None => None,
        }
    }

    pub open spec fn power(self, p: int) -> Option<UnitView> {
        if self.raised(p).fits() {
            Some(self.raised(p))
        } else {
            None
        }
    }

    /// `num` of this unit in base units, by the first `n` factors.
    pub open spec fn to_base(self, num: DecimalView, n: nat) -> Option<DecimalView>
        decreases n,
    {
        if n == 0 {
            Some(num)
        } else {
            match (self.to_base(num, (n - 1) as nat), self.factors[n - 1].worth()) {
                (Some(before), Some(worth)) => decimal_product(before, worth),
                _ => None,
            }
        }
    }

    /// `num` base units in this unit, by the first `n` factors.
    pub open spec fn from_base(self, num: DecimalView, n: nat) -> Option<DecimalView>
        decreases n,
    {
        if n == 0 {
            Some(num)
        } else {
            match (self.from_base(num, (n - 1) as nat), self.factors[n - 1].worth()) {
                (Some(before), Some(worth)) => decimal_quotient(before, worth),
                _ => None,
            }
        }
    }

    /// `num` of this unit in base units.
    pub open spec fn normalized(self, num: DecimalView) -> Option<DecimalView> {
        self.to_base(num, self.factors.len())
    }

    /// `num` base units in this unit.
    pub open spec fn denormalized(self, num: DecimalView) -> Option<DecimalView> {
        self.from_base(num, self.factors.len())
    }
}

/// A unit of measurement. Two units are equal when they measure the same thing, whatever
/// their scales: `km == cm`.
#[derive(Debug)]
pub struct UnitOutput {
    pub units: Vec<UnitInstance>,
    pub dimensions: [i64; DIMENSION_COUNT],
}

impl View for UnitOutput {
    type V = UnitView;

    open spec fn view(&self) -> UnitView {
        UnitView {
            factors: self.units@.map_values(|u: UnitInstance| u@),
            dimensions: self.dimensions@.map_values(|d: i64| d as int),
        }
    }
}

/// The view of an optional unit.
pub open spec fn view_of_unit(u: Option<UnitOutput>) -> Option<UnitView> {
    match u {
        Some(u) => Some(u@),
        None => None,
    }
}

impl Clone for UnitOutput {
    fn clone(&self) -> (r: UnitOutput)
        ensures
            r@ == self@,
    {
        let mut units: Vec<UnitInstance> = Vec::new();
        let mut i: usize = 0;
        while i < self.units.len()
            invariant
                i <= self.units.len(),
                units@ == self.units@.take(i as int),
            decreases self.units.len() - i,
        {
            units.push(self.units[i]);
            i = i + 1;
        }
        assert(units@ =~= self.units@);
        UnitOutput { units, dimensions: self.dimensions }
    }
}

impl PartialEq for UnitOutput {
    fn eq(&self, other: &UnitOutput) -> (r: bool) {
        let mut i: usize = 0;
        while i < DIMENSION_COUNT
            invariant
                i <= DIMENSION_COUNT,
                forall|j: int| 0 <= j < i ==> self@.dimensions[j] == other@.dimensions[j],
            decreases DIMENSION_COUNT - i,
        {
            if self.dimensions[i] != other.dimensions[i] {
                assert(self@.dimensions[i as int] != other@.dimensions[i as int]);
                return false;
            }
            i = i + 1;
        }
        assert(self@.dimensions =~= other@.dimensions);
        true
    }
}

impl PartialEqSpecImpl for UnitOutput {
    open spec fn obeys_eq_spec() -> bool {
        true
    }

    open spec fn eq_spec(&self, other: &UnitOutput) -> bool {
        self@.dimensions == other@.dimensions
    }
}

impl Eq for UnitOutput {

}

impl UnitOutput {
    pub fn unit_count(&self) -> (r: usize)
        ensures
            r == self@.factors.len(),
    {
        self.units.len()
    }

    pub fn is_unitless(&self) -> (r: bool)
        ensures
            r == self@.is_unitless(),
    {
        let mut i: usize = 0;
        while i < DIMENSION_COUNT
            invariant
                i <= DIMENSION_COUNT,
                forall|j: int| 0 <= j < i ==> self@.dimensions[j] == 0,
            decreases DIMENSION_COUNT - i,
        {
            if self.dimensions[i] != 0 {
                assert(self@.dimensions[i as int] != 0);
                return false;
            }
            i = i + 1;
        }
        true
    }

    /// All powers multiplied by `p`; nothing where one of them does not fit.
    pub fn pow(&self, p: i64) -> (r: Option<UnitOutput>)
        ensures
            view_of_unit(r) == self@.power(p as int),
    {
        let mut units: Vec<UnitInstance> = Vec::new();
        let mut i: usize = 0;
        while i < self.units.len()
            invariant
                i <= self.units.len(),
                units.len() == i,
                forall|j: int|
                    0 <= j < i ==> fits((#[trigger] self@.raised(p as int).factors[j]).power)
                        && units@[j]@ == self@.raised(p as int).factors[j],
            decreases self.units.len() - i,
        {
            let unit = self.units[i];
            match unit.power.checked_mul(p) {
                Some(power) => {
                    units.push(UnitInstance { power, ..unit });
                },
                None => {
                    assert(!fits(self@.raised(p as int).factors[i as int].power));
                    return None;
                },
            }
            i = i + 1;
        }
        let mut dimensions = self.dimensions;
        let mut k: usize = 0;
        while k < DIMENSION_COUNT
            invariant
                k <= DIMENSION_COUNT,
                forall|j: int|
                    0 <= j < k ==> fits(#[trigger] self@.raised(p as int).dimensions[j])
                        && dimensions@[j] == self@.raised(p as int).dimensions[j],
                forall|j: int| k <= j < DIMENSION_COUNT ==> dimensions@[j] == self.dimensions@[j],
            decreases DIMENSION_COUNT - k,
        {
            match self.dimensions[k].checked_mul(p) {
                Some(d) => {
                    dimensions[k] = d;
                },
                None => {
                    assert(!fits(self@.raised(p as int).dimensions[k as int]));
                    return None;
                },
            }
            k = k + 1;
        }
        let r = UnitOutput { units, dimensions };
        assert(r@ =~= self@.raised(p as int));
        Some(r)
    }

    /// The product of two units; nothing where a dimension does not fit.
    pub fn times(&self, other: &UnitOutput) -> (r: Option<UnitOutput>)
        ensures
            view_of_unit(r) == self@.product(other@),
    {
        let mut r = self.clone();
        let mut i: usize = 0;
        while i < other.units.len()
            invariant
                i <= other.units.len(),
                r@.factors == self@.factors + other@.factors.take(i as int),
                r@.dimensions == self@.dimensions,
            decreases other.units.len() - i,
        {
            let ghost before = r@.factors;
            r.units.push(other.units[i]);
            assert(r@.factors =~= before.push(other.units@[i as int]@));
            assert(r@.factors =~= self@.factors + other@.factors.take(i + 1));
            i = i + 1;
        }
        assert(other@.factors.take(i as int) =~= other@.factors);
        let ghost whole = self@.joined(other@);
        let mut k: usize = 0;
        while k < DIMENSION_COUNT
            invariant
                k <= DIMENSION_COUNT,
                whole == self@.joined(other@),
                r@.factors == whole.factors,
                forall|j: int|
                    0 <= j < k ==> fits(#[trigger] whole.dimensions[j]) && r.dimensions@[j]
                        == whole.dimensions[j],
                forall|j: int| k <= j < DIMENSION_COUNT ==> r@.dimensions[j] == self@.dimensions[j],
            decreases DIMENSION_COUNT - k,
        {
            assert(r@.dimensions[k as int] == self@.dimensions[k as int]);
            match r.dimensions[k].checked_add(other.dimensions[k]) {
                Some(d) => {
                    r.dimensions[k] = d;
                },
                None => {
                    assert(!fits(whole.dimensions[k as int]));
                    return None;
                },
            }
            k = k + 1;
        }
        assert(r@ =~= whole);
        assert forall|j: int| 0 <= j < whole.factors.len() implies fits(
            (#[trigger] whole.factors[j]).power,
        ) by {
            assert(whole.factors[j] == r.units@[j]@);
        }
        Some(r)
    }

    /// The quotient of two units; nothing where a power does not fit.
    pub fn per(&self, other: &UnitOutput) -> (r: Option<UnitOutput>)
        ensures
            view_of_unit(r) == self@.quotient(other@),
    {
        match other.pow(-1) {
            Some(inverse) => self.times(&inverse),
            None => None,
        }
    }

    /// How many base units `num` of this unit are.
    pub fn normalize(&self, num: &Decimal) -> (r: Option<Decimal>)
        ensures
            view_of(r) == self@.normalized(num@),
    {
        let mut result = *num;
        let mut i: usize = 0;
        while i < self.units.len()
            invariant
                i <= self.units.len(),
                self@.to_base(num@, i as nat) == Some(result@),
                self.units.len() == self@.factors.len(),
            decreases self.units.len() - i,
        {
            let unit = self.units[i];
            assert(self@.factors[i as int] == unit@);
            i = i + 1;
            match unit.worth() {
                Some(worth) => {
                    match result.checked_mul(&worth) {
                        Some(next) => {
                            result = next;
                        },
                        None => {
                            proof {
                                self@.lemma_base_needs_each_step(num@, i as nat);
                            }
                            return None;
                        },
                    }
                },
                None => {
                    proof {
                        self@.lemma_base_needs_each_step(num@, i as nat);
                    }
                    return None;
                },
            }
        }
        Some(result)
    }

    /// How many of this unit `num` base units are.
    pub fn from_base_to_this_unit(&self, num: &Decimal) -> (r: Option<Decimal>)
        ensures
            view_of(r) == self@.denormalized(num@),
    {
        let mut result = *num;
        let mut i: usize = 0;
        while i < self.units.len()
            invariant
                i <= self.units.len(),
                self@.from_base(num@, i as nat) == Some(result@),
                self.units.len() == self@.factors.len(),
            decreases self.units.len() - i,
        {
            let unit = self.units[i];
            assert(self@.factors[i as int] == unit@);
            i = i + 1;
            match unit.worth() {
                Some(worth) => {
                    match result.checked_div(&worth) {
                        Some(next) => {
                            result = next;
                        },
                        None => {
                            proof {
                                self@.lemma_unit_needs_each_step(num@, i as nat);
                            }
                            return None;
                        },
                    }
                },
                None => {
                    proof {
                        self@.lemma_unit_needs_each_step(num@, i as nat);
                    }
                    return None;
                },
            }
        }
        Some(result)
    }
}

impl UnitInstance {
    /// How many base units the factor is worth.
    pub fn worth(&self) -> (r: Option<Decimal>)
        ensures
            view_of(r) == self@.worth(),
    {
        let scale = self.value.checked_mul(&self.prefix)?;
        pow(scale, self.power)
    }
}

impl UnitView {
    proof fn lemma_base_needs_each_step(self, num: DecimalView, n: nat)
        requires
            n <= self.factors.len(),
            self.to_base(num, n) is None,
        ensures
            self.normalized(num) is None,
        decreases self.factors.len() - n,
    {
        if n < self.factors.len() {
            self.lemma_base_needs_each_step(num, n + 1);
        }
    }

    proof fn lemma_unit_needs_each_step(self, num: DecimalView, n: nat)
        requires
            n <= self.factors.len(),
            self.from_base(num, n) is None,
        ensures
            self.denormalized(num) is None,
        decreases self.factors.len() - n,
    {
        if n < self.factors.len() {
            self.lemma_unit_needs_each_step(num, n + 1);
        }
    }
}

} // verus!
