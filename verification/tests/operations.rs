use notecalc::addition::add_op;
use notecalc::bitwise::bitwise_and_op;
use notecalc::bitwise::bitwise_not;
use notecalc::bitwise::bitwise_or_op;
use notecalc::bitwise::bitwise_shift_left;
use notecalc::bitwise::bitwise_shift_right;
use notecalc::bitwise::bitwise_xor_op;
use notecalc::decimal::dec;
use notecalc::decimal::Decimal;
use notecalc::decimal::MANTISSA_BOUND;
use notecalc::division::divide_op;
use notecalc::evaluation::evaluate_tokens;
use notecalc::evaluation::resume_evaluation;
use notecalc::evaluation::EvaluationResult;
use notecalc::evaluation::Progress;
use notecalc::multiplication::multiply_op;
use notecalc::operation::apply_operation;
use notecalc::operation::binary_operation;
use notecalc::operation::pow_op;
use notecalc::operation::unary_minus_op;
use notecalc::operation::unary_operation;
use notecalc::operation::unit_conversion;
use notecalc::percentage::perc_num_is_what_perc_off_num;
use notecalc::percentage::perc_num_is_what_perc_on_num;
use notecalc::percentage::perc_num_is_xperc_off_what;
use notecalc::percentage::perc_num_is_xperc_on_what;
use notecalc::percentage::percentage_find_base_from_result_rate;
use notecalc::percentage::percentage_find_rate_from_result_base;
use notecalc::percentage::percentage_of;
use notecalc::percentage::percentage_operator;
use notecalc::power::pow;
use notecalc::subtraction::sub_op;
use notecalc::token::FnType;
use notecalc::token::OperatorTokenType;
use notecalc::token::ShuntingYardResult;
use notecalc::token::Token;
use notecalc::token::TokenType;
use notecalc::token::UnitTokenType;
use notecalc::token::Variable;
use notecalc::units::UnitInstance;
use notecalc::units::UnitOutput;
use notecalc::units::DIMENSION_COUNT;
use notecalc::value::CalcResult;
use notecalc::value::CalcResultType;
use notecalc::value::MatrixData;

// ---- building values ----

/// `mantissa / 10^scale`
fn d(mantissa: i128, scale: u32) -> Decimal {
    Decimal::from_parts(mantissa < 0, mantissa.unsigned_abs(), scale).unwrap()
}

fn parts(n: &Decimal) -> (bool, u128, u32) {
    n.parts()
}

fn number(n: Decimal) -> CalcResult {
    CalcResult::new(CalcResultType::Number(n), 0)
}

fn whole(n: i128) -> CalcResult {
    number(d(n, 0))
}

fn percent(n: i128) -> CalcResult {
    CalcResult::new(CalcResultType::Percentage(d(n, 0)), 0)
}

fn quantity(n: Decimal, unit: &UnitOutput) -> CalcResult {
    CalcResult::new(CalcResultType::Quantity(n, unit.clone()), 0)
}

fn bare(unit: &UnitOutput) -> CalcResult {
    CalcResult::new(CalcResultType::Unit(unit.clone()), 0)
}

fn matrix(cells: Vec<CalcResult>, rows: usize, cols: usize) -> CalcResult {
    CalcResult::new(CalcResultType::Matrix(MatrixData::new(cells, rows, cols)), 0)
}

fn whole_matrix(cells: &[i128], rows: usize, cols: usize) -> CalcResult {
    matrix(cells.iter().map(|n| whole(*n)).collect(), rows, cols)
}

/// A unit of one factor in one dimension.
fn simple_unit(id: u32, value: Decimal, dimension: usize, power: i64) -> UnitOutput {
    let mut dimensions = [0i64; DIMENSION_COUNT];
    dimensions[dimension] = power;
    UnitOutput { units: vec![UnitInstance { id, value, prefix: d(1, 0), power }], dimensions }
}

fn metre() -> UnitOutput {
    simple_unit(1, d(1, 0), 0, 1)
}

fn kilometre() -> UnitOutput {
    simple_unit(2, d(1000, 0), 0, 1)
}

fn second() -> UnitOutput {
    simple_unit(3, d(1, 0), 1, 1)
}

fn hour() -> UnitOutput {
    simple_unit(4, d(3600, 0), 1, 1)
}

/// The exact parts of a number.
fn number_parts(r: &Option<CalcResult>) -> Option<(bool, u128, u32)> {
    match r {
        Some(CalcResult { typ: CalcResultType::Number(n), .. }) => Some(parts(n)),
        _ => None,
    }
}

fn quantity_parts(r: &Option<CalcResult>) -> Option<((bool, u128, u32), Vec<(u32, i64)>)> {
    match r {
        Some(CalcResult { typ: CalcResultType::Quantity(n, u), .. }) => {
            Some((parts(n), u.units.iter().map(|f| (f.id, f.power)).collect()))
        }
        _ => None,
    }
}

fn percent_parts(r: &Option<CalcResult>) -> Option<(bool, u128, u32)> {
    match r {
        Some(CalcResult { typ: CalcResultType::Percentage(n), .. }) => Some(parts(n)),
        _ => None,
    }
}

// ---- decimals ----

#[test]
fn decimals_have_bounded_parts() {
    assert!(Decimal::from_parts(false, MANTISSA_BOUND - 1, 28).is_some());
    assert!(Decimal::from_parts(false, MANTISSA_BOUND, 0).is_none());
    assert!(Decimal::from_parts(false, 1, 29).is_none());
    assert_eq!(parts(&Decimal::zero()), (false, 0, 0));
    assert_eq!(parts(&Decimal::one()), (false, 1, 0));
    assert_eq!(parts(&dec(7u64)), (false, 7, 0));
    assert_eq!(parts(&dec(7u8)), (false, 7, 0));
    assert_eq!(parts(&dec(7u16)), (false, 7, 0));
    assert_eq!(parts(&dec(7u32)), (false, 7, 0));
    assert_eq!(parts(&dec(usize::MAX)), (false, usize::MAX as u128, 0));
    assert_eq!(parts(&dec(-7i8)), (true, 7, 0));
    assert_eq!(parts(&dec(-7i16)), (true, 7, 0));
    assert_eq!(parts(&dec(-7)), (true, 7, 0));
    assert_eq!(parts(&dec(i64::MIN)), (true, 9223372036854775808, 0));
    assert_eq!(parts(&dec(0isize)), (false, 0, 0));
}

#[test]
fn decimals_compare_as_numbers() {
    assert_eq!(d(10, 1), d(1, 0));
    assert_eq!(d(0, 3), d(0, 0).neg());
    assert_ne!(d(1, 0), d(-1, 0));
    assert_ne!(d(1, 1), d(1, 0));
    assert_ne!(d(79228162514264337593543950335, 0), d(79228162514264337593543950335, 28));
}

#[test]
fn integer_parts_convert() {
    assert_eq!(d(1999, 3).to_u64(), Some(1));
    assert_eq!(d(-1, 0).to_u64(), None);
    assert_eq!(d(0, 0).neg().to_u64(), None);
    assert_eq!(d(18446744073709551615, 0).to_u64(), Some(u64::MAX));
    assert_eq!(d(18446744073709551616, 0).to_u64(), None);
    assert_eq!(d(4294967295, 0).to_u32(), Some(u32::MAX));
    assert_eq!(d(4294967296, 0).to_u32(), None);
    assert_eq!(d(-19, 1).to_i64(), Some(-1));
    assert_eq!(d(-9223372036854775808, 0).to_i64(), Some(i64::MIN));
    assert_eq!(d(-9223372036854775809, 0).to_i64(), None);
    assert_eq!(d(9223372036854775807, 0).to_i64(), Some(i64::MAX));
    assert_eq!(d(9223372036854775808, 0).to_i64(), None);
}

/// The same conversions as those of the crate that does the arithmetic.
#[test]
fn integer_parts_convert_as_outside() {
    use_cases(|_, a, _| {
        let outside = outside_decimal(a);
        let mut sign = outside;
        sign.set_sign_negative(a.parts().0);
        assert_eq!(a.to_u64(), rust_decimal::prelude::ToPrimitive::to_u64(&sign), "{:?}", a);
        assert_eq!(a.to_i64(), rust_decimal::prelude::ToPrimitive::to_i64(&sign), "{:?}", a);
        assert_eq!(a.to_u32(), rust_decimal::prelude::ToPrimitive::to_u32(&sign), "{:?}", a);
        assert_eq!(a.is_zero(), sign.is_zero());
        let negated = -sign;
        assert_eq!(a.neg().parts().0, negated.is_sign_negative());
    });
}

fn outside_decimal(a: &Decimal) -> rust_decimal::Decimal {
    let (negative, mantissa, scale) = a.parts();
    let mut r = rust_decimal::Decimal::from_i128_with_scale(mantissa as i128, scale);
    r.set_sign_negative(negative);
    r
}

/// Pairs of decimals of many sizes, among them those at the edges.
fn use_cases(check: fn(usize, &Decimal, &Decimal)) {
    let edges: [u128; 12] = [
        0,
        1,
        2,
        10,
        99,
        100,
        (1 << 32) - 1,
        1 << 32,
        (1 << 64) - 1,
        1 << 64,
        MANTISSA_BOUND / 10,
        MANTISSA_BOUND - 1,
    ];
    let mut all: Vec<Decimal> = vec![];
    for mantissa in edges {
        for scale in [0, 1, 2, 9, 14, 27, 28] {
            for negative in [false, true] {
                all.push(Decimal::from_parts(negative, mantissa, scale).unwrap());
            }
        }
    }
    let mut state: u64 = 0x2545F4914F6CDD1D;
    for _ in 0..200 {
        let mut mantissa: u128 = 0;
        for _ in 0..3 {
            state ^= state << 13;
            state ^= state >> 7;
            state ^= state << 17;
            mantissa = (mantissa << 32) | (state >> 32) as u128;
        }
        mantissa >>= state % 96;
        let scale = ((state >> 20) % 29) as u32;
        all.push(Decimal::from_parts(state & 1 == 1, mantissa, scale).unwrap());
    }
    for (i, a) in all.iter().enumerate() {
        for b in &all {
            check(i, a, b);
        }
    }
}

fn ten_to(n: u32) -> u128 {
    10u128.pow(n)
}

/// The mantissa at a larger scale, where it fits.
fn at_scale(a: &Decimal, places: u32) -> Option<i128> {
    let (negative, mantissa, scale) = a.parts();
    let scaled = mantissa.checked_mul(ten_to(places - scale))?;
    if scaled >= MANTISSA_BOUND {
        return None;
    }
    Some(if negative { -(scaled as i128) } else { scaled as i128 })
}

fn exact_total(a: &Decimal, b: &Decimal) -> Option<(bool, u128, u32)> {
    let places = std::cmp::max(a.parts().2, b.parts().2);
    let total = at_scale(a, places)? + at_scale(b, places)?;
    if total.unsigned_abs() < MANTISSA_BOUND {
        Some((total < 0, total.unsigned_abs(), places))
    } else {
        None
    }
}

/// Whether the sum of two numbers is at least 2^96 in size.
fn total_overflows(a: &Decimal, b: &Decimal) -> bool {
    let ((na, ma, sa), (nb, mb, sb)) = (parts(a), parts(b));
    if na != nb {
        return false;
    }
    let fraction = (ma % ten_to(sa)) * ten_to(28 - sa) + (mb % ten_to(sb)) * ten_to(28 - sb);
    ma / ten_to(sa) + mb / ten_to(sb) + fraction / ten_to(28) >= MANTISSA_BOUND
}

/// How much larger than 2^96 the product of two numbers is, as a logarithm.
fn excess(a: &Decimal, b: &Decimal) -> f64 {
    let ((_, ma, sa), (_, mb, sb)) = (parts(a), parts(b));
    (ma as f64).log10() + (mb as f64).log10() - (sa + sb) as f64 - 96.0 * 2f64.log10()
}

/// Sums are exact where they fit, whatever the sizes of the terms.
#[test]
fn sums_that_fit_are_exact() {
    use_cases(|_, a, b| {
        let sum = number_parts(&add_op(&number(*a), &number(*b)));
        if a.is_zero() {
            assert_eq!(sum, Some(parts(b)), "{:?} {:?}", a, b);
        } else if b.is_zero() {
            assert_eq!(sum, Some(parts(a)), "{:?} {:?}", a, b);
        } else if let Some(exact) = exact_total(a, b) {
            assert_eq!(sum, Some(exact), "{:?} {:?}", a, b);
        } else if total_overflows(a, b) {
            assert_eq!(sum, None, "{:?} {:?}", a, b);
        }
        // the order does not matter
        if !a.is_zero() || !b.is_zero() {
            assert_eq!(sum, number_parts(&add_op(&number(*b), &number(*a))), "{:?} {:?}", a, b);
        }
    });
}

#[test]
fn differences_that_fit_are_exact() {
    use_cases(|_, a, b| {
        let difference = number_parts(&sub_op(&number(*a), &number(*b)));
        if a.is_zero() && b.is_zero() {
            assert_eq!(difference, Some(parts(b)), "{:?} {:?}", a, b);
        } else if a.is_zero() {
            assert_eq!(difference, Some(parts(&b.neg())), "{:?} {:?}", a, b);
        } else if b.is_zero() {
            assert_eq!(difference, Some(parts(a)), "{:?} {:?}", a, b);
        } else if let Some(exact) = exact_total(a, &b.neg()) {
            assert_eq!(difference, Some(exact), "{:?} {:?}", a, b);
        }
        // it is the sum with the sign flipped
        if !a.is_zero() || !b.is_zero() {
            let sum = number_parts(&add_op(&number(*a), &number(b.neg())));
            assert_eq!(difference, sum, "{:?} {:?}", a, b);
        }
    });
}

#[test]
fn products_that_fit_are_exact() {
    use_cases(|_, a, b| {
        let product = number_parts(&multiply_op(&number(*a), &number(*b)));
        let ((na, ma, sa), (nb, mb, sb)) = (parts(a), parts(b));
        let fits = ma.checked_mul(mb).map(|m| m < MANTISSA_BOUND).unwrap_or(false);
        if a.is_zero() || b.is_zero() {
            assert_eq!(product, Some((false, 0, 0)), "{:?} {:?}", a, b);
        } else if fits && sa + sb <= 28 {
            assert_eq!(product, Some((na != nb, ma * mb, sa + sb)), "{:?} {:?}", a, b);
        } else if excess(a, b) > 1e-9 {
            assert_eq!(product, None, "{:?} {:?}", a, b);
        }
        // the order does not matter
        assert_eq!(product, number_parts(&multiply_op(&number(*b), &number(*a))), "{:?} {:?}", a, b);
        // nor do the signs, but for the sign of the product
        let plain = number_parts(&multiply_op(&number(d(ma as i128, sa)), &number(d(mb as i128, sb))));
        let kept = |m: u128| m > 0 || (ma.max(mb) >= 1 << 32 && ma.min(mb) > 0);
        assert_eq!(product, plain.map(|(_, m, s)| (na != nb && kept(m), m, s)), "{:?} {:?}", a, b);
    });
}

#[test]
fn products_that_are_rounded_to_zero() {
    // two small mantissas lose the sign, and beyond 47 places the scale too
    assert_eq!(number_parts(&multiply_op(&number(d(-1, 20)), &number(d(1, 20)))), Some((false, 0, 28)));
    assert_eq!(number_parts(&multiply_op(&number(d(-1, 28)), &number(d(1, 28)))), Some((false, 0, 0)));
    let large = d(-(1 << 32), 28);
    assert_eq!(number_parts(&multiply_op(&number(large), &number(d(1, 28)))), Some((true, 0, 28)));
}

#[test]
fn even_quotients_are_exact() {
    use_cases(|_, a, b| {
        let quotient = number_parts(&divide_op(&number(*a), &number(*b)));
        let ((na, ma, sa), (nb, mb, sb)) = (parts(a), parts(b));
        if mb == 0 {
            assert_eq!(quotient, None, "{:?} {:?}", a, b);
        } else if ma == 0 {
            assert_eq!(quotient, Some((false, 0, 0)), "{:?} {:?}", a, b);
        } else if ma % mb == 0 {
            let q = ma / mb;
            if sa >= sb {
                assert_eq!(quotient, Some((na != nb, q, sa - sb)), "{:?} {:?}", a, b);
            } else {
                match q.checked_mul(ten_to(sb - sa)) {
                    Some(m) if m < MANTISSA_BOUND => {
                        assert_eq!(quotient, Some((na != nb, m, 0)), "{:?} {:?}", a, b)
                    }
                    _ => assert_eq!(quotient, None, "{:?} {:?}", a, b),
                }
            }
        }
    });
}

/// Quotients that need no more than two further places have two of them, or one.
#[test]
fn quotients_within_two_places() {
    assert_eq!(number_parts(&divide_op(&whole(1), &whole(2))), Some((false, 50, 2)));
    assert_eq!(number_parts(&divide_op(&whole(1), &whole(4))), Some((false, 25, 2)));
    assert_eq!(number_parts(&divide_op(&whole(-7), &whole(100))), Some((true, 7, 2)));
    assert_eq!(number_parts(&divide_op(&whole(70), &whole(100))), Some((false, 70, 2)));
    assert_eq!(number_parts(&divide_op(&number(d(3, 6)), &whole(100))), Some((false, 3, 8)));
    // the lower 32 bits of the quotient with nine places are zero
    assert_eq!(number_parts(&divide_op(&whole(167772160), &whole(100))), Some((false, 16777216, 1)));
    assert_eq!(number_parts(&divide_op(&whole(33554432), &whole(100))), Some((false, 33554432, 2)));
    let mut state: u64 = 0x9E3779B97F4A7C15;
    for i in 0..200000u64 {
        state ^= state << 13;
        state ^= state >> 7;
        state ^= state << 17;
        let divisors: [u128; 10] = [100, 2, 4, 5, 20, 25, 50, 300, 700, 12];
        let mb = divisors[(i % 10) as usize] * ((state % 3) as u128 + 1);
        let ma = ((state >> 8) as u128) << (i % 3 * 8);
        let (sa, sb) = (((state >> 3) % 7) as u32, ((state >> 5) % 5) as u32);
        let m9 = ma * 1_000_000_000 / mb;
        if ma % mb == 0 || ma * 100 % mb != 0 || m9 >= MANTISSA_BOUND || sa < sb {
            continue;
        }
        let a = Decimal::from_parts(false, ma, sa).unwrap();
        let b = Decimal::from_parts(true, mb, sb).unwrap();
        let expected = if ma * 10 % mb == 0 && m9 % (1 << 32) == 0 {
            (true, ma * 10 / mb, sa - sb + 1)
        } else {
            (true, ma * 100 / mb, sa - sb + 2)
        };
        assert_eq!(number_parts(&divide_op(&number(a), &number(b))), Some(expected));
    }
}

/// Quotients that are decimals are not rounded.
#[test]
fn decimal_quotients_are_exact() {
    let mantissas: [u128; 12] = [1, 2, 3, 7, 10, 30, 99, 1000, 12345, 999999, 4294967297, 987654321012];
    for ma in mantissas {
        for (sa, sb) in [(0, 0), (3, 1), (1, 3), (9, 0), (0, 9)] {
            for i in 0..10u32 {
                for j in 0..6u32 {
                    let mb = 2u128.pow(i) * 5u128.pow(j);
                    let a = Decimal::from_parts(false, ma, sa).unwrap();
                    let b = Decimal::from_parts(true, mb, sb).unwrap();
                    let quotient = number_parts(&divide_op(&number(a), &number(b)));
                    let (negative, m, s) = quotient.unwrap();
                    assert!(negative);
                    assert_eq!(m * mb * ten_to(sa), ma * ten_to(s + sb), "{:?} {:?}", a, b);
                }
            }
        }
    }
    // at the edge of what fits
    for k in [2u128, 4, 5, 8, 16, 20, 25, 32, 40, 50, 64, 80, 100, 125] {
        for m in [MANTISSA_BOUND - 1, MANTISSA_BOUND - 2, MANTISSA_BOUND / 10, MANTISSA_BOUND / 10 + 1] {
            // m / 10^3 divided by k is m * (1000 / k) / 10^6
            if 1000 % k == 0 && m.checked_mul(1000 / k).map(|p| p < MANTISSA_BOUND).unwrap_or(false) {
                let quotient = divide_op(&number(d(m as i128, 3)), &whole(k as i128));
                assert_eq!(quotient, Some(number(d((m * (1000 / k)) as i128, 6))));
            }
            // one more place does not fit, none is needed
            let product = (m / k) * k;
            let quotient = divide_op(&number(d(product as i128, 0)), &whole(k as i128));
            assert_eq!(quotient, Some(number(d((m / k) as i128, 0))));
        }
    }
}

#[test]
fn equality_does_not_depend_on_the_scale() {
    use_cases(|_, a, b| {
        let places = std::cmp::max(a.parts().2, b.parts().2);
        match (at_scale(a, places), at_scale(b, places)) {
            (Some(x), Some(y)) => assert_eq!(*a == *b, x == y, "{:?} {:?}", a, b),
            // only one of them can be too large for the scale of the other one
            _ => assert!(*a != *b, "{:?} {:?}", a, b),
        }
    });
}

#[test]
fn neutral_elements_and_order() {
    let a = d(-1250, 3);
    assert_eq!(number_parts(&add_op(&number(a), &whole(0))), Some((true, 1250, 3)));
    assert_eq!(number_parts(&add_op(&whole(0), &number(a))), Some((true, 1250, 3)));
    assert_eq!(number_parts(&sub_op(&number(a), &whole(0))), Some((true, 1250, 3)));
    assert_eq!(number_parts(&multiply_op(&number(a), &whole(1))), Some((true, 1250, 3)));
    assert_eq!(number_parts(&divide_op(&number(a), &whole(1))), Some((true, 1250, 3)));
    assert_eq!(number_parts(&sub_op(&number(a), &number(a))), Some((false, 0, 3)));
    let (x, y) = (number(d(17, 1)), number(d(-5, 2)));
    assert_eq!(number_parts(&add_op(&x, &y)), number_parts(&add_op(&y, &x)));
    assert_eq!(number_parts(&multiply_op(&x, &y)), number_parts(&multiply_op(&y, &x)));
}

#[test]
fn rounded_results() {
    // 2 / 3
    let third = number_parts(&divide_op(&whole(2), &whole(3)));
    assert_eq!(third, Some((false, 6666666666666666666666666667, 28)));
    // 1 / 4
    assert_eq!(number_parts(&divide_op(&whole(1), &whole(4))), Some((false, 25, 2)));
    // a sum that loses a place
    let sum = add_op(&whole(79228162514264337593543950334), &number(d(5, 1)));
    assert_eq!(number_parts(&sum), Some((false, 79228162514264337593543950334, 0)));
    // a product with more than 28 places
    let product = multiply_op(&number(d(3, 15)), &number(d(5, 15)));
    assert_eq!(number_parts(&product).map(|p| p.2 <= 28), Some(true));
}

// ---- powers ----

#[test]
fn powers() {
    assert_eq!(pow(d(2, 0), 10).map(|p| parts(&p)), Some((false, 1024, 0)));
    assert_eq!(pow(d(-2, 0), 3).map(|p| parts(&p)), Some((true, 8, 0)));
    assert_eq!(pow(d(15, 1), 2).map(|p| parts(&p)), Some((false, 225, 2)));
    assert_eq!(pow(d(2, 0), -2).map(|p| parts(&p)), Some((false, 25, 2)));
    assert_eq!(pow(d(0, 0), 0).map(|p| parts(&p)), Some((false, 1, 0)));
    assert_eq!(pow(d(5, 0), 0).map(|p| parts(&p)), Some((false, 1, 0)));
    assert_eq!(pow(d(5, 0), 1).map(|p| parts(&p)), Some((false, 5, 0)));
    assert_eq!(pow(d(0, 0), 5).map(|p| parts(&p)), Some((false, 0, 0)));
    assert!(pow(d(0, 0), -1).is_none());
    assert!(pow(d(2, 0), 95).is_some());
    assert!(pow(d(2, 0), 96).is_none());
    assert!(pow(d(10, 0), 29).is_none());
    assert_eq!(pow(d(1, 0), i64::MIN).map(|p| parts(&p)), Some((false, 1, 0)));
    assert_eq!(pow(d(1, 0), i64::MAX).map(|p| parts(&p)), Some((false, 1, 0)));
}

#[test]
fn powers_of_zero() {
    for n in 1..9 {
        assert_eq!(pow(d(0, 3), n).map(|p| parts(&p)), Some((false, 0, 0)));
        assert_eq!(pow(d(0, 3), -n).map(|p| parts(&p)), None);
    }
    assert_eq!(pow(d(0, 3), 0).map(|p| parts(&p)), Some((false, 1, 0)));
}

#[test]
fn exponents_add_up() {
    let (a, b) = (pow(d(3, 1), 4).unwrap(), pow(d(3, 1), 5).unwrap());
    let product = multiply_op(&number(a), &number(b));
    assert_eq!(number_parts(&product), pow(d(3, 1), 9).map(|p| parts(&p)));
}

#[test]
fn power_operator() {
    assert_eq!(number_parts(&pow_op(&whole(2), &whole(3))), Some((false, 8, 0)));
    // the integer part of the exponent counts
    assert_eq!(number_parts(&pow_op(&whole(2), &number(d(39, 1)))), Some((false, 8, 0)));
    let cube = pow_op(&quantity(d(2, 0), &metre()), &whole(3));
    assert_eq!(quantity_parts(&cube), Some(((false, 8, 0), vec![(1, 3)])));
    assert!(pow_op(&whole(2), &percent(3)).is_none());
    assert!(pow_op(&whole(2), &whole(9223372036854775808)).is_none());
    // the powers of the unit do not fit
    let squared = pow_op(&quantity(d(1, 0), &simple_unit(1, d(1, 0), 0, 2)), &whole(i64::MAX as i128));
    assert!(squared.is_none());
}

// ---- sums and differences ----

#[test]
fn sums_of_values() {
    let sum = add_op(&quantity(d(2, 0), &metre()), &quantity(d(3, 0), &kilometre()));
    assert_eq!(quantity_parts(&sum), Some(((false, 5, 0), vec![(1, 1)])));
    assert!(add_op(&quantity(d(2, 0), &metre()), &quantity(d(3, 0), &second())).is_none());
    assert_eq!(number_parts(&add_op(&whole(200), &percent(10))), Some((false, 220, 0)));
    assert_eq!(percent_parts(&add_op(&percent(10), &percent(20))), Some((false, 30, 0)));
    assert_eq!(
        quantity_parts(&add_op(&quantity(d(200, 0), &metre()), &percent(10))),
        Some(((false, 220, 0), vec![(1, 1)]))
    );
    assert!(add_op(&percent(10), &whole(1)).is_none());
    assert!(add_op(&whole(1), &quantity(d(1, 0), &metre())).is_none());
    assert!(add_op(&quantity(d(1, 0), &metre()), &whole(1)).is_none());
    assert!(add_op(&percent(1), &quantity(d(1, 0), &metre())).is_none());
    assert!(add_op(&bare(&metre()), &bare(&metre())).is_none());
    assert!(add_op(&whole(1), &whole_matrix(&[1], 1, 1)).is_none());
    assert!(add_op(&whole_matrix(&[1], 1, 1), &whole(1)).is_none());
    assert!(add_op(&whole_matrix(&[1, 2], 1, 2), &whole_matrix(&[1, 2], 2, 1)).is_none());
    // the results stand for no token
    assert_eq!(sum.map(|s| (s.get_index_into_tokens(), s.index2_into_tokens)), Some((0, None)));
}

#[test]
fn differences_of_values() {
    assert_eq!(number_parts(&sub_op(&whole(200), &percent(10))), Some((false, 180, 0)));
    assert_eq!(percent_parts(&sub_op(&percent(10), &percent(20))), Some((true, 10, 0)));
    assert_eq!(
        quantity_parts(&sub_op(&quantity(d(200, 0), &metre()), &percent(10))),
        Some(((false, 180, 0), vec![(1, 1)]))
    );
    assert_eq!(
        quantity_parts(&sub_op(&quantity(d(5, 0), &metre()), &quantity(d(3, 0), &kilometre()))),
        Some(((false, 2, 0), vec![(1, 1)]))
    );
    assert!(sub_op(&quantity(d(2, 0), &metre()), &quantity(d(3, 0), &second())).is_none());
    assert!(sub_op(&percent(1), &whole(1)).is_none());
    assert!(sub_op(&whole(1), &quantity(d(1, 0), &metre())).is_none());
    assert_eq!(sub_op(&whole_matrix(&[4, 5], 1, 2), &whole_matrix(&[1, 1], 1, 2)), Some(whole_matrix(&[3, 4], 1, 2)));
    assert!(sub_op(&whole_matrix(&[1, 2], 1, 2), &whole_matrix(&[1, 2], 2, 1)).is_none());
}

#[test]
fn subtraction_takes_back_an_addition() {
    for (a, b) in [(d(125, 2), d(7, 0)), (d(-5, 1), d(5, 1)), (d(0, 2), d(3, 0)), (d(8, 0), d(0, 4))] {
        let sum = add_op(&number(a), &number(b)).unwrap();
        assert_eq!(sub_op(&sum, &number(b)), Some(number(a)));
    }
}

#[test]
fn sums_do_not_depend_on_the_order() {
    for a in [d(125, 2), d(-7, 0), d(0, 3), d(79228162514264337593543950335, 3)] {
        for b in [d(3, 1), d(7, 0), d(123456789, 9), d(79228162514264337593543950335, 0)] {
            let (l, r) = (number(a), number(b));
            assert_eq!(add_op(&l, &r), add_op(&r, &l));
            let (l, r) = (whole_matrix(&[1, -2], 1, 2), matrix(vec![l, r], 1, 2));
            assert_eq!(add_op(&l, &r), add_op(&r, &l));
        }
    }
    assert_eq!(add_op(&percent(10), &percent(-3)), add_op(&percent(-3), &percent(10)));
}

#[test]
fn subtracting_is_adding_the_negated() {
    let numbers = [d(200, 0), d(7, 0), d(-33, 0), d(0, 0), d(1000000000, 0)];
    for a in numbers {
        for b in numbers {
            let values = |n: Decimal| {
                vec![
                    number(n),
                    CalcResult::new(CalcResultType::Percentage(n), 0),
                    quantity(n, &metre()),
                    quantity(n, &second()),
                ]
            };
            for l in values(a) {
                for r in values(b) {
                    let negated = unary_minus_op(&r).unwrap();
                    assert_eq!(sub_op(&l, &r), add_op(&l, &negated));
                }
            }
        }
    }
    let off = sub_op(&whole(7), &percent(10));
    assert_eq!(number_parts(&off), Some((false, 630, 2)));
    // shares that have to be rounded
    use_cases(|i, a, b| {
        if i % 3 == 0 {
            let rate = CalcResult::new(CalcResultType::Percentage(*b), 0);
            let negated = unary_minus_op(&rate).unwrap();
            assert_eq!(sub_op(&number(*a), &rate), add_op(&number(*a), &negated), "{:?} {:?}", a, b);
        }
    });
}

// ---- products and quotients ----

#[test]
fn products_of_values() {
    let area = multiply_op(&quantity(d(2, 0), &metre()), &quantity(d(3, 0), &kilometre()));
    assert_eq!(quantity_parts(&area), Some(((false, 6, 0), vec![(1, 1), (2, 1)])));
    let per_second = second().pow(-1).unwrap();
    let cancelled = multiply_op(&quantity(d(2, 0), &second()), &quantity(d(3, 0), &per_second));
    assert_eq!(number_parts(&cancelled), Some((false, 6, 0)));
    assert_eq!(
        quantity_parts(&multiply_op(&whole(4), &quantity(d(3, 0), &metre()))),
        Some(((false, 12, 0), vec![(1, 1)]))
    );
    assert_eq!(
        quantity_parts(&multiply_op(&quantity(d(3, 0), &metre()), &whole(4))),
        Some(((false, 12, 0), vec![(1, 1)]))
    );
    assert_eq!(number_parts(&multiply_op(&whole(200), &percent(10))), Some((false, 20, 0)));
    assert_eq!(number_parts(&multiply_op(&percent(10), &whole(200))), Some((false, 20, 0)));
    assert_eq!(
        quantity_parts(&multiply_op(&percent(10), &quantity(d(200, 0), &metre()))),
        Some(((false, 20, 0), vec![(1, 1)]))
    );
    assert_eq!(
        quantity_parts(&multiply_op(&quantity(d(200, 0), &metre()), &percent(10))),
        Some(((false, 20, 0), vec![(1, 1)]))
    );
    // the factors are divided by a hundred each
    assert_eq!(percent_parts(&multiply_op(&percent(200), &percent(300))), Some((false, 6, 0)));
    assert!(multiply_op(&whole(1), &bare(&metre())).is_none());
    assert!(multiply_op(&bare(&metre()), &whole(1)).is_none());
    assert!(multiply_op(&percent(1), &whole_matrix(&[1], 1, 1)).is_none());
    assert!(multiply_op(&whole_matrix(&[1], 1, 1), &bare(&metre())).is_none());
    assert_eq!(multiply_op(&whole_matrix(&[100], 1, 1), &percent(5)), Some(whole_matrix(&[5], 1, 1)));
}

#[test]
fn products_do_not_depend_on_the_order() {
    for a in [d(7, 0), d(-125, 2), d(0, 1), d(79228162514264337593543950335, 5)] {
        for b in [d(10, 0), d(3, 27), d(79228162514264337593543950335, 28)] {
            let values = |n: Decimal| {
                vec![
                    number(n),
                    CalcResult::new(CalcResultType::Percentage(n), 0),
                    quantity(n, &metre()),
                    quantity(n, &second().pow(-1).unwrap()),
                    bare(&second()),
                ]
            };
            for l in values(a) {
                for r in values(b) {
                    assert_eq!(multiply_op(&l, &r), multiply_op(&r, &l));
                }
            }
            let cells = matrix(vec![number(a), quantity(a, &metre())], 1, 2);
            assert_eq!(multiply_op(&cells, &number(b)), multiply_op(&number(b), &cells));
        }
    }
    // the units stand in the order of the factors
    let area = multiply_op(&quantity(d(3, 0), &kilometre()), &quantity(d(2, 0), &metre()));
    assert_eq!(quantity_parts(&area), Some(((false, 6, 0), vec![(2, 1), (1, 1)])));
    // a percentage of a number has two more places where it needs them
    assert_eq!(number_parts(&multiply_op(&whole(7), &percent(10))), Some((false, 70, 2)));
}

#[test]
fn only_products_of_matrices_look_at_their_shapes() {
    let odd = whole_matrix(&[1, 2, 3], 7, 9);
    assert_eq!(multiply_op(&odd, &whole(2)), Some(whole_matrix(&[2, 4, 6], 7, 9)));
    assert_eq!(multiply_op(&whole(2), &odd), Some(whole_matrix(&[2, 4, 6], 7, 9)));
    assert!(multiply_op(&odd, &whole_matrix(&[1], 1, 1)).is_none());
    assert!(multiply_op(&odd, &odd).is_none());
    assert_eq!(divide_op(&odd, &whole(1)), Some(odd));
}

#[test]
fn products_of_too_many_units() {
    let mut four = metre();
    for _ in 0..3 {
        four = four.times(&metre()).unwrap();
    }
    let mut three = metre();
    for _ in 0..2 {
        three = three.times(&metre()).unwrap();
    }
    assert!(multiply_op(&quantity(d(1, 0), &four), &quantity(d(1, 0), &three)).is_some());
    assert!(multiply_op(&quantity(d(1, 0), &four), &quantity(d(1, 0), &four)).is_none());
    assert!(divide_op(&quantity(d(1, 0), &four), &quantity(d(1, 0), &three)).is_some());
    assert!(divide_op(&quantity(d(1, 0), &four), &quantity(d(1, 0), &four)).is_none());
}

#[test]
fn products_of_matrices() {
    let a = whole_matrix(&[1, 2, 3, 4, 5, 6], 2, 3);
    let b = whole_matrix(&[7, 8, 9, 10, 11, 12], 3, 2);
    assert_eq!(multiply_op(&a, &b), Some(whole_matrix(&[58, 64, 139, 154], 2, 2)));
    assert!(multiply_op(&a, &a).is_none());
    // a first product that does not exist leaves no cell, a later one is left out
    let units = matrix(vec![bare(&metre()), whole(2)], 1, 2);
    assert!(multiply_op(&units, &whole_matrix(&[1, 3], 2, 1)).is_none());
    let later = matrix(vec![whole(2), bare(&metre())], 1, 2);
    assert_eq!(multiply_op(&later, &whole_matrix(&[1, 3], 2, 1)), Some(whole_matrix(&[2], 1, 1)));
    // cells that do not add up
    let mixed = matrix(vec![whole(2), quantity(d(1, 0), &metre())], 1, 2);
    assert!(multiply_op(&mixed, &whole_matrix(&[1, 3], 2, 1)).is_none());
    // no columns on the left
    assert!(multiply_op(&whole_matrix(&[], 1, 0), &whole_matrix(&[], 0, 1)).is_none());
    assert_eq!(multiply_op(&whole_matrix(&[], 0, 1), &whole_matrix(&[1], 1, 1)), Some(whole_matrix(&[], 0, 1)));
    // matrices in matrices
    let nested = matrix(vec![whole_matrix(&[1, 2], 1, 2)], 1, 1);
    assert_eq!(
        multiply_op(&nested, &whole(3)),
        Some(matrix(vec![whole_matrix(&[3, 6], 1, 2)], 1, 1))
    );
    assert_eq!(multiply_op(&whole(3), &nested), multiply_op(&nested, &whole(3)));
}

#[test]
fn quotients_of_values() {
    // 12 km / 3 s
    let speed = divide_op(&quantity(d(12000, 0), &kilometre()), &quantity(d(3, 0), &second()));
    assert_eq!(quantity_parts(&speed), Some(((false, 4000, 0), vec![(2, 1), (3, -1)])));
    // 6 km / km
    let count = divide_op(&quantity(d(6000, 0), &kilometre()), &bare(&metre()));
    assert_eq!(number_parts(&count), Some((false, 6, 0)));
    // 6 km / s
    let rate = divide_op(&quantity(d(6000, 0), &kilometre()), &bare(&second()));
    assert_eq!(quantity_parts(&rate), Some(((false, 6000, 0), vec![(2, 1), (3, -1)])));
    // 12 / s and 500 % / s
    let rate = divide_op(&whole(12), &bare(&second()));
    assert_eq!(quantity_parts(&rate), Some(((false, 12, 0), vec![(3, -1)])));
    let rate = divide_op(&percent(500), &bare(&second()));
    assert_eq!(quantity_parts(&rate), Some(((false, 5, 0), vec![(3, -1)])));
    // 100 / 2 s
    let rate = divide_op(&whole(100), &quantity(d(2, 0), &second()));
    assert_eq!(quantity_parts(&rate), Some(((false, 50, 0), vec![(3, -1)])));
    assert_eq!(percent_parts(&divide_op(&whole(30), &percent(10))), Some((false, 300, 0)));
    assert_eq!(
        quantity_parts(&divide_op(&quantity(d(10, 0), &metre()), &whole(5))),
        Some(((false, 2, 0), vec![(1, 1)]))
    );
    assert_eq!(divide_op(&whole_matrix(&[6, 8], 1, 2), &whole(2)), Some(whole_matrix(&[3, 4], 1, 2)));
    assert!(divide_op(&percent(10), &whole(5)).is_none());
    assert!(divide_op(&percent(10), &percent(5)).is_none());
    assert!(divide_op(&percent(10), &quantity(d(1, 0), &metre())).is_none());
    assert!(divide_op(&quantity(d(1, 0), &metre()), &percent(10)).is_none());
    assert!(divide_op(&bare(&metre()), &whole(1)).is_none());
    assert!(divide_op(&whole(1), &whole_matrix(&[1], 1, 1)).is_none());
    assert!(divide_op(&whole_matrix(&[1], 1, 1), &bare(&metre())).is_none());
    assert!(divide_op(&whole_matrix(&[1], 1, 1), &whole_matrix(&[1], 1, 1)).is_none());
}

#[test]
fn division_takes_back_a_multiplication() {
    let product = multiply_op(&number(d(-125, 2)), &number(d(8, 1))).unwrap();
    assert_eq!(number_parts(&divide_op(&product, &number(d(8, 1)))), Some((true, 125, 2)));
    // a value divided by itself
    assert_eq!(number_parts(&divide_op(&number(d(-125, 2)), &number(d(-125, 2)))), Some((false, 1, 0)));
    let distance = quantity(d(7000, 0), &kilometre());
    assert_eq!(number_parts(&divide_op(&distance, &distance)), Some((false, 1, 0)));
}

#[test]
fn nothing_is_divided_by_zero() {
    let zeros = [whole(0), percent(0), quantity(d(0, 0), &metre()), quantity(d(0, 2), &hour())];
    for zero in &zeros {
        assert!(divide_op(&whole(1), zero).is_none());
        assert!(divide_op(&percent(1), zero).is_none());
        assert!(divide_op(&quantity(d(1, 0), &metre()), zero).is_none());
        assert!(divide_op(&whole_matrix(&[1, 2], 1, 2), zero).is_none());
    }
}

// ---- signs and bits ----

#[test]
fn negation() {
    let value = CalcResult::new2(CalcResultType::Quantity(d(3, 0), metre()), 4, 5);
    let negated = unary_minus_op(&value).unwrap();
    assert_eq!(quantity_parts(&Some(negated.clone())), Some(((true, 3, 0), vec![(1, 1)])));
    assert_eq!((negated.get_index_into_tokens(), negated.index2_into_tokens), (4, None));
    assert_eq!(
        quantity_parts(&unary_minus_op(&negated)),
        Some(((false, 3, 0), vec![(1, 1)]))
    );
    assert_eq!(percent_parts(&unary_minus_op(&percent(3))), Some((true, 3, 0)));
    assert!(unary_minus_op(&whole_matrix(&[1], 1, 1)).is_none());
    assert!(unary_minus_op(&bare(&metre())).is_none());
}

#[test]
fn unary_operators() {
    let value = CalcResult::new2(CalcResultType::Number(d(3, 0)), 4, 5);
    let plus = unary_operation(&OperatorTokenType::UnaryPlus, &value, 9).unwrap();
    assert_eq!((plus.get_index_into_tokens(), plus.index2_into_tokens), (4, Some(5)));
    assert_eq!(plus, value);
    let rate = unary_operation(&OperatorTokenType::Perc, &value, 9).unwrap();
    assert_eq!((rate.get_index_into_tokens(), rate.index2_into_tokens), (4, Some(9)));
    assert_eq!(percent_parts(&Some(rate)), Some((false, 3, 0)));
    assert!(percentage_operator(&percent(3), 9).is_none());
    assert!(unary_operation(&OperatorTokenType::Add, &value, 9).is_none());
}

#[test]
fn bits() {
    assert_eq!(number_parts(&bitwise_and_op(&whole(12), &whole(10))), Some((false, 8, 0)));
    assert_eq!(number_parts(&bitwise_or_op(&whole(12), &whole(10))), Some((false, 14, 0)));
    assert_eq!(number_parts(&bitwise_xor_op(&whole(12), &whole(10))), Some((false, 6, 0)));
    // integer parts
    assert_eq!(number_parts(&bitwise_and_op(&number(d(129, 1)), &whole(10))), Some((false, 8, 0)));
    assert!(bitwise_and_op(&whole(-1), &whole(1)).is_none());
    assert!(bitwise_or_op(&percent(1), &whole(1)).is_none());
    assert!(bitwise_xor_op(&whole(1), &whole(18446744073709551616)).is_none());
    assert!(bitwise_not(&percent(1)).is_none());
    assert!(bitwise_not(&whole(-1)).is_none());
}

#[test]
fn bits_come_back() {
    let value = CalcResult::new2(CalcResultType::Number(d(12345, 2)), 4, 5);
    let twice = bitwise_not(&bitwise_not(&value).unwrap()).unwrap();
    assert_eq!(number_parts(&Some(twice.clone())), Some((false, 123, 0)));
    assert_eq!(twice.get_index_into_tokens(), 4);
    let mixed = bitwise_xor_op(&whole(123), &whole(77)).unwrap();
    assert_eq!(number_parts(&bitwise_xor_op(&mixed, &whole(77))), Some((false, 123, 0)));
}

#[test]
fn shifts() {
    assert_eq!(number_parts(&bitwise_shift_left(&whole(3), &whole(4))), Some((false, 48, 0)));
    assert_eq!(number_parts(&bitwise_shift_right(&whole(48), &whole(4))), Some((false, 3, 0)));
    assert_eq!(
        number_parts(&bitwise_shift_left(&whole(3), &whole(63))),
        Some((false, 9223372036854775808, 0))
    );
    assert!(bitwise_shift_left(&whole(3), &whole(64)).is_none());
    assert!(bitwise_shift_right(&whole(3), &whole(64)).is_none());
    assert!(bitwise_shift_left(&whole(3), &whole(-1)).is_none());
    assert!(bitwise_shift_right(&whole(-3), &whole(1)).is_none());
    assert!(bitwise_shift_left(&whole(3), &whole(4294967296)).is_none());
    let there = bitwise_shift_right(&whole(0b1101_1101), &whole(4)).unwrap();
    assert_eq!(
        number_parts(&bitwise_shift_left(&there, &whole(4))),
        Some((false, 0b1101_0000, 0))
    );
}

// ---- percentages ----

#[test]
fn percentages_are_found_again() {
    // 200 + 10% = 220
    let increased = add_op(&whole(200), &percent(10)).unwrap();
    assert_eq!(number_parts(&perc_num_is_xperc_on_what(&increased, &percent(10))), Some((false, 200, 0)));
    assert_eq!(percent_parts(&perc_num_is_what_perc_on_num(&increased, &whole(200))), Some((false, 10, 0)));
    // 200 - 10% = 180
    let decreased = sub_op(&whole(200), &percent(10)).unwrap();
    assert_eq!(number_parts(&perc_num_is_xperc_off_what(&decreased, &percent(10))), Some((false, 200, 0)));
    assert_eq!(percent_parts(&perc_num_is_what_perc_off_num(&decreased, &whole(200))), Some((false, 10, 0)));
    // 600 is 200% of 300
    let rate = percentage_find_rate_from_result_base(&whole(600), &whole(300)).unwrap();
    assert_eq!(percent_parts(&Some(rate.clone())), Some((false, 200, 0)));
    assert_eq!(number_parts(&multiply_op(&rate, &whole(300))), Some((false, 600, 0)));
    assert_eq!(number_parts(&percentage_find_base_from_result_rate(&whole(600), &percent(200))), Some((false, 300, 0)));
    assert_eq!(percentage_of(&d(5, 0), &d(300, 0)).map(|s| parts(&s)), Some((false, 15, 0)));
}

#[test]
fn percentages_of_integers_are_found_again() {
    for x in [0, 1, 7, 33, 200, 999_999, 1_000_000] {
        for p in [-1_000_000, -99, -1, 0, 10, 33, 99, 101, 1_000_000] {
            let more = add_op(&whole(x), &percent(p)).unwrap();
            assert_eq!(perc_num_is_xperc_on_what(&more, &percent(p)), Some(whole(x)));
            let less = sub_op(&whole(x), &percent(p)).unwrap();
            assert_eq!(perc_num_is_xperc_off_what(&less, &percent(p)), Some(whole(x)));
            if x > 0 {
                assert_eq!(perc_num_is_what_perc_on_num(&more, &whole(x)), Some(percent(p)));
                assert_eq!(perc_num_is_what_perc_off_num(&less, &whole(x)), Some(percent(p)));
            }
        }
        let nothing = add_op(&whole(x), &percent(-100)).unwrap();
        assert!(perc_num_is_xperc_on_what(&nothing, &percent(-100)).is_none());
        let nothing = sub_op(&whole(x), &percent(100)).unwrap();
        assert!(perc_num_is_xperc_off_what(&nothing, &percent(100)).is_none());
    }
}

#[test]
fn shares_are_found_again() {
    // 7 is 87.5% of 8
    let rate = percentage_find_rate_from_result_base(&whole(7), &whole(8)).unwrap();
    assert_eq!(rate.typ, CalcResultType::Percentage(d(875, 1)));
    assert_eq!(multiply_op(&rate, &whole(8)), Some(whole(7)));
    let nothing = percentage_find_rate_from_result_base(&whole(0), &whole(8)).unwrap();
    assert_eq!(multiply_op(&nothing, &whole(8)), Some(whole(0)));
}

#[test]
fn percentages_that_are_not_found() {
    assert!(perc_num_is_xperc_on_what(&whole(41), &percent(-100)).is_none());
    assert!(perc_num_is_xperc_off_what(&whole(41), &percent(100)).is_none());
    assert!(perc_num_is_what_perc_on_num(&whole(41), &whole(0)).is_none());
    assert!(perc_num_is_what_perc_off_num(&whole(41), &whole(0)).is_none());
    assert!(percentage_find_rate_from_result_base(&whole(41), &whole(0)).is_none());
    assert!(percentage_find_base_from_result_rate(&whole(41), &percent(0)).is_none());
    assert!(perc_num_is_xperc_on_what(&percent(17), &whole(41)).is_none());
    assert!(perc_num_is_what_perc_on_num(&whole(41), &percent(35)).is_none());
}

// ---- units ----

#[test]
fn units_combine() {
    let speed = kilometre().per(&hour()).unwrap();
    assert_eq!(speed.unit_count(), 2);
    assert_eq!(speed.dimensions[0], 1);
    assert_eq!(speed.dimensions[1], -1);
    assert!(kilometre() == metre());
    assert!(speed != metre());
    assert!(!speed.is_unitless());
    assert!(speed.per(&speed).unwrap().is_unitless());
    assert!(speed.pow(0).unwrap().is_unitless());
    let twice = speed.pow(-1).unwrap().pow(-1).unwrap();
    assert!(twice == speed && twice.units[1].power == -1);
    let huge = simple_unit(1, d(1, 0), 0, i64::MIN);
    assert!(huge.pow(-1).is_none());
    assert!(huge.times(&huge).is_none());
    assert!(metre().per(&huge).is_none());
}

#[test]
fn numbers_of_units_come_back() {
    let length = kilometre().times(&simple_unit(5, d(12, 1), 0, 2)).unwrap();
    let base = length.normalize(&d(25, 1)).unwrap();
    assert_eq!(parts(&base), (false, 3600000, 3));
    assert_eq!(parts(&length.from_base_to_this_unit(&base).unwrap()), (false, 25, 1));
    // too large to hold
    assert!(kilometre().normalize(&d(79228162514264337593543950335, 0)).is_none());
    // a unit that is worth nothing
    assert!(simple_unit(6, d(0, 0), 0, 1).from_base_to_this_unit(&d(1, 0)).is_none());
}

#[test]
fn numbers_take_on_units() {
    let value = unit_conversion(&d(5, 0), &kilometre(), 3, 4).unwrap();
    assert_eq!((value.get_index_into_tokens(), value.index2_into_tokens), (3, Some(4)));
    assert_eq!(quantity_parts(&Some(value)), Some(((false, 5000, 0), vec![(2, 1)])));
    let ratio = kilometre().per(&metre()).unwrap();
    let value = unit_conversion(&d(5, 0), &ratio, 3, 4).unwrap();
    assert_eq!((value.get_index_into_tokens(), value.index2_into_tokens), (3, None));
    assert_eq!(number_parts(&Some(value)), Some((false, 5000, 0)));
}

#[test]
fn conversions() {
    let convert = OperatorTokenType::UnitConverter;
    let there = binary_operation(&convert, &quantity(d(5000, 0), &metre()), &bare(&kilometre()));
    assert_eq!(quantity_parts(&there), Some(((false, 5000, 0), vec![(2, 1)])));
    let back = binary_operation(&convert, &there.unwrap(), &bare(&metre()));
    assert_eq!(quantity_parts(&back), Some(((false, 5000, 0), vec![(1, 1)])));
    assert!(binary_operation(&convert, &quantity(d(1, 0), &metre()), &bare(&second())).is_none());
    assert!(binary_operation(&convert, &whole(1), &bare(&metre())).is_none());
    assert!(binary_operation(&convert, &quantity(d(1, 0), &metre()), &whole(1)).is_none());
    let row = matrix(vec![quantity(d(1, 0), &metre()), quantity(d(2, 0), &kilometre())], 1, 2);
    let converted = binary_operation(&convert, &row, &bare(&metre())).unwrap();
    assert_eq!(converted, row);
    let row = matrix(vec![quantity(d(1, 0), &metre()), whole(2)], 1, 2);
    assert!(binary_operation(&convert, &row, &bare(&metre())).is_none());
}

// ---- operators on the stack ----

fn plain_tokens(n: usize) -> Vec<Token> {
    vec![Token { typ: TokenType::NumberErr, has_error: false }; n]
}

fn errors(tokens: &[Token]) -> Vec<usize> {
    (0..tokens.len()).filter(|i| tokens[*i].has_error).collect()
}

#[test]
fn operators_take_their_operands_from_the_stack() {
    let mut tokens = plain_tokens(9);
    let mut stack = vec![whole(7), whole(10), whole(4)];
    assert!(apply_operation(&mut tokens, &mut stack, &OperatorTokenType::Sub, 2));
    assert_eq!(stack, vec![whole(7), whole(6)]);
    assert!(apply_operation(&mut tokens, &mut stack, &OperatorTokenType::UnaryMinus, 2));
    assert_eq!(stack, vec![whole(7), whole(-6)]);
    let row = OperatorTokenType::Matrix { row_count: 1, col_count: 2 };
    assert!(apply_operation(&mut tokens, &mut stack, &row, 2));
    assert_eq!(stack.len(), 1);
    assert_eq!(stack[0].typ, whole_matrix(&[7, -6], 1, 2).typ);
    assert_eq!(stack[0].get_index_into_tokens(), 2);
    assert!(!apply_operation(&mut tokens, &mut stack, &row, 2));
    let huge = OperatorTokenType::Matrix { row_count: usize::MAX, col_count: 2 };
    assert!(!apply_operation(&mut tokens, &mut stack, &huge, 2));
    let empty = OperatorTokenType::Matrix { row_count: 0, col_count: 0 };
    assert!(apply_operation(&mut tokens, &mut stack, &empty, 2));
    assert_eq!(stack.len(), 2);
    for ignored in
        [OperatorTokenType::Comma, OperatorTokenType::Semicolon, OperatorTokenType::PercentageIs]
    {
        assert!(apply_operation(&mut tokens, &mut stack, &ignored, 2));
    }
    for bracket in [
        OperatorTokenType::ParenOpen,
        OperatorTokenType::ParenClose,
        OperatorTokenType::BracketOpen,
        OperatorTokenType::BracketClose,
    ] {
        assert!(!apply_operation(&mut tokens, &mut stack, &bracket, 2));
    }
    assert_eq!(stack.len(), 2);
    assert!(errors(&tokens).is_empty());
}

#[test]
fn failed_operators_mark_their_tokens() {
    let mut tokens = plain_tokens(9);
    let mut stack = vec![
        CalcResult::new2(CalcResultType::Number(d(1, 0)), 1, 2),
        CalcResult::new2(CalcResultType::Number(d(0, 0)), 3, 20),
    ];
    assert!(!apply_operation(&mut tokens, &mut stack, &OperatorTokenType::Div, 5));
    assert_eq!(errors(&tokens), vec![1, 2, 3, 5]);
    assert_eq!(stack.len(), 2);
    // operands that are missing mark nothing
    let mut tokens = plain_tokens(9);
    let mut stack = vec![whole(1)];
    assert!(!apply_operation(&mut tokens, &mut stack, &OperatorTokenType::Div, 5));
    let mut none: Vec<CalcResult> = vec![];
    assert!(!apply_operation(&mut tokens, &mut none, &OperatorTokenType::UnaryMinus, 5));
    let mut stack = vec![whole_matrix(&[1], 1, 1)];
    assert!(!apply_operation(&mut tokens, &mut stack, &OperatorTokenType::UnaryMinus, 5));
    assert!(errors(&tokens).is_empty());
}

#[test]
fn error_flags() {
    let mut tokens = plain_tokens(3);
    Token::set_token_error_flag_by_index(1, &mut tokens);
    Token::set_token_error_flag_by_index(3, &mut tokens);
    assert_eq!(errors(&tokens), vec![1]);
    CalcResult::new2(CalcResultType::Number(d(1, 0)), 0, 2).set_token_error_flag(&mut tokens);
    assert_eq!(errors(&tokens), vec![0, 1, 2]);
}

#[test]
fn constructors() {
    let zero = CalcResult::zero();
    assert_eq!(number_parts(&Some(zero.clone())), Some((false, 0, 0)));
    assert_eq!((zero.get_index_into_tokens(), zero.index2_into_tokens), (0, None));
    assert_eq!(CalcResult::hack_empty(), whole_matrix(&[], 0, 0));
    let row = whole_matrix(&[1, 2], 1, 2);
    assert_eq!(row.clone(), row);
    let token = ShuntingYardResult::new(TokenType::NumberErr, 5);
    assert_eq!(token.typ, TokenType::NumberErr);
    assert_eq!(token.index_into_tokens, 5);
}

// ---- evaluation ----

fn literal(n: i128) -> TokenType {
    TokenType::NumberLiteral(d(n, 0))
}

fn operator(op: OperatorTokenType) -> TokenType {
    TokenType::Operator(op)
}

/// The tokens of the text in postfix order.
fn expression(types: &[TokenType]) -> (Vec<Token>, Vec<ShuntingYardResult>) {
    let tokens =
        types.iter().map(|typ| Token { typ: typ.clone(), has_error: false }).collect();
    let shunting = types
        .iter()
        .enumerate()
        .map(|(i, typ)| ShuntingYardResult::new(typ.clone(), i))
        .collect();
    (tokens, shunting)
}

fn texts(tokens: &[Token]) -> Vec<usize> {
    (0..tokens.len()).filter(|i| tokens[*i].typ == TokenType::StringLiteral).collect()
}

fn finished(progress: Progress) -> Result<Option<EvaluationResult>, ()> {
    match progress {
        Progress::Finished(answer) => answer,
        Progress::Call { .. } => panic!("a function call"),
    }
}

#[test]
fn evaluation_prefers_the_last_operation() {
    // 8 1+2 3
    let (mut tokens, shunting) =
        expression(&[literal(8), literal(1), literal(2), operator(OperatorTokenType::Add), literal(3)]);
    let answer = finished(evaluate_tokens(&mut tokens, &shunting, &vec![])).unwrap().unwrap();
    assert_eq!(answer.result.typ, whole(3).typ);
    assert!(answer.there_was_operation && !answer.assignment && !answer.there_was_unit_conversion);
    // the sum stands for the first token of the text
    assert_eq!(texts(&tokens), vec![0, 4]);
    assert!(errors(&tokens).is_empty());
}

#[test]
fn evaluation_without_an_operation() {
    let (mut tokens, shunting) = expression(&[literal(8), literal(3)]);
    let answer = finished(evaluate_tokens(&mut tokens, &shunting, &vec![])).unwrap().unwrap();
    assert_eq!(answer.result.typ, whole(3).typ);
    assert_eq!(answer.result.get_index_into_tokens(), 1);
    assert!(!answer.there_was_operation);
    assert!(texts(&tokens).is_empty());
    let (mut tokens, shunting) = expression(&[]);
    assert!(matches!(finished(evaluate_tokens(&mut tokens, &shunting, &vec![])), Ok(None)));
}

#[test]
fn evaluation_tells_what_it_saw() {
    let (mut tokens, shunting) = expression(&[
        literal(5),
        TokenType::Unit(UnitTokenType::ApplyToPrevToken, kilometre()),
        TokenType::Unit(UnitTokenType::StandInItself, metre()),
        operator(OperatorTokenType::UnitConverter),
        operator(OperatorTokenType::Assign),
    ]);
    let answer = finished(evaluate_tokens(&mut tokens, &shunting, &vec![])).unwrap().unwrap();
    assert!(answer.there_was_operation && answer.assignment && answer.there_was_unit_conversion);
    assert_eq!(quantity_parts(&Some(answer.result)), Some(((false, 5000, 0), vec![(1, 1)])));
}

#[test]
fn evaluation_tells_of_operations() {
    let there_was_operation = |types: &[TokenType]| {
        let (mut tokens, shunting) = expression(types);
        let answer = finished(evaluate_tokens(&mut tokens, &shunting, &vec![])).unwrap().unwrap();
        answer.there_was_operation
    };
    assert!(there_was_operation(&[literal(1), operator(OperatorTokenType::UnaryMinus), literal(2)]));
    let unit = TokenType::Unit(UnitTokenType::ApplyToPrevToken, metre());
    assert!(there_was_operation(&[literal(1), unit]));
    let row = OperatorTokenType::Matrix { row_count: 1, col_count: 1 };
    assert!(there_was_operation(&[literal(1), operator(row)]));
    assert!(!there_was_operation(&[literal(1), operator(OperatorTokenType::Assign), literal(2)]));
    let alone = TokenType::Unit(UnitTokenType::StandInItself, metre());
    assert!(!there_was_operation(&[literal(1), alone]));
    // a comma counts where a value stands before it
    assert!(there_was_operation(&[literal(1), operator(OperatorTokenType::Comma)]));
    assert!(!there_was_operation(&[operator(OperatorTokenType::Comma), literal(1)]));
}

#[test]
fn evaluation_fails() {
    // a number that is none
    let (mut tokens, shunting) = expression(&[literal(1), TokenType::NumberErr]);
    assert!(finished(evaluate_tokens(&mut tokens, &shunting, &vec![])).is_err());
    // a unit without a number
    let (mut tokens, shunting) =
        expression(&[TokenType::Unit(UnitTokenType::ApplyToPrevToken, metre())]);
    assert!(finished(evaluate_tokens(&mut tokens, &shunting, &vec![])).is_err());
    assert_eq!(errors(&tokens), vec![0]);
    // a number that is too large for its unit
    let (mut tokens, shunting) = expression(&[
        literal(79228162514264337593543950335),
        TokenType::Unit(UnitTokenType::ApplyToPrevToken, kilometre()),
    ]);
    assert!(finished(evaluate_tokens(&mut tokens, &shunting, &vec![])).is_err());
    assert_eq!(errors(&tokens), vec![1]);
    // a bracket
    let (mut tokens, shunting) = expression(&[literal(1), operator(OperatorTokenType::ParenOpen)]);
    assert!(finished(evaluate_tokens(&mut tokens, &shunting, &vec![])).is_err());
    assert!(errors(&tokens).is_empty());
}

#[test]
fn units_alone_become_text() {
    let (mut tokens, shunting) = expression(&[
        TokenType::Unit(UnitTokenType::StandInItself, metre()),
        literal(6),
        TokenType::Unit(UnitTokenType::StandInItself, second()),
        operator(OperatorTokenType::Div),
    ]);
    let answer = finished(evaluate_tokens(&mut tokens, &shunting, &vec![])).unwrap().unwrap();
    assert_eq!(quantity_parts(&Some(answer.result)), Some(((false, 6, 0), vec![(3, -1)])));
    assert_eq!(texts(&tokens), vec![0]);
}

#[test]
fn variables_have_values() {
    let variables = vec![
        None,
        Some(Variable { name: "a".to_string(), value: Ok(whole_matrix(&[1, 2], 1, 2)) }),
        Some(Variable { name: "b".to_string(), value: Err(()) }),
    ];
    let (mut tokens, shunting) = expression(&[
        literal(3),
        TokenType::Variable { var_index: 1 },
        operator(OperatorTokenType::Mult),
    ]);
    let answer = finished(evaluate_tokens(&mut tokens, &shunting, &variables)).unwrap().unwrap();
    assert_eq!(answer.result, whole_matrix(&[3, 6], 1, 2));
    let (mut tokens, shunting) = expression(&[literal(3), TokenType::LineReference { var_index: 1 }]);
    let answer = finished(evaluate_tokens(&mut tokens, &shunting, &variables)).unwrap().unwrap();
    assert_eq!(answer.result.get_index_into_tokens(), 1);
    assert_eq!(answer.result.typ, whole_matrix(&[1, 2], 1, 2).typ);
    let (mut tokens, shunting) = expression(&[TokenType::Variable { var_index: 2 }, literal(3)]);
    assert!(finished(evaluate_tokens(&mut tokens, &shunting, &variables)).is_err());
    let (mut tokens, shunting) = expression(&[TokenType::LineReference { var_index: 2 }]);
    assert!(finished(evaluate_tokens(&mut tokens, &shunting, &variables)).is_err());
}

#[test]
fn functions_are_called_by_the_caller() {
    // 2 + sum(3, 4)
    let (mut tokens, shunting) = expression(&[
        literal(2),
        literal(3),
        literal(4),
        operator(OperatorTokenType::Fn { arg_count: 2, typ: FnType::Sum }),
        operator(OperatorTokenType::Add),
    ]);
    match evaluate_tokens(&mut tokens, &shunting, &vec![]) {
        Progress::Call { mut evaluation, arg_count, typ, op_token_index } => {
            assert_eq!((arg_count, typ, op_token_index), (2, FnType::Sum, 3));
            assert_eq!(evaluation.stack.len(), 3);
            let b = evaluation.stack.pop().unwrap();
            let a = evaluation.stack.pop().unwrap();
            evaluation.stack.push(add_op(&a, &b).unwrap());
            let end = resume_evaluation(evaluation, true, &mut tokens, &shunting, &vec![]);
            let answer = finished(end).unwrap().unwrap();
            assert_eq!(answer.result, whole(9));
            assert!(answer.there_was_operation);
        }
        Progress::Finished(_) => panic!("no function was called"),
    }
}

#[test]
fn functions_that_fail_end_the_evaluation() {
    let (mut tokens, shunting) = expression(&[
        literal(2),
        operator(OperatorTokenType::Fn { arg_count: 1, typ: FnType::Nth }),
        literal(4),
    ]);
    match evaluate_tokens(&mut tokens, &shunting, &vec![]) {
        Progress::Call { evaluation, .. } => {
            let end = resume_evaluation(evaluation, false, &mut tokens, &shunting, &vec![]);
            assert!(finished(end).is_err());
        }
        Progress::Finished(_) => panic!("no function was called"),
    }
}

#[test]
fn values_that_are_used_up_need_no_token() {
    // both numbers stand for tokens that the text does not have; their sum stands for the first
    let (mut tokens, mut shunting) =
        expression(&[literal(1), literal(2), operator(OperatorTokenType::Add)]);
    shunting[0].index_into_tokens = 70;
    shunting[1].index_into_tokens = 71;
    let answer = finished(evaluate_tokens(&mut tokens, &shunting, &vec![])).unwrap().unwrap();
    assert_eq!(answer.result, whole(3));
    // a matrix that no expression uses may have any shape
    let variables = vec![
        Some(Variable { name: "a".to_string(), value: Ok(whole_matrix(&[1], 7, 9)) }),
        Some(Variable { name: "b".to_string(), value: Ok(whole(5)) }),
    ];
    let (mut tokens, shunting) = expression(&[TokenType::Variable { var_index: 1 }]);
    let answer = finished(evaluate_tokens(&mut tokens, &shunting, &variables)).unwrap().unwrap();
    assert_eq!(answer.result, whole(5));
}

#[test]
fn failed_functions_may_leave_anything() {
    let (mut tokens, shunting) = expression(&[
        literal(2),
        operator(OperatorTokenType::Fn { arg_count: 1, typ: FnType::Nth }),
    ]);
    match evaluate_tokens(&mut tokens, &shunting, &vec![]) {
        Progress::Call { mut evaluation, .. } => {
            evaluation.stack.push(CalcResult::new(CalcResultType::Number(d(1, 0)), 70));
            let end = resume_evaluation(evaluation, false, &mut tokens, &shunting, &vec![]);
            assert!(finished(end).is_err());
        }
        Progress::Finished(_) => panic!("no function was called"),
    }
}

#[test]
fn functions_that_leave_nothing() {
    let (mut tokens, shunting) = expression(&[
        operator(OperatorTokenType::Fn { arg_count: 0, typ: FnType::Pi }),
        literal(4),
    ]);
    match evaluate_tokens(&mut tokens, &shunting, &vec![]) {
        Progress::Call { evaluation, .. } => {
            let end = resume_evaluation(evaluation, true, &mut tokens, &shunting, &vec![]);
            let answer = finished(end).unwrap().unwrap();
            assert_eq!(answer.result.typ, whole(4).typ);
            assert!(!answer.there_was_operation);
        }
        Progress::Finished(_) => panic!("no function was called"),
    }
}
