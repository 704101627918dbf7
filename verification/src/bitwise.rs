//! Bitwise operations on the integer parts of numbers.
use crate::decimal::dec;
use crate::decimal::lemma_decimal_of;
use crate::decimal::DecimalView;
use crate::value::group_views;
use crate::value::plain;
use crate::value::view_of_result;
use crate::value::CalcResult;
use crate::value::CalcResultType;
use crate::value::ResultView;
use crate::value::ValueView;
use vstd::arithmetic::power::lemma_pow0;
use vstd::prelude::*;

verus! {

/// An integer as a value.
pub open spec fn integer_value(n: u64) -> ResultView {
    plain(ValueView::Number(DecimalView::integer(n as int)))
}

/// The integer parts of two numbers, where both are 64 bit integers that are not negative.
pub open spec fn bits(l: ResultView, r: ResultView) -> Option<(u64, u64)> {
    match (l.typ, r.typ) {
        (ValueView::Number(a), ValueView::Number(b)) => match (a.to_u64(), b.to_u64()) {
            (Some(a), Some(b)) => Some((a, b)),
            _ => None,
        },
        _ => None,
    }
}

/// The integer parts of a number and of the number of places to shift it by, which is at most
/// 63.
pub open spec fn shift(l: ResultView, r: ResultView) -> Option<(u64, u32)> {
    match (l.typ, r.typ) {
        (ValueView::Number(a), ValueView::Number(b)) => match (a.to_u64(), b.to_u32()) {
            (Some(a), Some(b)) => if b <= 63 {
                Some((a, b))
            } else {
                None
            },
            _ => None,
        },
        _ => None,
    }
}

/// `NOT 0b01`
pub open spec fn complement(r: ResultView) -> Option<ResultView> {
    match r.typ {
        ValueView::Number(n) => match n.to_u64() {
            Some(n) => Some(ResultView { index: r.index, ..integer_value(!n) }),
            None => None,
        },
        _ => None,
    }
}

pub fn bitwise_not(lhs: &CalcResult) -> (r: Option<CalcResult>)
    ensures
        view_of_result(r) == complement(lhs@),
{
    broadcast use {group_views, lemma_decimal_of};

    match &lhs.typ {
        CalcResultType::Number(n) => {
            let n: u64 = n.to_u64()?;
            Some(CalcResult::new(CalcResultType::Number(dec(!n)), lhs.index_into_tokens))
        },
        _ => None,
    }
}

/// `0b01 AND 0b10`
pub open spec fn conjunction(l: ResultView, r: ResultView) -> Option<ResultView> {
    match bits(l, r) {
        Some((a, b)) => Some(integer_value(a & b)),
        None => None,
    }
}

pub fn bitwise_and_op(lhs: &CalcResult, rhs: &CalcResult) -> (r: Option<CalcResult>)
    ensures
        view_of_result(r) == conjunction(lhs@, rhs@),
{
    broadcast use {group_views, lemma_decimal_of};

    match (&lhs.typ, &rhs.typ) {
        (CalcResultType::Number(a), CalcResultType::Number(b)) => {
            let a: u64 = a.to_u64()?;
            let b: u64 = b.to_u64()?;
            Some(CalcResult::new(CalcResultType::Number(dec(a & b)), 0))
        },
        _ => None,
    }
}

/// `0b01 OR 0b10`
pub open spec fn disjunction(l: ResultView, r: ResultView) -> Option<ResultView> {
    match bits(l, r) {
        Some((a, b)) => Some(integer_value(a | b)),
        None => None,
    }
}

pub fn bitwise_or_op(lhs: &CalcResult, rhs: &CalcResult) -> (r: Option<CalcResult>)
    ensures
        view_of_result(r) == disjunction(lhs@, rhs@),
{
    broadcast use {group_views, lemma_decimal_of};

    match (&lhs.typ, &rhs.typ) {
        (CalcResultType::Number(a), CalcResultType::Number(b)) => {
            let a: u64 = a.to_u64()?;
            let b: u64 = b.to_u64()?;
            Some(CalcResult::new(CalcResultType::Number(dec(a | b)), 0))
        },
        _ => None,
    }
}

/// `0b01 XOR 0b10`
pub open spec fn exclusive_or(l: ResultView, r: ResultView) -> Option<ResultView> {
    match bits(l, r) {
        Some((a, b)) => Some(integer_value(a ^ b)),
        None => None,
    }
}

pub fn bitwise_xor_op(lhs: &CalcResult, rhs: &CalcResult) -> (r: Option<CalcResult>)
    ensures
        view_of_result(r) == exclusive_or(lhs@, rhs@),
{
    broadcast use {group_views, lemma_decimal_of};

    match (&lhs.typ, &rhs.typ) {
        (CalcResultType::Number(a), CalcResultType::Number(b)) => {
            let a: u64 = a.to_u64()?;
            let b: u64 = b.to_u64()?;
            Some(CalcResult::new(CalcResultType::Number(dec(a ^ b)), 0))
        },
        _ => None,
    }
}

/// `1 << 3`
pub open spec fn shifted_left(l: ResultView, r: ResultView) -> Option<ResultView> {
    match shift(l, r) {
        Some((a, b)) => Some(integer_value(a << b)),
        None => None,
    }
}

pub fn bitwise_shift_left(lhs: &CalcResult, rhs: &CalcResult) -> (r: Option<CalcResult>)
    ensures
        view_of_result(r) == shifted_left(lhs@, rhs@),
{
    broadcast use {group_views, lemma_decimal_of};

    match (&lhs.typ, &rhs.typ) {
        (CalcResultType::Number(a), CalcResultType::Number(b)) => {
            let a: u64 = a.to_u64()?;
            let b: u32 = b.to_u32()?;
            if b > 63 {
                return None;
            }
            Some(CalcResult::new(CalcResultType::Number(dec(a << b)), 0))
        },
        _ => None,
    }
}

/// `8 >> 3`
pub open spec fn shifted_right(l: ResultView, r: ResultView) -> Option<ResultView> {
    match shift(l, r) {
        Some((a, b)) => Some(integer_value(a >> b)),
        None => None,
    }
}

pub fn bitwise_shift_right(lhs: &CalcResult, rhs: &CalcResult) -> (r: Option<CalcResult>)
    ensures
        view_of_result(r) == shifted_right(lhs@, rhs@),
{
    broadcast use {group_views, lemma_decimal_of};

    match (&lhs.typ, &rhs.typ) {
        (CalcResultType::Number(a), CalcResultType::Number(b)) => {
            let a: u64 = a.to_u64()?;
            let b: u32 = b.to_u32()?;
            if b > 63 {
                return None;
            }
            Some(CalcResult::new(CalcResultType::Number(dec(a >> b)), 0))
        },
        _ => None,
    }
}

/// Negating all bits twice gives back the integer part.
pub proof fn law_complement_undoes_itself(r: ResultView)
    requires
        complement(r) is Some,
    ensures
        complement(complement(r)->Some_0) == Some(
            ResultView { index: r.index, ..integer_value(r.typ->Number_0.to_u64()->Some_0) },
        ),
{
    let n = r.typ->Number_0.to_u64()->Some_0;
    assert(!(!n) == n) by (bit_vector);
    law_integers_convert_back(!n);
}

/// Combining with the same number twice by exclusive or gives back the integer part.
pub proof fn law_exclusive_or_undoes_itself(l: ResultView, r: ResultView)
    requires
        exclusive_or(l, r) is Some,
    ensures
        exclusive_or(exclusive_or(l, r)->Some_0, r) == Some(
            integer_value(l.typ->Number_0.to_u64()->Some_0),
        ),
{
    let (a, b) = bits(l, r)->Some_0;
    assert((a ^ b) ^ b == a) by (bit_vector);
    law_integers_convert_back(a ^ b);
}

/// Conjunction, disjunction and exclusive or do not depend on the order of their operands.
pub proof fn law_bitwise_operations_commute(l: ResultView, r: ResultView)
    ensures
        conjunction(l, r) == conjunction(r, l),
        disjunction(l, r) == disjunction(r, l),
        exclusive_or(l, r) == exclusive_or(r, l),
{
    if bits(l, r) is Some {
        let (a, b) = bits(l, r)->Some_0;
        assert(a & b == b & a && a | b == b | a && a ^ b == b ^ a) by (bit_vector);
    }
}

/// A number is not shifted by more than 63 places, in either direction.
pub proof fn law_no_shift_beyond_the_bits(l: ResultView, r: ResultView)
    requires
        r.typ matches ValueView::Number(n) ==> n.negative || n.whole() > 63,
    ensures
        shifted_left(l, r) is None,
        shifted_right(l, r) is None,
{
}

/// Shifting right and back left clears the bits that were shifted out, and no others.
pub proof fn law_shift_right_then_left(l: ResultView, r: ResultView)
    requires
        shift(l, r) is Some,
    ensures
        ({
            let (a, b) = shift(l, r)->Some_0;
            shifted_left(shifted_right(l, r)->Some_0, r) == Some(
                integer_value(a & !(((1u64 << b) - 1) as u64)),
            )
        }),
{
    let (a, b) = shift(l, r)->Some_0;
    assert((a >> b) << b == a & !(((1u64 << b) - 1) as u64)) by (bit_vector)
        requires
            b <= 63,
    ;
    law_integers_convert_back(a >> b);
}

/// The integer part of an integer is the integer.
pub proof fn law_integers_convert_back(n: u64)
    ensures
        integer_value(n).typ->Number_0.to_u64() == Some(n),
{
    lemma_pow0(10);
}

} // verus!
