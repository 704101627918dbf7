//! What the bitwise operations do to each bit.
use crate::bitwise::complement;
use crate::bitwise::conjunction;
use crate::bitwise::disjunction;
use crate::bitwise::exclusive_or;
use crate::bitwise::shifted_left;
use crate::bitwise::shifted_right;
use crate::decimal::DecimalView;
use crate::power_laws::is_integer_part;
use crate::power_laws::law_integer_part_converts;
use crate::power_laws::lemma_whole;
use crate::scalar_laws::has_no_token;
use crate::value::ResultView;
use crate::value::ValueView;
use vstd::prelude::*;

verus! {

/// The bit of weight two to the power of `i` is set.
pub open spec fn bit(n: u64, i: u64) -> bool {
    (n >> i) & 1 == 1
}

/// The integer part of a number is the 64 bit integer `n`, without a sign.
pub open spec fn has_bits(r: ResultView, n: u64) -> bool {
    r.typ matches ValueView::Number(d) && !d.negative && is_integer_part(d, n as int)
}

/// The value is a number without decimal places, and `n` is that number.
pub open spec fn is_integer(r: ResultView, n: u64) -> bool {
    r.typ == ValueView::Number(
        DecimalView { negative: false, mantissa: n as nat, scale: 0 },
    )
}

/// The 64 bit integer that an answer is.
pub open spec fn integer_answer(r: Option<ResultView>) -> u64 {
    match r {
        Some(r) => match r.typ {
            ValueView::Number(d) => d.mantissa as u64,
            _ => 0,
        },
        None => 0,
    }
}

proof fn lemma_has_bits(r: ResultView, n: u64)
    requires
        has_bits(r, n),
    ensures
        r.typ matches ValueView::Number(d) && d.to_u64() == Some(n) && d.to_u32() == (if n
            <= u32::MAX {
            Some(n as u32)
        } else {
            None
        }),
{
    law_integer_part_converts(r.typ->Number_0, n as int);
}

/// Each bit of a conjunction, a disjunction and an exclusive or is set when that bit is set in
/// both integer parts, in one of them at least, and in exactly one of them.
pub proof fn law_bits_combine(l: ResultView, r: ResultView, x: u64, y: u64, i: u64)
    requires
        has_bits(l, x),
        has_bits(r, y),
        i < 64,
    ensures
        conjunction(l, r) matches Some(s) && has_no_token(s) && is_integer(
            s,
            integer_answer(conjunction(l, r)),
        ),
        disjunction(l, r) matches Some(s) && has_no_token(s) && is_integer(
            s,
            integer_answer(disjunction(l, r)),
        ),
        exclusive_or(l, r) matches Some(s) && has_no_token(s) && is_integer(
            s,
            integer_answer(exclusive_or(l, r)),
        ),
        bit(integer_answer(conjunction(l, r)), i) <==> bit(x, i) && bit(y, i),
        bit(integer_answer(disjunction(l, r)), i) <==> bit(x, i) || bit(y, i),
        bit(integer_answer(exclusive_or(l, r)), i) <==> bit(x, i) != bit(y, i),
{
    lemma_has_bits(l, x);
    lemma_has_bits(r, y);
    assert(((x & y) >> i) & 1 == 1 <==> ((x >> i) & 1 == 1 && (y >> i) & 1 == 1)) by (bit_vector);
    assert(((x | y) >> i) & 1 == 1 <==> ((x >> i) & 1 == 1 || (y >> i) & 1 == 1)) by (bit_vector);
    assert(((x ^ y) >> i) & 1 == 1 <==> ((x >> i) & 1 == 1) != ((y >> i) & 1 == 1))
        by (bit_vector);
}

/// Each of the 64 bits of a complement is set when it is not set in the integer part.
pub proof fn law_bits_are_flipped(r: ResultView, x: u64, i: u64)
    requires
        has_bits(r, x),
        i < 64,
    ensures
        complement(r) matches Some(s) && s.index == r.index && s.index2 is None && is_integer(
            s,
            integer_answer(complement(r)),
        ),
        bit(integer_answer(complement(r)), i) <==> !bit(x, i),
{
    lemma_has_bits(r, x);
    assert(((!x) >> i) & 1 == 1 <==> (x >> i) & 1 != 1) by (bit_vector)
        requires
            i < 64,
    ;
}

/// Shifting moves every bit by the integer part of the right operand, up or down; bits that
/// leave the 64 are gone, and those that come in are not set.
pub proof fn law_bits_are_shifted(l: ResultView, r: ResultView, x: u64, n: u64, i: u64)
    requires
        has_bits(l, x),
        has_bits(r, n),
        n < 64,
        i < 64,
    ensures
        shifted_left(l, r) matches Some(s) && has_no_token(s) && is_integer(
            s,
            integer_answer(shifted_left(l, r)),
        ),
        shifted_right(l, r) matches Some(s) && has_no_token(s) && is_integer(
            s,
            integer_answer(shifted_right(l, r)),
        ),
        bit(integer_answer(shifted_left(l, r)), i) <==> i >= n && bit(x, (i - n) as u64),
        bit(integer_answer(shifted_right(l, r)), i) <==> i + n < 64 && bit(x, (i + n) as u64),
{
    lemma_has_bits(l, x);
    lemma_has_bits(r, n);
    let b = n as u32;
    let (low, high) = ((i - n) as u64, (i + n) as u64);
    assert(((x << b) >> i) & 1 == 1 <==> (i >= n && (x >> low) & 1 == 1)) by (bit_vector)
        requires
            i < 64,
            n < 64,
            b == n,
            i >= n ==> low == i - n,
    ;
    assert(((x >> b) >> i) & 1 == 1 <==> (i + n < 64 && (x >> high) & 1 == 1)) by (bit_vector)
        requires
            i < 64,
            n < 64,
            b == n,
            high == i + n,
    ;
}

/// Only numbers whose integer parts are 64 bit integers without a sign have bits.
pub proof fn law_other_values_have_no_bits(l: ResultView, r: ResultView)
    requires
        !(exists|n: u64| #[trigger] has_bits(l, n)),
    ensures
        complement(l) is None,
        conjunction(l, r) is None && conjunction(r, l) is None,
        disjunction(l, r) is None && disjunction(r, l) is None,
        exclusive_or(l, r) is None && exclusive_or(r, l) is None,
        shifted_left(l, r) is None && shifted_left(r, l) is None,
        shifted_right(l, r) is None && shifted_right(r, l) is None,
{
    if let ValueView::Number(d) = l.typ {
        if !d.negative && d.whole() <= u64::MAX {
            lemma_whole(d);
            assert(has_bits(l, d.whole() as u64));
        }
    }
}

} // verus!
