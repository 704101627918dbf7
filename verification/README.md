# notecalc

The calculation core of a note-taking calculator, written in Rust and verified with Verus.

A note such as `13km / 40km/h in min` is split into tokens and brought into postfix order by
the caller. This library evaluates the postfix tokens: numbers, percentages, quantities with
units and matrices of them.

## Layout

| Module | What it holds |
| --- | --- |
| `decimal` | decimal numbers; the arithmetic is that of the `rust_decimal` crate |
| `power` | integer powers of decimals |
| `units` | units of measurement and conversion to and from base units |
| `value` | the values of expressions, matrices among them |
| `addition`, `subtraction`, `multiplication`, `division` | arithmetic on values |
| `percentage` | percentages, and the questions that can be asked about them |
| `bitwise` | bitwise operations on the integer parts of numbers |
| `token` | tokens of the text and tokens in postfix order |
| `operation` | what each operator does to the stack |
| `evaluation` | the evaluation of postfix tokens |
| `expression` | expressions as trees, and why their postfix form has their value |
| `*_laws`, `shape` | laws that relate several operations |

## Contracts

Every executable function states its result exactly, over the views of its arguments. What
`rust_decimal` answers where a result has to be rounded is named (`rounded_sum`,
`rounded_product`, `rounded_quotient`); where nothing is rounded the contracts give the number
itself. They give its scale too, but for a quotient that needs more than two decimal places
beyond those of its operands. Operations that overflow, that divide by zero or that make no
sense answer `None`; nothing panics.

## Functions

The library does not know the functions that an expression can call. `evaluate_tokens` stops
at a call and hands the caller the evaluation with its stack of values. The caller takes the
arguments off the stack, puts the function's value on it, and calls `resume_evaluation`.
