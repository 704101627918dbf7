use notecalc::decimal::Decimal;
use notecalc::evaluation::evaluate_tokens;
use notecalc::evaluation::resume_evaluation;
use notecalc::evaluation::EvaluationResult;
use notecalc::evaluation::Progress;
use notecalc::token::FnType;
use notecalc::token::OperatorTokenType;
use notecalc::token::ShuntingYardResult;
use notecalc::token::Token;
use notecalc::token::TokenType;
use notecalc::token::UnitTokenType;
use notecalc::token::Variable;
use notecalc::units::UnitInstance;
use notecalc::units::UnitOutput;
use notecalc::units::DIMENSION_COUNT;
use notecalc::value::CalcResult;
use notecalc::value::CalcResultType;

const DECIMAL_COUNT: usize = 4;

// ---- numbers ----

/// The decimal that a text such as `-0.25` stands for.
fn decimal(text: &str) -> Decimal {
    let negative = text.starts_with('-');
    let digits = text.trim_start_matches('-');
    let scale = match digits.find('.') {
        Some(point) => digits.len() - point - 1,
        None => 0,
    };
    let mantissa: u128 = digits.replace('.', "").parse().unwrap();
    Decimal::from_parts(negative, mantissa, scale as u32).unwrap()
}

fn outside(d: &Decimal) -> rust_decimal::Decimal {
    let (negative, mantissa, scale) = d.parts();
    let mut r = rust_decimal::Decimal::from_i128_with_scale(mantissa as i128, scale);
    r.set_sign_negative(negative);
    r
}

/// Whether a number shows as `expected` with `dec_count` decimal places.
fn shows_as(actual: &Decimal, expected: &str, dec_count: usize) -> bool {
    let expected_number = decimal(expected);
    let shown = expected_number.parts().2 as usize;
    let places = std::cmp::max(shown, std::cmp::min(dec_count, DECIMAL_COUNT)) as u32;
    let difference = (outside(actual) - outside(&expected_number)).abs();
    if places < 28 {
        difference <= rust_decimal::Decimal::from_i128_with_scale(5, places + 1)
    } else {
        difference.is_zero()
    }
}

// ---- units ----

const MASS: usize = 0;
const LENGTH: usize = 1;
const TIME: usize = 2;
const CURRENT: usize = 3;
const TEMPERATURE: usize = 4;
const AMOUNT: usize = 5;
const ANGLE: usize = 6;
const BIT: usize = 7;
const MONEY: usize = 8;

/// The size of a unit in base units, its prefix and its dimensions.
fn table(name: &str) -> (&'static str, &'static str, Vec<(usize, i64)>) {
    match name {
        "m" | "meter" | "meters" => ("1", "1", vec![(LENGTH, 1)]),
        "cm" => ("1", "0.01", vec![(LENGTH, 1)]),
        "mm" => ("1", "0.001", vec![(LENGTH, 1)]),
        "km" => ("1", "1000", vec![(LENGTH, 1)]),
        "ft" => ("0.3048", "1", vec![(LENGTH, 1)]),
        "in" => ("0.0254", "1", vec![(LENGTH, 1)]),
        "mi" | "mile" | "miles" => ("1609.344", "1", vec![(LENGTH, 1)]),
        "g" => ("0.001", "1", vec![(MASS, 1)]),
        "kg" => ("0.001", "1000", vec![(MASS, 1)]),
        "mg" => ("0.001", "0.001", vec![(MASS, 1)]),
        "t" => ("1000", "1", vec![(MASS, 1)]),
        "s" | "second" | "seconds" => ("1", "1", vec![(TIME, 1)]),
        "min" | "minute" => ("60", "1", vec![(TIME, 1)]),
        "h" | "hour" | "hours" => ("3600", "1", vec![(TIME, 1)]),
        "month" => ("2629800", "1", vec![(TIME, 1)]),
        "year" | "years" => ("31557600", "1", vec![(TIME, 1)]),
        "decade" | "decades" => ("315576000", "1", vec![(TIME, 1)]),
        "century" | "centuries" => ("3155760000", "1", vec![(TIME, 1)]),
        "millennium" | "millennia" => ("31557600000", "1", vec![(TIME, 1)]),
        "Hz" => ("1", "1", vec![(TIME, -1)]),
        "N" => ("1", "1", vec![(MASS, 1), (LENGTH, 1), (TIME, -2)]),
        "lbf" => ("4.4482216152605", "1", vec![(MASS, 1), (LENGTH, 1), (TIME, -2)]),
        "J" => ("1", "1", vec![(MASS, 1), (LENGTH, 2), (TIME, -2)]),
        "cal" => ("4.1868", "1", vec![(MASS, 1), (LENGTH, 2), (TIME, -2)]),
        "kcal" => ("4.1868", "1000", vec![(MASS, 1), (LENGTH, 2), (TIME, -2)]),
        "rad" | "radian" => ("1", "1", vec![(ANGLE, 1)]),
        "deg" | "degree" => ("0.0174532925199432957692369077", "1", vec![(ANGLE, 1)]),
        "K" => ("1", "1", vec![(TEMPERATURE, 1)]),
        "mol" => ("1", "1", vec![(AMOUNT, 1)]),
        "A" => ("1", "1", vec![(CURRENT, 1)]),
        "b" | "bits" => ("1", "1", vec![(BIT, 1)]),
        "kb" => ("1", "1000", vec![(BIT, 1)]),
        "Kib" => ("1", "1024", vec![(BIT, 1)]),
        "Mb" => ("1", "1000000", vec![(BIT, 1)]),
        "byte" | "bytes" => ("8", "1", vec![(BIT, 1)]),
        "exabytes" => ("8", "1000000000000000000", vec![(BIT, 1)]),
        "MB" => ("8", "1000000", vec![(BIT, 1)]),
        "GB" => ("8", "1000000000", vec![(BIT, 1)]),
        "MiB" => ("8", "1048576", vec![(BIT, 1)]),
        "PiB" => ("8", "1125899900000000", vec![(BIT, 1)]),
        "l" | "L" => ("0.001", "1", vec![(LENGTH, 3)]),
        "ml" => ("0.001", "0.001", vec![(LENGTH, 3)]),
        "Yl" => ("0.001", "1000000000000000000000000", vec![(LENGTH, 3)]),
        "$" => ("1", "1", vec![(MONEY, 1)]),
        _ => panic!("no such unit: {}", name),
    }
}

/// The unit that a text such as `kg*m/s^2`, `(kg m) / s^2` or `/ month` stands for.
fn unit_of(text: &str) -> UnitOutput {
    let mut units: Vec<UnitInstance> = vec![];
    let mut dimensions = [0i64; DIMENSION_COUNT];
    for (i, part) in text.split('/').enumerate() {
        let sign: i64 = if i == 0 { 1 } else { -1 };
        for factor in part.split(|c: char| c == '*' || c == ' ' || c == '(' || c == ')') {
            if factor.is_empty() || factor == "1" {
                continue;
            }
            let (name, power) = match factor.find('^') {
                Some(at) => (&factor[..at], factor[at + 1..].parse::<i64>().unwrap()),
                None => (factor, 1),
            };
            let (value, prefix, base) = table(name);
            units.push(UnitInstance {
                id: units.len() as u32,
                value: decimal(value),
                prefix: decimal(prefix),
                power: power * sign,
            });
            for (dimension, of) in base {
                dimensions[dimension] += of * power * sign;
            }
        }
    }
    UnitOutput { units, dimensions }
}

// ---- expressions ----

fn operator(word: &str) -> OperatorTokenType {
    match word {
        "+" => OperatorTokenType::Add,
        "-" => OperatorTokenType::Sub,
        "*" => OperatorTokenType::Mult,
        "/" => OperatorTokenType::Div,
        "^" => OperatorTokenType::Pow,
        "%" => OperatorTokenType::Perc,
        "u-" => OperatorTokenType::UnaryMinus,
        "u+" => OperatorTokenType::UnaryPlus,
        "NOT" => OperatorTokenType::BinNot,
        "AND" => OperatorTokenType::BinAnd,
        "OR" => OperatorTokenType::BinOr,
        "XOR" => OperatorTokenType::BinXor,
        "<<" => OperatorTokenType::ShiftLeft,
        ">>" => OperatorTokenType::ShiftRight,
        "in" => OperatorTokenType::UnitConverter,
        "=" => OperatorTokenType::Assign,
        "," => OperatorTokenType::Comma,
        ";" => OperatorTokenType::Semicolon,
        "(" => OperatorTokenType::ParenOpen,
        ")" => OperatorTokenType::ParenClose,
        "[" => OperatorTokenType::BracketOpen,
        "]" => OperatorTokenType::BracketClose,
        "is" => OperatorTokenType::PercentageIs,
        "Y_is_X%_on_what" => OperatorTokenType::Percentage_Find_Base_From_Result_Increase_X,
        "what_plus_X%_is_Y" => OperatorTokenType::Percentage_Find_Base_From_X_Icrease_Result,
        "X%_on_what_is_Y" => OperatorTokenType::Percentage_Find_Base_From_Icrease_X_Result,
        "Y_is_what%_on_X" => OperatorTokenType::Percentage_Find_Incr_Rate_From_Result_X_Base,
        "Y_is_X%_off_what" => OperatorTokenType::Percentage_Find_Base_From_Result_Decrease_X,
        "what_minus_X%_is_Y" => OperatorTokenType::Percentage_Find_Base_From_X_Decrease_Result,
        "X%_off_what_is_Y" => OperatorTokenType::Percentage_Find_Base_From_Decrease_X_Result,
        "Y_is_what%_off_X" => OperatorTokenType::Percentage_Find_Decr_Rate_From_Result_X_Base,
        "Y_is_what%_of_X" => OperatorTokenType::Percentage_Find_Rate_From_Result_Base,
        "Y_is_X%_of_what" => OperatorTokenType::Percentage_Find_Base_From_Result_Rate,
        _ => panic!("no such operator: {}", word),
    }
}

/// The token of a word: a number, `:km` for a unit behind a number, `=km` for a unit alone,
/// `M2x3` for a matrix, `var0` for a variable, `line0` for the value of a line, `err` for a
/// number that is none, or an operator.
fn token_type(word: &str) -> TokenType {
    let first = word.chars().next().unwrap();
    if first.is_ascii_digit() || (first == '-' && word.len() > 1) {
        TokenType::NumberLiteral(decimal(word))
    } else if word == "err" {
        TokenType::NumberErr
    } else if first == ':' {
        TokenType::Unit(UnitTokenType::ApplyToPrevToken, unit_of(&word[1..]))
    } else if first == '=' && word.len() > 1 {
        TokenType::Unit(UnitTokenType::StandInItself, unit_of(&word[1..]))
    } else if let Some(index) = word.strip_prefix("var") {
        TokenType::Variable { var_index: index.parse().unwrap() }
    } else if let Some(index) = word.strip_prefix("line") {
        TokenType::LineReference { var_index: index.parse().unwrap() }
    } else if first == 'M' {
        let (rows, cols) = word[1..].split_once('x').unwrap();
        TokenType::Operator(OperatorTokenType::Matrix {
            row_count: rows.parse().unwrap(),
            col_count: cols.parse().unwrap(),
        })
    } else {
        TokenType::Operator(operator(word))
    }
}

fn no_vars() -> Vec<Option<Variable>> {
    vec![]
}

/// Evaluates the words of an expression in postfix order.
fn evaluate_with(postfix: &str, vars: &Vec<Option<Variable>>) -> Progress {
    let mut tokens: Vec<Token> = vec![];
    let mut shunting: Vec<ShuntingYardResult> = vec![];
    for word in postfix.split_whitespace() {
        shunting.push(ShuntingYardResult::new(token_type(word), tokens.len()));
        tokens.push(Token { typ: token_type(word), has_error: false });
    }
    evaluate_tokens(&mut tokens, &shunting, vars)
}

fn answer(progress: Progress) -> Result<Option<EvaluationResult>, ()> {
    match progress {
        Progress::Finished(answer) => answer,
        Progress::Call { .. } => panic!("a function call"),
    }
}

/// Whether two units are made of the same factors.
fn same_factors(a: &UnitOutput, b: &UnitOutput) -> bool {
    a.units.len() == b.units.len()
        && a.units
            .iter()
            .zip(&b.units)
            .all(|(f, g)| f.value == g.value && f.prefix == g.prefix && f.power == g.power)
}

/// Whether a value shows as a text such as `5 km / h`, `15 %` or `[2, 3; 4, 5]`. After a
/// conversion it shows in its own unit.
fn value_shows_as(value: &CalcResultType, expected: &str, dec_count: usize, converted: bool) -> bool {
    match value {
        CalcResultType::Number(n) => shows_as(n, expected, dec_count),
        CalcResultType::Percentage(n) => match expected.strip_suffix(" %") {
            Some(number) => shows_as(n, number, dec_count),
            None => false,
        },
        CalcResultType::Quantity(n, unit) => {
            let (number, name) = match expected.split_once(' ') {
                Some((number, name)) => (number, name),
                None => (expected, ""),
            };
            let shown = unit_of(name);
            shown == *unit
                && (!converted || same_factors(&shown, unit))
                && shows_as(&shown.from_base_to_this_unit(n).unwrap(), number, dec_count)
        }
        CalcResultType::Matrix(m) => {
            let inner = expected.trim_start_matches('[').trim_end_matches(']');
            let rows: Vec<&str> = inner.split("; ").collect();
            let mut cells: Vec<&str> = vec![];
            for row in &rows {
                cells.extend(row.split(", "));
            }
            m.row_count == rows.len()
                && m.row_count * m.col_count == cells.len()
                && m.cells.len() == cells.len()
                && m.cells.iter().zip(cells).all(|(c, e)| value_shows_as(&c.typ, e, dec_count, converted))
        }
        CalcResultType::Unit(_) => false,
    }
}

fn test_vars(vars: &Vec<Option<Variable>>, text: &str, postfix: &str, expected: &str, dec_count: usize) {
    match answer(evaluate_with(postfix, vars)) {
        Err(()) => assert_eq!("Err", expected, "{}", text),
        Ok(None) => assert_eq!(" ", expected, "{}", text),
        Ok(Some(result)) => assert!(
            value_shows_as(
                &result.result.typ,
                expected,
                dec_count,
                result.there_was_unit_conversion
            ),
            "{}: {:?} does not show as {}",
            text,
            result.result.typ,
            expected
        ),
    }
}

fn test(text: &str, postfix: &str, expected: &str) {
    test_vars(&no_vars(), text, postfix, expected, DECIMAL_COUNT);
}

fn test_with_dec_count(dec_count: usize, text: &str, postfix: &str, expected: &str) {
    test_vars(&no_vars(), text, postfix, expected, dec_count);
}

// ---- tokens ----

fn token(typ: TokenType, has_error: bool) -> Token {
    Token { typ, has_error }
}

fn num(n: u64) -> Token {
    token(TokenType::NumberLiteral(Decimal::from(n)), false)
}

fn num_with_err(n: u64) -> Token {
    token(TokenType::NumberLiteral(Decimal::from(n)), true)
}

fn op(typ: OperatorTokenType) -> Token {
    token(TokenType::Operator(typ), false)
}

fn op_err(typ: OperatorTokenType) -> Token {
    token(TokenType::Operator(typ), true)
}

fn str(_text: &str) -> Token {
    token(TokenType::StringLiteral, false)
}

fn unit(name: &str) -> Token {
    token(TokenType::Unit(UnitTokenType::StandInItself, unit_of(name)), false)
}

fn apply_to_prev_token_unit(name: &str) -> Token {
    token(TokenType::Unit(UnitTokenType::ApplyToPrevToken, unit_of(name)), false)
}

/// Evaluates tokens of the text in the given order and compares what becomes of them.
fn test_tokens(text: &str, tokens: &[Token], order: &[usize], expected: &[Token]) -> Progress {
    let mut tokens: Vec<Token> = tokens.to_vec();
    let shunting: Vec<ShuntingYardResult> =
        order.iter().map(|i| ShuntingYardResult::new(tokens[*i].typ.clone(), *i)).collect();
    let progress = evaluate_tokens(&mut tokens, &shunting, &no_vars());
    assert_eq!(tokens, expected, "{}", text);
    progress
}

/// Tokens that the evaluation leaves as they are.
fn test_tokens_are_kept(text: &str, order: &[usize], tokens: &[Token]) {
    let _ = test_tokens(text, tokens, order, tokens);
}

// ---- the tests ----

#[test]
fn calc_tests() {
    test("2^-2", "2 2 u- ^", "0.25");
    test_with_dec_count(5, "5km + 5cm", "5 :km 5 :cm +", "5.00005 km");
    test("5kg*m / 1s^2", "5 :kg*m 1 :s^2 /", "5 N");
    test("0.000001 km2 in m2", "0.000001 :km^2 =m^2 in", "1 m^2");
    test("0.000000001 km3 in m3", "0.000000001 :km^3 =m^3 in", "1 m^3");

    test("0.000000002 km^3 in m^3", "0.000000002 :km^3 =m^3 in", "2 m^3");
    test("0.000000002 km3 in m^3", "0.000000002 :km^3 =m^3 in", "2 m^3");

    test("2 - -1", "2 1 u- -", "3");

    test("24 bla + 0", "24 0 +", "24");

    // should skip automatic simplification if created directly in the constructor
    test("9.81 kg*m/s^2 * 1", "9.81 :kg*m/s^2 1 *", "9.81 N");

    // should test whether two units are equal
    test("100 cm in m", "100 :cm =m in", "1 m");
    test("5000 cm in m", "5000 :cm =m in", "50 m");

    test("100 ft * lbf in (in*lbf)", "100 :ft*lbf =in*lbf in", "1200 in lbf");
    test("100 N in kg*m / s ^ 2", "100 :N =kg*m/s^2 in", "100 (kg m) / s^2");
    test("100 cm in m", "100 :cm =m in", "1 m");
    test("100 Hz in 1/s", "100 :Hz =1/s in", "100 / s");
    test("() Hz", "=Hz", " ");

    test("1 ft * lbf * 2 rad", "1 :ft*lbf 2 :rad *", "2 ft lbf rad");
    test("1 ft * lbf * 2 rad in in*lbf*rad", "1 :ft*lbf 2 :rad * =in*lbf*rad in", "24 in lbf rad");
    test("(2/3)m", "2 3 / :m", "0.6667 m");
    test_with_dec_count(50, "(2/3)m", "2 3 / :m", "0.6667 m");
    test_with_dec_count(50, "2/3m", "2 3 :m /", "0.6667 / m");

    test("123 N in (kg m)/s^2", "123 :N =kg*m/s^2 in", "123 (kg m) / s^2");

    test("1 km / 3000000 mm", "1 :km 3000000 :mm /", "0.3333");
    test_with_dec_count(100, "1 km / 3000000 mm", "1 :km 3000000 :mm /", "0.3333");

    test("5kg * 1", "5 :kg 1 *", "5 kg");
    test("5 kg * 1", "5 :kg 1 *", "5 kg");
    test(" 5 kg  * 1", "5 :kg 1 *", "5 kg");
    test("-5kg  * 1", "5 :kg u- 1 *", "-5 kg");
    test("+5kg  * 1", "5 :kg u+ 1 *", "5 kg");
    test(".5kg  * 1", "0.5 :kg 1 *", "0.5 kg");
    test_with_dec_count(6, "-5mg in kg", "5 :mg u- =kg in", "-0.000005 kg");
    test("5.2mg * 1", "5.2 :mg 1 *", "5.2 mg");

    test("981 cm/s^2 in m/s^2", "981 :cm/s^2 =m/s^2 in", "9.81 m / s^2");
    test("5exabytes in bytes", "5 :exabytes =bytes in", "5000000000000000000 bytes");
    test(
        "8.314 kg*(m^2 / (s^2 / (K^-1 / mol))) * 1",
        "8.314 :kg*m^2*s^-2*K^-1*mol^-1 1 *",
        "8.314 (kg m^2) / (s^2 K mol)",
    );

    test("9.81 meters/second^2 * 1", "9.81 :meters/second^2 1 *", "9.81 meter / second^2");
    test("10 decades in decade", "10 :decades =decade in", "10 decade");
    test("10 centuries in century", "10 :centuries =century in", "10 century");
    test("10 millennia in millennium", "10 :millennia =millennium in", "10 millennium");

    test("(10 + 20)km", "10 20 + :km", "30 km");
}

#[test]
fn calc_exp_test() {
    test_with_dec_count(5, "2.3e-4 + 0", "0.00023 0 +", "0.00023");
    test("2.8e-4 + 0", "0.00028 0 +", "0.0003");

    test("1.23e50 + 0", "err 0 +", "Err");

    test("3 e + 0", "3 0 +", "3");
    test("3e + 0", "3 0 +", "3");
    test("33e + 0", "33 0 +", "33");
    test("3e3 + 0", "3000 0 +", "3000");

    // it interprets it as 3 - (-3)
    test("3e--3", "3 3 u- -", "6");

    // invalid input tests
    test("2.3e4e5 + 0", "23000 0 +", "23000");
}

#[test]
fn test_percentages() {
    test("200 km/h * 10%", "200 :km/h 10 % *", "20 km / h");
    test("200 km/h * 0%", "200 :km/h 0 % *", "0 km / h");
    test("200 km/h + 10%", "200 :km/h 10 % +", "220 km / h");
    test("200 km/h - 10%", "200 :km/h 10 % -", "180 km / h");
    test("200 km/h + 0%", "200 :km/h 0 % +", "200 km / h");
    test("200 km/h - 0%", "200 :km/h 0 % -", "200 km / h");

    test("0 + 10%", "0 10 % +", "0");
    test("200 - 10%", "200 10 % -", "180");
    test("200 - 0%", "200 0 % -", "200");
    test("0 - 10%", "0 10 % -", "0");
    test("200 * 10%", "200 10 % *", "20");
    test("200 * 0%", "200 0 % *", "0");
    test("10% * 200", "10 % 200 *", "20");
    test("0% * 200", "0 % 200 *", "0");
    test("(10 + 20)%", "10 20 + %", "30 %");

    test("30/200%", "30 200 % /", "15 %");
}

#[test]
fn test_longer_texts3() {
    test("I traveled 13km at a rate / 40km/h in min", "13 :km 40 :km/h / =min in", "19.5 min");
}

#[test]
fn test_longer_texts3_tokens() {
    test_tokens_are_kept(
        "I traveled 13km at a rate / 40km/h in min",
        &[4, 5, 15, 16, 13, 20, 18],
        &[
            str("I"),
            str(" "),
            str("traveled"),
            str(" "),
            num(13),
            apply_to_prev_token_unit("km"),
            str(" "),
            str("at"),
            str(" "),
            str("a"),
            str(" "),
            str("rate"),
            str(" "),
            op(OperatorTokenType::Div),
            str(" "),
            num(40),
            apply_to_prev_token_unit("km / h"),
            str(" "),
            op(OperatorTokenType::UnitConverter),
            str(" "),
            unit("min"),
        ],
    );
}

#[test]
fn test_longer_texts() {
    test(
        "I traveled 24 miles and rode my bike  / 2 hours",
        "24 :miles 2 :hours /",
        "12 mile / hour",
    );
    test(
        "Now let's say you rode your bike at a rate of 10 miles/h for * 4 h in mile",
        "10 :miles/h 4 :h * =mile in",
        "40 mile",
    );
    test(
        "Now let's say you rode your bike at a rate of 10 miles/h for * 4 h",
        "10 :miles/h 4 :h *",
        "64373.76 m",
    );
    test(
        " is a unit but should not be handled here so... 37.5MB*1 of DNA information in it.",
        "37.5 :MB 1 *",
        "37.5 MB",
    );
}

#[test]
fn test_longer_texts2() {
    test(
        "transfer of around 1.587GB in about / 3 seconds",
        "1.587 :GB 3 :seconds /",
        "0.529 GB / second",
    );
}

#[test]
fn test_result_heuristics() {
    // 2 numbers but no oepration, select none
    test("2.3e4.0e5", "23000", "23000");

    // ignore "15" and return with the last successful operation
    test("75-15 euróból kell adózni mert 15 EUR adómentes", "75 15 - 15", "60");

    test("15 EUR adómentes azaz 75-15 euróból kell adózni", "15 75 15 -", "60");
}

#[test]
fn test_dont_count_zeroes() {
    test("1k * 1", "1000 1 *", "1000");
    test("2k * 1", "2000 1 *", "2000");
    test("3k - 2k", "3000 2000 -", "1000");

    test("1k*1", "1000 1 *", "1000");
    test("2k*1", "2000 1 *", "2000");
    test("3k-2k", "3000 2000 -", "1000");

    test("1M * 1", "1000000 1 *", "1000000");
    test("2M * 1", "2000000 1 *", "2000000");
    test("3M - 2M", "3000000 2000000 -", "1000000");

    test("3M + 1k", "3000000 1000 +", "3001000");
    test("3M * 2k", "3000000 2000 *", "6000000000");
    // missing digit
    test("3M + k", "3000000", "3000000");

    test("2kalap * 1", "2 1 *", "2");
}

#[test]
fn test_quant_vs_non_quant() {
    test("12 km/h * 5 ", "12 :km/h 5 *", "60 km / h");
    test("200kg alma + 300 kg banán ", "200 :kg 300 :kg +", "500 kg");

    test("3000/50ml", "3000 50 :ml /", "60 / ml");
    test("(3000/50)ml", "3000 50 / :ml", "60 ml");
    test("3000/(50ml)", "3000 50 :ml /", "60 / ml");
    test("1/(2km/h)", "1 2 :km/h /", "0.5 h / km");
}

#[test]
fn tests_for_invalid_input() {
    test("3", "3", "3");
    test("3e-3-", "0.003", "0.003");

    test_tokens_are_kept(
        "[2, asda]",
        &[],
        &[str("["), str("2"), str(","), str(" "), str("asda"), str("]")],
    );
    test("[2, asda]", "", " ");

    test(
        "2+3 - this minus sign is part of the text, should not affect the result",
        "2 3 +",
        "5",
    );

    test_tokens_are_kept(
        "1szer sem jött el + *megjegyzés 2 éve...",
        &[0],
        &[
            num(1),
            str("szer"),
            str(" "),
            str("sem"),
            str(" "),
            str("jött"),
            str(" "),
            str("el"),
            str(" "),
            str("+"),
            str(" "),
            str("*"),
            str("megjegyzés"),
            str(" "),
            str("2"),
            str(" "),
            str("éve..."),
        ],
    );
    test("1szer sem jött el + *megjegyzés 2 éve...", "1", "1");

    test("100 Hz in s", "100 :Hz =s in", "Err");

    test("12m/h * 45s ^^", "12 :m/h 45 :s *", "0.15 m");
    test("12km/h * 45s ^^", "12 :km/h 45 :s *", "150 m");
    test_tokens_are_kept(
        "12km/h * 45s ^^",
        &[0, 1, 5, 6, 3],
        &[
            num(12),
            apply_to_prev_token_unit("km / h"),
            str(" "),
            op(OperatorTokenType::Mult),
            str(" "),
            num(45),
            apply_to_prev_token_unit("s"),
            str(" "),
            str("^"),
            str("^"),
        ],
    );

    // matrix
    test_tokens_are_kept(
        "1 + [2,]",
        &[0],
        &[num(1), str(" "), str("+"), str(" "), str("["), str("2"), str(","), str("]")],
    );
    test("1 + [2,]", "1", "1");

    // multiply operator must be explicit, "5" is ignored here
    test("5(1+2)", "5 1 2 +", "3");

    // invalid
    test("[[2 * 1]]", "2 1 * M1x1", "[2]");
    test("[[2 * 3, 4]]", "2 3 * 4 M1x2", "[6, 4]");
    test("[[2 * 1, 3], [4, 5]]", "2 1 * 3 M1x2 4 5 M1x2", "[4, 5]");
}

#[test]
fn calc_simplify_units() {
    // simplify from base to derived units if possible
    test("3 kg * m * 1 s^-2", "3 :kg*m 1 :s^-2 *", "3 N");

    test("128PiB / 30Mb/s", "128 :PiB 30 :Mb/s /", "38430716586.6667 s");
    test_with_dec_count(39, "128PiB / 30Mb/s", "128 :PiB 30 :Mb/s /", "38430716586.6667 s");
    test_with_dec_count(40, "128PiB / 30Mb/s", "128 :PiB 30 :Mb/s /", "38430716586.6667 s");
}

#[test]
fn unit_calcs() {
    test_with_dec_count(5, "50km + 50mm", "50 :km 50 :mm +", "50.00005 km");
    test_with_dec_count(5, "50km - 50mm", "50 :km 50 :mm -", "49.99995 km");
    test("5kg * 5g", "5 :kg 5 :g *", "0.025 kg^2");
    test("5km * 5mm", "5 :km 5 :mm *", "25 m^2");
}

#[test]
fn test_calc_angles() {
    test("1 radian in rad", "1 :radian =rad in", "1 rad");
    test_with_dec_count(
        51,
        "1 deg in rad",
        "1 :deg =rad in",
        "0.0174532925199432957692369077 rad",
    );
}

#[test]
fn test_cancelling_out() {
    test("40 m * 40 N / 40 J", "40 :m 40 :N * 40 :J /", "40");
    test("3 (s^-1) * 4 s", "3 :s^-1 4 :s *", "12");
    test("(8.314 J / mol / K) ^ 0", "8.314 :J/mol/K 0 ^", "1");
    test("60 minute / 1 s", "60 :minute 1 :s /", "3600");
    test_with_dec_count(
        303,
        "60 km/h*h/h/h * 1",
        "60 :km*h^-1*h*h^-1*h^-1 1 *",
        "0.0046296296296296296296296307 m / s^2",
    );
    // it is a very important test, if it gets converted wrongly
    // then 60 km/h is converted to m/s, which is 16.6666...7 m/s,
    // and it causes inaccuracies
    test("60km/h * 2h", "60 :km/h 2 :h *", "120000 m");
    test("60km/h * 2h in km", "60 :km/h 2 :h * =km in", "120 km");
    test("1s * 2s^-1", "1 :s 2 :s^-1 *", "2");
    test("2s * 3(s^-1)", "2 :s 3 :s^-1 *", "6");
    test("2s * 3(1/s)", "2 :s 3 :1/s *", "6");
}

#[test]
fn test_calc_inside_matrix() {
    test("[2 * 1]", "2 1 * M1x1", "[2]");
    test("[2 * 1, 3]", "2 1 * 3 M1x2", "[2, 3]");
    test("[2 * 1, 3, 4, 5, 6]", "2 1 * 3 4 5 6 M1x5", "[2, 3, 4, 5, 6]");

    test("[2+3]", "2 3 + M1x1", "[5]");
    test(
        "[2+3, 4 - 1, 5*2, 6/3, 2^4]",
        "2 3 + 4 1 - 5 2 * 6 3 / 2 4 ^ M1x5",
        "[5, 3, 10, 2, 16]",
    );

    test("[2 * 1]", "2 1 * M1x1", "[2]");
    test("[2 * 3; 4]", "2 3 * 4 M2x1", "[6; 4]");
    test("[2 * 1, 3; 4, 5]", "2 1 * 3 4 5 M2x2", "[2, 3; 4, 5]");
}

#[test]
fn test_matrix_addition() {
    test("[2] + [3]", "2 M1x1 3 M1x1 +", "[5]");
    test("[2, 3] + [4, 5]", "2 3 M1x2 4 5 M1x2 +", "[6, 8]");
    test("[2, 3, 4] + [5, 6, 7]", "2 3 4 M1x3 5 6 7 M1x3 +", "[7, 9, 11]");
    test("[2; 3] + [4; 5]", "2 3 M2x1 4 5 M2x1 +", "[6; 8]");
    test(
        "[2, 3, 4; 5, 6, 7] + [8, 9, 10; 11, 12, 13]",
        "2 3 4 5 6 7 M2x3 8 9 10 11 12 13 M2x3 +",
        "[10, 12, 14; 16, 18, 20]",
    );

    test("2 km + [3]", "2 :km 3 M1x1 +", "Err");
    test("[2 km] + [3]", "2 :km M1x1 3 M1x1 +", "Err");
}

#[test]
fn test_matrix_sub() {
    test("[2] - [3]", "2 M1x1 3 M1x1 -", "[-1]");
    test("[2, 3] - [4, 5]", "2 3 M1x2 4 5 M1x2 -", "[-2, -2]");
    test("[2, 3, 4] - [5, 6, 7]", "2 3 4 M1x3 5 6 7 M1x3 -", "[-3, -3, -3]");
    test("[4; 5] - [2; 3]", "4 5 M2x1 2 3 M2x1 -", "[2; 2]");

    test("[2 km] - [3]", "2 :km M1x1 3 M1x1 -", "Err");
}

#[test]
fn test_matrix_scalar_mult() {
    test("3 * [2]", "3 2 M1x1 *", "[6]");
    test("[2] * 6", "2 M1x1 6 *", "[12]");

    test("2 * [2, 3]", "2 2 3 M1x2 *", "[4, 6]");
    test("2 * [2, 3, 4]", "2 2 3 4 M1x3 *", "[4, 6, 8]");
    test("2 * [2; 3]", "2 2 3 M2x1 *", "[4; 6]");
    test("2 * [2, 3; 4, 5]", "2 2 3 4 5 M2x2 *", "[4, 6; 8, 10]");
    test("[2, 3; 4, 5] * 2", "2 3 4 5 M2x2 2 *", "[4, 6; 8, 10]");

    test("2km * [2]", "2 :km 2 M1x1 *", "[4 km]");
}

#[test]
fn div_by_zero() {
    test("1 / 0", "1 0 /", "Err");
    test("1kg / 0", "1 :kg 0 /", "Err");
    test("1m / 0s", "1 :m 0 :s /", "Err");
    test("1% / 0", "1 % 0 /", "Err");
    test("10 / 0%", "10 0 % /", "Err");
}

#[test]
fn test_matrix_scalar_div() {
    test("3 / [2]", "3 2 M1x1 /", "Err");
    test("[6] / 2", "6 M1x1 2 /", "[3]");

    test("[6, 10] / 2", "6 10 M1x2 2 /", "[3, 5]");
    test("[2, 3, 4] / 2", "2 3 4 M1x3 2 /", "[1, 1.5, 2]");
    test("[2; 3] / 2", "2 3 M2x1 2 /", "[1; 1.5]");
    test("[2, 3; 4, 5] / 2", "2 3 4 5 M2x2 2 /", "[1, 1.5; 2, 2.5]");

    test("[100g] / 2g", "100 :g M1x1 2 :g /", "[50]");
}

#[test]
fn test_matrix_matrix_mult() {
    test("[3] * [2]", "3 M1x1 2 M1x1 *", "[6]");
    test("[2;3] * [4, 5]", "2 3 M2x1 4 5 M1x2 *", "[8, 10; 12, 15]");

    test(
        "[1,2,3,4; 5,6,7,8; 9,10,11,12; 13,14,15,16] * [30;40;50;60]",
        "1 2 3 4 5 6 7 8 9 10 11 12 13 14 15 16 M4x4 30 40 50 60 M4x1 *",
        "[500; 1220; 1940; 2660]",
    );

    test(
        "[2,3,4,5] * [2,3,4,5; 6,7,8,9; 10,11,12,13; 14,15,16,17]",
        "2 3 4 5 M1x4 2 3 4 5 6 7 8 9 10 11 12 13 14 15 16 17 M4x4 *",
        "[132, 146, 160, 174]",
    );
    test("[3m] * [2cm]", "3 :m M1x1 2 :cm M1x1 *", "[0.06 m^2]");

    test("[2,3] * [4]", "2 3 M1x2 4 M1x1 *", "Err");
}

#[test]
fn matrix_unit() {
    test(
        "[2cm,3mm; 4m,5km] in m",
        "2 :cm 3 :mm 4 :m 5 :km M2x2 =m in",
        "[0.02 m, 0.003 m; 4 m, 5000 m]",
    );
}

#[test]
fn kcal_unit_tokens() {
    test_tokens_are_kept(
        "1 cal in J",
        &[0, 2, 6, 4],
        &[
            num(1),
            str(" "),
            apply_to_prev_token_unit("cal"),
            str(" "),
            op(OperatorTokenType::UnitConverter),
            str(" "),
            unit("J"),
        ],
    );
}

#[test]
fn kcal_unit() {
    test("1 cal in J", "1 :cal =J in", "4.1868 J");
    test("3kcal in J", "3 :kcal =J in", "12560.4 J");
}

#[test]
fn test_eval_failure_changes_token_type() {
    test_tokens_are_kept(
        "1 - not_variable",
        &[0],
        &[num(1), str(" "), str("-"), str(" "), str("not_variable")],
    );
}

#[test]
fn test_matrix_wont_take_operands_from_outside_its_scope() {
    test("1 + [2, asda]", "1", "1");
}

#[test]
fn test_bitwise_ops() {
    test("0xFF AND 0b111", "255 7 AND", "7");

    test_tokens_are_kept(
        "0xFF AND(0b11 OR 0b1111)",
        &[0, 4, 8, 6, 2],
        &[
            num(0xff),
            str(" "),
            op(OperatorTokenType::BinAnd),
            op(OperatorTokenType::ParenOpen),
            num(0b11),
            str(" "),
            op(OperatorTokenType::BinOr),
            str(" "),
            num(0b1111),
            op(OperatorTokenType::ParenClose),
        ],
    );

    test("0xFF AND(0b11 OR 0b1111)", "255 3 15 OR AND", "15");
}

#[test]
fn test_unfinished_operators() {
    test_tokens_are_kept(
        "0xFF AND 0b11 AND",
        &[0, 4, 2],
        &[
            num(0xff),
            str(" "),
            op(OperatorTokenType::BinAnd),
            str(" "),
            num(0b11),
            str(" "),
            str("AND"),
        ],
    );
}

#[test]
fn test_binary() {
    ///// binary
    // Kibi BIT!
    test("1 Kib in bits", "1 :Kib =bits in", "1024 bits");
    test("1 Kib in bytes", "1 :Kib =bytes in", "128 bytes");
    test("1 Kib/s in b/s", "1 :Kib/s =b/s in", "1024 b / s");

    test("1kb in bytes", "1 :kb =bytes in", "125 bytes");
}

#[test]
fn test_variables() {
    let vars: Vec<Option<Variable>> = vec![Some(Variable {
        name: "var".to_string(),
        value: Ok(CalcResult::new(CalcResultType::Number(decimal("12")), 0)),
    })];
    test_vars(&vars, "var * 2", "var0 2 *", "24", 0);
    test_vars(&vars, "var - var", "var0 var0 -", "0", 0);
}

#[test]
fn test_unit_cancelling() {
    test("1 km / 50m", "1 :km 50 :m /", "20");

    test_tokens_are_kept(
        "1 km/m",
        &[0, 2],
        &[num(1), str(" "), apply_to_prev_token_unit("km / m")],
    );
    test("1 km/m", "1 :km/m", "1000");
    test("1 m/km", "1 :m/km", "0.001");
    test_with_dec_count(
        100,
        "140k h/ month",
        "140000 :h/month",
        "191.6495550992470910335272",
    );

    test("1 m*km", "1 :m*km", "1000 m^2");
}

#[test]
fn test_financial_without_dollar_sign() {
    test("2 year / 1 month", "2 :year 1 :month /", "24");
}

#[test]
fn test_unit_money() {
    test_tokens_are_kept(
        "10 $/month",
        &[0, 2],
        &[num(10), str(" "), apply_to_prev_token_unit("$ / month")],
    );
    test("1 $/month", "1 :$/month", "1 $ / month");
    test("140k $ / month * 3 years", "140000 :$/month 3 :years *", "5040000 $");
}

#[test]
fn test_bitwise_not() {
    test("NOT(0b11)", "3 NOT", "18446744073709551612");
    test("13 AND NOT(4 - 1)", "13 4 1 - NOT AND", "12");
}

#[test]
fn test_fraction_reduction_rounding() {
    test_with_dec_count(
        1000,
        "0.0030899999999999999999999999",
        "0.0030899999999999999999999999",
        "0.003090",
    );
}

#[test]
fn test_single_brackets() {
    test("[", "", " ");
    test("]", "", " ");
    test("(", "", " ");
    test(")", "", " ");
    test("=", "=", " ");
}

#[test]
fn test_fraction_reduction_rounding2() {
    test_with_dec_count(
        1000,
        "5 m^2/s in km^2/h",
        "5 :m^2/s =km^2/h in",
        "0.0180 km^2 / h",
    );
}

#[test]
fn test_error_for_pow_percent() {
    let progress = test_tokens(
        "30^5%",
        &[num(30), op(OperatorTokenType::Pow), num(5), op(OperatorTokenType::Perc)],
        &[0, 2, 3, 1],
        &[
            num_with_err(30),
            op_err(OperatorTokenType::Pow),
            num_with_err(5),
            op_err(OperatorTokenType::Perc),
        ],
    );
    assert!(answer(progress).is_err());
}

#[test]
fn test_zero_negativ_pow() {
    test("0^-1", "0 1 u- ^", "Err");
}

#[test]
fn test_simple_unit() {
    test("30 years", "30 :years", "30 year");
}

#[test]
fn test_error_wrong_result_year_multiply() {
    test("30 years * 12(1/year)", "30 :years 12 :1/year *", "360");
    test("30 years * 12/year", "30 :years 12 * =year /", "360");
}

#[test]
fn test_unit_in_denominator() {
    test("12/year", "12 =year /", "12 / year");
}

#[test]
fn test_unit_in_denominator_tokens() {
    test_tokens_are_kept(
        "12/year",
        &[0, 2, 1],
        &[num(12), op(OperatorTokenType::Div), unit("year")],
    );
}

#[test]
fn test_unit_in_denominator_tokens2() {
    test_tokens_are_kept(
        "1/12/year",
        &[0, 2, 1, 4, 3],
        &[
            num(1),
            op(OperatorTokenType::Div),
            num(12),
            op(OperatorTokenType::Div),
            unit("year"),
        ],
    );
}

#[test]
fn test_unit_in_denominator_tokens_with_parens() {
    test_tokens_are_kept(
        "(12/year)",
        &[1, 3, 2],
        &[
            op(OperatorTokenType::ParenOpen),
            num(12),
            op(OperatorTokenType::Div),
            unit("year"),
            op(OperatorTokenType::ParenClose),
        ],
    );
}

#[test]
fn test_that_pow_has_higher_precedence_than_unit() {
    test_tokens_are_kept(
        "10^24kg",
        &[0, 2, 1, 3],
        &[
            num(10),
            op(OperatorTokenType::Pow),
            num(24),
            apply_to_prev_token_unit("kg"),
        ],
    );
}

#[test]
fn test_huge_nums_in_scientific_form() {
    test("1e28", "10000000000000000000000000000", "10000000000000000000000000000");
    for i in 0..=28 {
        let input = format!("1e{}", i);
        let expected = format!("1{}", "0".repeat(i));
        test(&input, &expected, &expected);
    }
}

#[test]
fn test_pi() {
    test("π", "3.1415926535897932384626433833", "3.1416");
}

#[test]
fn no_panic_huge_num_vs_num() {
    test(
        "79 228 162 514 264 337 593 543 950 335",
        "79228162514264337593543950335",
        "79228162514264337593543950335",
    );
    test(
        "79228162514264337593543950335 + 79228162514264337593543950335",
        "79228162514264337593543950335 79228162514264337593543950335 +",
        "Err",
    );
    test(
        "-79228162514264337593543950335 - 79228162514264337593543950335",
        "79228162514264337593543950335 u- 79228162514264337593543950335 -",
        "Err",
    );
    test("10^28 * 10^28", "10 28 ^ 10 28 ^ *", "Err");
    test("10^28 / 10^-28", "10 28 ^ 10 28 u- ^ /", "Err");
}

#[test]
fn no_panic_huge_num_vs_perc() {
    test("10^28 + 1000%", "10 28 ^ 1000 % +", "Err");
    test(
        "79228162514264337593543950335 + 1%",
        "79228162514264337593543950335 1 % +",
        "Err",
    );
    test(
        "-79228162514264337593543950335 - (-1%)",
        "79228162514264337593543950335 u- 1 % u- -",
        "Err",
    );
    test("10^28 - 1000%", "10 28 ^ 1000 % -", "Err");
    test("10^28 * 1000%", "10 28 ^ 1000 % *", "Err");
    test("10^28 / 1000%", "10 28 ^ 1000 % /", "1000000000000000000000000000 %");
}

#[test]
fn no_panic_huge_unit_vs_perc() {
    test("10^28m + 1000%", "10 28 ^ :m 1000 % +", "Err");
    test("10^28m - 1000%", "10 28 ^ :m 1000 % -", "Err");
    test(
        "-79228162514264337593543950335m - (-1%)",
        "79228162514264337593543950335 :m u- 1 % u- -",
        "Err",
    );
    test("10^28m * 1000%", "10 28 ^ :m 1000 % *", "Err");
    test("10^28m / 1000%", "10 28 ^ :m 1000 % /", "Err");
}

#[test]
fn no_panic_huge_perc_vs_perc() {
    test("10^28% + 1000%", "10 28 % ^ 1000 % +", "Err");
    test("10^28% - 1000%", "10 28 % ^ 1000 % -", "Err");
    test("10^28% * 1000%", "10 28 % ^ 1000 % *", "Err");
    test("10^28% / 1000%", "10 28 % ^ 1000 % /", "Err");
    test(
        "-79228162514264337593543950335% - 1%",
        "79228162514264337593543950335 % u- 1 % -",
        "Err",
    );
}

#[test]
fn no_panic_huge_unit_vs_unit() {
    test(
        "79228162514264337593543950335s + 79228162514264337593543950335s",
        "79228162514264337593543950335 :s 79228162514264337593543950335 :s +",
        "Err",
    );
    test(
        "-79228162514264337593543950335s - 79228162514264337593543950335s",
        "79228162514264337593543950335 :s u- 79228162514264337593543950335 :s -",
        "Err",
    );
}

#[test]
fn test_multiplying_bug_numbers_via_unit_no_panic() {
    test("909636Yl", "909636 :Yl", "909636 Yl");
}

#[test]
fn test_huge_unit_exponent() {
    test("6K^61595", "6 :K 61595 ^", "Err");
}

#[test]
fn test_fuzzing_issue() {
    test("90-/9b^72^4", "90 9 :b 72 ^ 4 ^ -", "Err");
}

#[test]
fn calc_bug_period_calc() {
    test("(1000/month) + (2000/year)", "1000 =month / 2000 =year / +", "1166.6667 / month");
}

#[test]
fn calc_bug_period_calc2() {
    test(
        "((1000/month) + (2000/year)) * 12 month",
        "1000 =month / 2000 =year / + 12 :month *",
        "14000",
    );
}

#[test]
fn calc_bug_period_calc3() {
    test("50 000 / month * 1 year", "50000 =month / 1 :year *", "600000");
}

#[test]
fn test_u64_hex_bitwise_and() {
    test(
        "0xFF AND 0xFFFFFFFFFFFFFFFF",
        "255 18446744073709551615 AND",
        &0xFFu64.to_string(),
    );
}

#[test]
fn test_u64_hex_bitwise_or() {
    test(
        "0xFF OR 0xFFFFFFFFFFFFFFFF",
        "255 18446744073709551615 OR",
        &0xFFFFFFFFFFFFFFFFu64.to_string(),
    );
}

#[test]
fn test_u64_hex_bitwise_xor() {
    test(
        "0xFF XOR 0xFFFFFFFFFFFFFFFF",
        "255 18446744073709551615 XOR",
        &0xFFFFFFFFFFFFFF00u64.to_string(),
    );
}

#[test]
fn test_u64_hex_bitwise_shift_left() {
    test(
        "0x00FFFFFF_FFFFFFFF << 8",
        "72057594037927935 8 <<",
        &0xFFFFFFFF_FFFFFF00u64.to_string(),
    );
}

#[test]
fn test_u64_hex_bitwise_shift_right() {
    test(
        "0xFFFFFFFF_FFFFFFFF >> 8",
        "18446744073709551615 8 >>",
        &0x00FFFFFF_FFFFFFFFu64.to_string(),
    );
}

#[test]
fn test_calc_num_perc_on_what() {
    test("41 is 17% on what", "41 17 % Y_is_X%_on_what", "35.0427");
}

#[test]
fn test_calc_num_perc_on_what_tokens() {
    test_tokens_are_kept(
        "41 is 17% on what",
        &[0, 2, 4, 5, 7],
        &[
            num(41),
            str(" "),
            op(OperatorTokenType::PercentageIs),
            str(" "),
            num(17),
            op(OperatorTokenType::Perc),
            str(" "),
            op(OperatorTokenType::Percentage_Find_Base_From_Result_Increase_X),
        ],
    );
}

#[test]
fn test_calc_num_perc_on_what_2() {
    test("41 is (16%+1%) on what", "41 16 % 1 % + Y_is_X%_on_what", "35.0427");
}

#[test]
fn test_calc_num_perc_on_what_3() {
    test("41 is (16+1)% on what", "41 16 1 + % Y_is_X%_on_what", "35.0427");
}

#[test]
fn test_calc_percentage_what_plus() {
    test("what plus 17% is 41", "17 % 41 what_plus_X%_is_Y", "35.0427");
}

#[test]
fn test_calc_percentage_what_plus_2() {
    test("what plus (16%+1%) is 41", "16 % 1 % + 41 what_plus_X%_is_Y", "35.0427");
}

#[test]
fn test_calc_percentage_what_plus_3() {
    test("what plus (16+1)% is 41", "16 1 + % 41 what_plus_X%_is_Y", "35.0427");
}

#[test]
fn test_calc_perc_on_what_is() {
    test("17% on what is 41", "17 % 41 X%_on_what_is_Y", "35.0427");
}

#[test]
fn test_calc_perc_on_what_is_tokens() {
    test_tokens_are_kept(
        "17% on what is 41",
        &[0, 1, 5, 3],
        &[
            num(17),
            op(OperatorTokenType::Perc),
            str(" "),
            op(OperatorTokenType::Percentage_Find_Base_From_Icrease_X_Result),
            str(" "),
            num(41),
        ],
    );
}

#[test]
fn test_calc_perc_on_what_is_2() {
    test("(16%+1%) on what is 41", "16 % 1 % + 41 X%_on_what_is_Y", "35.0427");
}

#[test]
fn test_calc_perc_on_what_is_3() {
    test("(16+1)% on what is 41", "16 1 + % 41 X%_on_what_is_Y", "35.0427");
}

#[test]
fn test_calc_num_what_perc_on_num_tokens() {
    test("41 is what % on 35", "41 35 Y_is_what%_on_X", "17.1429 %");
}

#[test]
fn test_calc_num_perc_off_what() {
    test("41 is 17% off what", "41 17 % Y_is_X%_off_what", "49.3976");
}

#[test]
fn test_calc_num_perc_off_what_tokens() {
    test_tokens_are_kept(
        "41 is 17% off what",
        &[0, 2, 4, 5, 7],
        &[
            num(41),
            str(" "),
            op(OperatorTokenType::PercentageIs),
            str(" "),
            num(17),
            op(OperatorTokenType::Perc),
            str(" "),
            op(OperatorTokenType::Percentage_Find_Base_From_Result_Decrease_X),
        ],
    );
}

#[test]
fn test_calc_num_perc_off_what_2() {
    test("41 is (16%+1%) off what", "41 16 % 1 % + Y_is_X%_off_what", "49.3976");
}

#[test]
fn test_calc_num_perc_off_what_3() {
    test("41 is (16+1)% off what", "41 16 1 + % Y_is_X%_off_what", "49.3976");
}

#[test]
fn test_calc_percentage_what_minus() {
    test("what minus 17% is 41", "17 % 41 what_minus_X%_is_Y", "49.3976");
}

#[test]
fn test_calc_percentage_what_minus_2() {
    test("what minus (16%+1%) is 41", "16 % 1 % + 41 what_minus_X%_is_Y", "49.3976");
}

#[test]
fn test_calc_percentage_what_minus_3() {
    test("what minus (16+1)% is 41", "16 1 + % 41 what_minus_X%_is_Y", "49.3976");
}

#[test]
fn test_calc_perc_off_what_is() {
    test("17% off what is 41", "17 % 41 X%_off_what_is_Y", "49.3976");
}

#[test]
fn test_calc_perc_off_what_is_tokens() {
    test_tokens_are_kept(
        "17% off what is 41",
        &[0, 1, 5, 3],
        &[
            num(17),
            op(OperatorTokenType::Perc),
            str(" "),
            op(OperatorTokenType::Percentage_Find_Base_From_Decrease_X_Result),
            str(" "),
            num(41),
        ],
    );
}

#[test]
fn test_calc_perc_off_what_is_2() {
    test("(16%+1%) off what is 41", "16 % 1 % + 41 X%_off_what_is_Y", "49.3976");
}

#[test]
fn test_calc_perc_off_what_is_3() {
    test("(16+1)% off what is 41", "16 1 + % 41 X%_off_what_is_Y", "49.3976");
}

#[test]
fn test_calc_num_what_perc_off_num_tokens() {
    test("35 is what % off 41", "35 41 Y_is_what%_off_X", "14.6341 %");
}

#[test]
fn test_percent_complex_1() {
    test(
        "44 is (220 is what % on 200) on what",
        "44 220 200 Y_is_what%_on_X Y_is_X%_on_what",
        "40",
    );
}

#[test]
fn test_percent_complex_2() {
    test(
        "44 is (180 is what % off 200) on what",
        "44 180 200 Y_is_what%_off_X Y_is_X%_on_what",
        "40",
    );
}

#[test]
fn test_percent_complex_3() {
    test(
        "(44 is 10% on what) is 60% on what",
        "44 10 % Y_is_X%_on_what 60 % Y_is_X%_on_what",
        "25",
    );
}

#[test]
fn test_percent_complex_4() {
    test(
        "what plus (180 is what % off 200) is 44",
        "180 200 Y_is_what%_off_X 44 what_plus_X%_is_Y",
        "40",
    );
}

#[test]
fn test_percent_complex_5() {
    test(
        "(180 is what % off 200) on what is 44",
        "180 200 Y_is_what%_off_X 44 X%_on_what_is_Y",
        "40",
    );
}

#[test]
fn test_percent_complex_6() {
    test(
        "44 is what % on ((180 is what % off 200) on what is 44)",
        "44 180 200 Y_is_what%_off_X 44 X%_on_what_is_Y Y_is_what%_on_X",
        "10 %",
    );
}

#[test]
fn test_percent_complex_7() {
    test(
        "44 is what % on ((180 is what % off (what plus 10% is 220)) on what is 44)",
        "44 180 10 % 220 what_plus_X%_is_Y Y_is_what%_off_X 44 X%_on_what_is_Y Y_is_what%_on_X",
        "10 %",
    );
}

#[test]
fn test_calc_percentage_find_rate_from_result_base() {
    test("20 is what percent of 60", "20 60 Y_is_what%_of_X", "33.3333 %");
}

#[test]
fn test_calc_percentage_find_rate_from_result_base_tokens() {
    test_tokens_are_kept(
        "20 is what percent of 60",
        &[0, 4, 2],
        &[
            num(20),
            str(" "),
            op(OperatorTokenType::Percentage_Find_Rate_From_Result_Base),
            str(" "),
            num(60),
        ],
    );
}

#[test]
fn test_calc_percentage_find_base_from_result_rate() {
    test("5 is 25% of what", "5 25 % Y_is_X%_of_what", "20");
}

#[test]
fn test_calc_percentage_find_base_from_result_rate_tokens() {
    test_tokens_are_kept(
        "5 is 25% of what",
        &[0, 2, 4, 5, 7],
        &[
            num(5),
            str(" "),
            op(OperatorTokenType::PercentageIs),
            str(" "),
            num(25),
            op(OperatorTokenType::Perc),
            str(" "),
            op(OperatorTokenType::Percentage_Find_Base_From_Result_Rate),
        ],
    );
}

#[test]
fn test_invalid_left_shift_to_string2() {
    test("1 << 200", "1 200 <<", "Err");
}

#[test]
fn test_invalid_left_shift_to_string() {
    let progress = test_tokens(
        "1 << 200",
        &[num(1), str(" "), op(OperatorTokenType::ShiftLeft), str(" "), num(200)],
        &[0, 4, 2],
        &[
            num_with_err(1),
            str(" "),
            op_err(OperatorTokenType::ShiftLeft),
            str(" "),
            num_with_err(200),
        ],
    );
    assert!(answer(progress).is_err());
}

#[test]
fn test_invalid_right_shift_to_string2() {
    test("1 >> 64", "1 64 >>", "Err");
}

#[test]
fn test_invalid_right_shift_to_string() {
    let progress = test_tokens(
        "1 >> 64",
        &[num(1), str(" "), op(OperatorTokenType::ShiftRight), str(" "), num(64)],
        &[0, 4, 2],
        &[
            num_with_err(1),
            str(" "),
            op_err(OperatorTokenType::ShiftRight),
            str(" "),
            num_with_err(64),
        ],
    );
    assert!(answer(progress).is_err());
}

#[test]
fn test_multiplying_too_much_units() {
    test("1 km*h*s*b*J*A*ft * 2 L*mi", "1 :km*h*s*b*J*A*ft 2 :L*mi *", "Err");
}

#[test]
fn test_dividing_too_much_units() {
    test("1 km*h*s*b*J*A*ft / 2 L*mi", "1 :km*h*s*b*J*A*ft 2 :L*mi /", "Err");
}

#[test]
fn test_unit_conversion_26() {
    test_tokens_are_kept(
        "(256byte * 120) in MiB",
        &[1, 2, 6, 4, 11, 9],
        &[
            op(OperatorTokenType::ParenOpen),
            num(256),
            apply_to_prev_token_unit("bytes"),
            str(" "),
            op(OperatorTokenType::Mult),
            str(" "),
            num(120),
            op(OperatorTokenType::ParenClose),
            str(" "),
            op(OperatorTokenType::UnitConverter),
            str(" "),
            unit("MiB"),
        ],
    );
}

#[test]
fn test_explicit_multipl_is_mandatory_before_units() {
    test_tokens_are_kept(
        "2m^4kg/s^3",
        &[0, 1],
        &[num(2), apply_to_prev_token_unit("m^4"), str("kg/s^3")],
    );
    // it is the accepted form
    test_tokens_are_kept(
        "2m^4*kg/s^3",
        &[0, 1],
        &[num(2), apply_to_prev_token_unit("(m^4 kg) / s^3")],
    );
}

#[test]
fn not_in_must_be_str_if_we_are_sure_it_cant_be_unit() {
    test_tokens_are_kept(
        "12 m in",
        &[0, 2],
        &[num(12), str(" "), apply_to_prev_token_unit("m"), str(" "), str("in")],
    );
    test("12 m in", "12 :m", "12 m");
}

#[test]
fn test_bug_no_paren_around_100() {
    let function = OperatorTokenType::Fn { arg_count: 0, typ: FnType::E };
    let mut tokens: Vec<Token> = vec![
        num(1),
        op(OperatorTokenType::Add),
        op(function),
        op(OperatorTokenType::ParenOpen),
        op(OperatorTokenType::ParenClose),
        op(OperatorTokenType::Pow),
        op(OperatorTokenType::ParenOpen),
        num(100),
        op(OperatorTokenType::ParenClose),
    ];
    let shunting: Vec<ShuntingYardResult> = [0usize, 2, 7, 5, 1]
        .iter()
        .map(|i| ShuntingYardResult::new(tokens[*i].typ.clone(), *i))
        .collect();
    match evaluate_tokens(&mut tokens, &shunting, &no_vars()) {
        Progress::Call { mut evaluation, arg_count, typ, op_token_index } => {
            assert_eq!((arg_count, typ, op_token_index), (0, FnType::E, 2));
            evaluation.stack.push(CalcResult::new(
                CalcResultType::Number(decimal("2.7182818284590452353602874714")),
                op_token_index,
            ));
            let end = resume_evaluation(evaluation, true, &mut tokens, &shunting, &no_vars());
            assert!(answer(end).is_err());
        }
        Progress::Finished(_) => panic!("no function was called"),
    }
    assert_eq!(
        tokens,
        vec![
            num(1),
            op(OperatorTokenType::Add),
            op_err(function),
            op(OperatorTokenType::ParenOpen),
            op(OperatorTokenType::ParenClose),
            op_err(OperatorTokenType::Pow),
            op(OperatorTokenType::ParenOpen),
            num_with_err(100),
            op(OperatorTokenType::ParenClose),
        ]
    );
}

#[test]
fn test_fuzz_bug_201220() {
    test(")5)t[Mr/(K)", "5 :t", "5 t");
}

#[test]
fn test_fuzz_bug_201220_2() {
    test("[]8F(*^5+[2)]/)=^]0/", "2 M1x1", "[2]");
    test_tokens_are_kept(
        "[]8F(*^5+[2)]/)=^]0/",
        &[10, 9],
        &[
            str("["),
            str("]"),
            str("8"),
            str("F"),
            str("("),
            str("*"),
            str("^"),
            str("5"),
            str("+"),
            op(OperatorTokenType::Matrix { row_count: 1, col_count: 1 }),
            num(2),
            str(")"),
            op(OperatorTokenType::BracketClose),
            str("/"),
            str(")"),
            str("="),
            str("^"),
            str("]"),
            str("0"),
            str("/"),
        ],
    );
}

#[test]
fn test_illegal_unary_minus_is_not_added_to_the_output() {
    test_tokens_are_kept(
        "[7*7]*9#8=-+",
        &[1, 3, 2, 0],
        &[
            op(OperatorTokenType::Matrix { row_count: 1, col_count: 1 }),
            num(7),
            op(OperatorTokenType::Mult),
            num(7),
            op(OperatorTokenType::BracketClose),
            str("*"),
            str("9"),
            str("#8"),
            str("="),
            str("-"),
            str("+"),
        ],
    );
}
