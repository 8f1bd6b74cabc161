use vstd::prelude::*;

use crate::floats::{float_is_finite, float_is_zero, float_key, float_negated, is_finite, is_zero, key, lemma_negate_key, negate, FloatArith, FloatOp, SIGN_BIT};
use crate::parser::{binary_symbol, unary_symbol, BinaryOp, UnaryOp};
use crate::text::{chars_equal, chars_less, lemma_first_difference_decides, lemma_prefix_comes_first, lemma_seq_less_trichotomy, line_message, line_prefix, names_line, push_chars, push_str, seq_less};
use crate::type_checker::{binary_type, unary_type};
use crate::value::{content_equal, has_type, values_equal, Content, Type, Value};

verus! {

/// The result of a unary operator: `+` keeps a number, `-` negates it (an `int` whose
/// negation leaves `int` has none), `!` negates a `bool`; other operands have none.
pub open spec fn unary_result(operator: UnaryOp, c: Content) -> Option<Content> {
    match (operator, c) {
        (UnaryOp::Plus, Content::Int(v)) => Some(Content::Int(v)),
        (UnaryOp::Plus, Content::Float(b)) => Some(Content::Float(b)),
        (UnaryOp::Minus, Content::Int(v)) => if v == i64::MIN {
            None
        } else {
            Some(Content::Int((-v) as i64))
        },
        (UnaryOp::Minus, Content::Float(b)) => Some(Content::Float(float_negated(b))),
        (UnaryOp::Not, Content::Bool(b)) => Some(Content::Bool(!b)),
        _ => None,
    }
}

/// What a failed unary operation reports at its line: negating the least `int` leaves `int`;
/// any other failure is an operand the operator does not take.
pub open spec fn unary_error(operator: UnaryOp, c: Content, line: nat) -> Seq<char> {
    if operator == UnaryOp::Minus && c == Content::Int(i64::MIN) {
        line_prefix(line) + "resultado fuera del rango de int en '-'."@
    } else {
        line_prefix(line) + ("operando incompatible para '"@ + unary_symbol(operator) + "'."@)
    }
}

/// Applies a unary operator; an error names the line of the operator (see `unary_error`).
pub fn unary(operator: UnaryOp, value: Value, line: usize) -> (r: Result<Value, String>)
    ensures
        r matches Err(e) ==> names_line(e@),
        r matches Err(e) ==> e@ == unary_error(operator, value@, line as nat),
        match r {
            Ok(v) => unary_result(operator, value@) == Some(v@),
            Err(_) => unary_result(operator, value@) is None,
        },
{
    match (operator, value) {
        (UnaryOp::Plus, Value::Int(v)) => Ok(Value::Int(v)),
        (UnaryOp::Plus, Value::Float(v)) => Ok(Value::Float(v)),
        (UnaryOp::Minus, Value::Int(v)) => {
            if v == i64::MIN {
                let mut m: Vec<char> = Vec::new();
                push_str(&mut m, "resultado fuera del rango de int en '-'.");
                assert(m@ =~= "resultado fuera del rango de int en '-'."@);
                Err(line_message(line, &m))
            } else {
                Ok(Value::Int(-v))
            }
        },
        (UnaryOp::Minus, Value::Float(v)) => Ok(Value::Float(negate(v))),
        (UnaryOp::Not, Value::Bool(v)) => Ok(Value::Bool(!v)),
        _ => {
            let mut m: Vec<char> = Vec::new();
            push_str(&mut m, "operando incompatible para '");
            push_str(&mut m, operator.symbol());
            push_str(&mut m, "'.");
            assert(m@ =~= "operando incompatible para '"@ + unary_symbol(operator) + "'."@);
            Err(line_message(line, &m))
        },
    }
}

/// The message of an operator error: `Línea N: <text> en '<operator>'.`
pub open spec fn operator_message(line: nat, operator: BinaryOp, text: Seq<char>) -> Seq<char> {
    line_prefix(line) + (text + " en '"@ + binary_symbol(operator) + "'."@)
}

fn operator_error(line: usize, operator: BinaryOp, text: &str) -> (r: String)
    ensures
        names_line(r@),
        r@ == operator_message(line as nat, operator, text@),
{
    let mut m: Vec<char> = Vec::new();
    push_str(&mut m, text);
    push_str(&mut m, " en '");
    push_str(&mut m, operator.symbol());
    push_str(&mut m, "'.");
    assert(m@ =~= text@ + " en '"@ + binary_symbol(operator) + "'."@);
    line_message(line, &m)
}

/// The message for operands of types that the operator does not combine.
pub open spec fn incompatible_message(line: nat, operator: BinaryOp) -> Seq<char> {
    line_prefix(line) + ("operandos incompatibles para '"@ + binary_symbol(operator) + "'."@)
}

fn incompatible_error(line: usize, operator: BinaryOp) -> (r: String)
    ensures
        names_line(r@),
        r@ == incompatible_message(line as nat, operator),
{
    let mut m: Vec<char> = Vec::new();
    push_str(&mut m, "operandos incompatibles para '");
    push_str(&mut m, operator.symbol());
    push_str(&mut m, "'.");
    assert(m@ =~= "operandos incompatibles para '"@ + binary_symbol(operator) + "'."@);
    line_message(line, &m)
}

/// What failed integer arithmetic reports at the operator's line: a zero divisor of `/` or
/// `%`, otherwise a result outside `int`.
pub open spec fn int_error(b: int, operator: BinaryOp, line: nat) -> Seq<char> {
    if (operator == BinaryOp::Divide || operator == BinaryOp::Remainder) && b == 0 {
        operator_message(line, operator, "división o resto por cero"@)
    } else {
        operator_message(line, operator, "resultado fuera del rango de int"@)
    }
}

/// What a failed binary operation reports at the operator's line: values that cannot be
/// ordered for `<`, `<=`, `>`, `>=`; failed `int` arithmetic (see `int_error`); for float
/// arithmetic a zero divisor of `/` or `%`, otherwise a result that is not finite; and any
/// other failure is a pair of operands the operator does not take.
pub open spec fn binary_error(left: Content, operator: BinaryOp, right: Content, line: nat) -> Seq<char> {
    if operator == BinaryOp::Less || operator == BinaryOp::LessEqual || operator == BinaryOp::Greater
        || operator == BinaryOp::GreaterEqual {
        line_prefix(line) + "valores no comparables."@
    } else {
        match (left, right) {
            (Content::Int(_), Content::Int(b)) => if is_arithmetic(operator) {
                int_error(b as int, operator, line)
            } else {
                incompatible_message(line, operator)
            },
            (Content::Float(_), Content::Float(b)) => if is_arithmetic(operator) {
                if (operator == BinaryOp::Divide || operator == BinaryOp::Remainder) && float_is_zero(b) {
                    operator_message(line, operator, "división o resto por cero"@)
                } else {
                    operator_message(line, operator, "resultado fuera del rango de float finito"@)
                }
            } else {
                incompatible_message(line, operator)
            },
            _ => incompatible_message(line, operator),
        }
    }
}

/// The arithmetic operators: `+`, `-`, `*`, `/` and `%`.
pub open spec fn is_arithmetic(operator: BinaryOp) -> bool {
    operator == BinaryOp::Add || operator == BinaryOp::Subtract || operator == BinaryOp::Multiply
        || operator == BinaryOp::Divide || operator == BinaryOp::Remainder
}

/// -1, 0 or 1 as `d` is negative, zero or positive.
pub open spec fn sign(d: int) -> int {
    if d < 0 { -1 } else if d == 0 { 0 } else { 1 }
}

/// How two values of the same ordered type compare: -1, 0 or 1. Numbers by value (floats by
/// their key, so `-0.0` equals `0.0`), characters by code point, strings lexicographically by
/// code point. Other pairs have no order.
pub open spec fn order_of(a: Content, b: Content) -> Option<int> {
    match (a, b) {
        (Content::Int(x), Content::Int(y)) => Some(sign(x - y)),
        (Content::Float(x), Content::Float(y)) => Some(sign(float_key(x) - float_key(y))),
        (Content::Char(x), Content::Char(y)) => Some(sign((x as int) - (y as int))),
        (Content::String(x), Content::String(y)) => Some(
            if seq_less(x, y) { -1 } else if x == y { 0 } else { 1 },
        ),
        _ => None,
    }
}

/// Whether an order comparison holds for the outcome `o` of `order_of`.
pub open spec fn order_holds(operator: BinaryOp, o: int) -> bool {
    match operator {
        BinaryOp::Less => o < 0,
        BinaryOp::LessEqual => o <= 0,
        BinaryOp::Greater => o > 0,
        _ => o >= 0,
    }
}

/// Whether the operation is float arithmetic, whose result the host computes.
pub open spec fn is_float_arithmetic(a: Content, operator: BinaryOp, b: Content) -> bool {
    a is Float && b is Float && is_arithmetic(operator)
}

/// The result of a binary operator on everything but float arithmetic: `==` and `!=` compare
/// contents; order comparisons follow `order_of`; `&&` and `||` act on two `bool`s; integer
/// arithmetic follows `int_result`; `+` joins two strings. Any other pair has no result.
pub open spec fn binary_result(a: Content, operator: BinaryOp, b: Content) -> Option<Content> {
    match operator {
        BinaryOp::Equal => Some(Content::Bool(content_equal(a, b))),
        BinaryOp::NotEqual => Some(Content::Bool(!content_equal(a, b))),
        BinaryOp::Less | BinaryOp::LessEqual | BinaryOp::Greater | BinaryOp::GreaterEqual => match order_of(a, b) {
            Some(o) => Some(Content::Bool(order_holds(operator, o))),
            None => None,
        },
        BinaryOp::And => match (a, b) {
            (Content::Bool(x), Content::Bool(y)) => Some(Content::Bool(x && y)),
            _ => None,
        },
        BinaryOp::Or => match (a, b) {
            (Content::Bool(x), Content::Bool(y)) => Some(Content::Bool(x || y)),
            _ => None,
        },
        _ => match (a, b) {
            (Content::Int(x), Content::Int(y)) => match int_result(x as int, operator, y as int) {
                Some(v) => Some(Content::Int(v as i64)),
                None => None,
            },
            (Content::String(x), Content::String(y)) => if operator == BinaryOp::Add {
                Some(Content::String(x + y))
            } else {
                None
            },
            _ => None,
        },
    }
}

/// Applies a binary operator; an error names the line of the operator. Float arithmetic is
/// computed by the host: a zero divisor of `/` or `%` is an error, and so is a result that is
/// not finite.
pub fn binary<F: FloatArith>(left: Value, operator: BinaryOp, right: Value, line: usize, floats: &F) -> (r: Result<Value, String>)
    ensures
        r matches Err(e) ==> names_line(e@),
        r matches Err(e) ==> e@ == binary_error(left@, operator, right@, line as nat),
        !is_float_arithmetic(left@, operator, right@) ==> match r {
            Ok(v) => binary_result(left@, operator, right@) == Some(v@),
            Err(_) => binary_result(left@, operator, right@) is None,
        },
        is_float_arithmetic(left@, operator, right@) ==> {
            &&& (operator == BinaryOp::Divide || operator == BinaryOp::Remainder) && float_is_zero(right@->Float_0) ==> r is Err
            &&& r matches Ok(v) ==> v@ is Float && float_is_finite(v@->Float_0)
        },
{
    if operator == BinaryOp::Equal {
        return Ok(Value::Bool(values_equal(&left, &right)));
    }
    if operator == BinaryOp::NotEqual {
        return Ok(Value::Bool(!values_equal(&left, &right)));
    }
    if operator == BinaryOp::Less || operator == BinaryOp::LessEqual || operator == BinaryOp::Greater
        || operator == BinaryOp::GreaterEqual {
        // -1, 0 or 1 as left is below, equal to or above right.
        let order: i8 = match (&left, &right) {
            (Value::Int(a), Value::Int(b)) => if *a < *b { -1 } else if *a == *b { 0 } else { 1 },
            (Value::Float(a), Value::Float(b)) => {
                let (ka, kb) = (key(*a), key(*b));
                if ka < kb { -1 } else if ka == kb { 0 } else { 1 }
            },
            (Value::Char(a), Value::Char(b)) => if *a < *b { -1 } else if *a == *b { 0 } else { 1 },
            (Value::String(a), Value::String(b)) => if chars_less(a, b) {
                -1
            } else if chars_equal(a, b) {
                0
            } else {
                1
            },
            _ => {
                let mut m: Vec<char> = Vec::new();
                push_str(&mut m, "valores no comparables.");
                assert(m@ =~= "valores no comparables."@);
                return Err(line_message(line, &m));
            },
        };
        return Ok(Value::Bool(match operator {
            BinaryOp::Less => order < 0,
            BinaryOp::LessEqual => order <= 0,
            BinaryOp::Greater => order > 0,
            _ => order >= 0,
        }));
    }
    let arithmetic = operator == BinaryOp::Add || operator == BinaryOp::Subtract || operator == BinaryOp::Multiply
        || operator == BinaryOp::Divide || operator == BinaryOp::Remainder;
    match (left, right) {
        (Value::Int(a), Value::Int(b)) => if arithmetic {
            int_arithmetic(a, operator, b, line)
        } else {
            Err(incompatible_error(line, operator))
        },
        (Value::Float(a), Value::Float(b)) => {
            let op = match operator {
                BinaryOp::Add => FloatOp::Add,
                BinaryOp::Subtract => FloatOp::Subtract,
                BinaryOp::Multiply => FloatOp::Multiply,
                BinaryOp::Divide => FloatOp::Divide,
                BinaryOp::Remainder => FloatOp::Remainder,
                _ => {
                    return Err(incompatible_error(line, operator));
                },
            };
            if (op == FloatOp::Divide || op == FloatOp::Remainder) && is_zero(b) {
                return Err(operator_error(line, operator, "división o resto por cero"));
            }
            let result = floats.apply(op, a, b);
            if is_finite(result) {
                Ok(Value::Float(result))
            } else {
                Err(operator_error(line, operator, "resultado fuera del rango de float finito"))
            }
        },
        (Value::String(a), Value::String(b)) => {
            if operator != BinaryOp::Add {
                return Err(incompatible_error(line, operator));
            }
            let mut joined = a;
            push_chars(&mut joined, &b);
            Ok(Value::String(joined))
        },
        (Value::Bool(a), Value::Bool(b)) => match operator {
            BinaryOp::And => Ok(Value::Bool(a && b)),
            BinaryOp::Or => Ok(Value::Bool(a || b)),
            _ => Err(incompatible_error(line, operator)),
        },
        _ => Err(incompatible_error(line, operator)),
    }
}

/// The integer result of an arithmetic operator: exact, with division truncated toward zero
/// and the remainder taking the dividend's sign; `None` on a zero divisor or a result outside `int`.
pub open spec fn int_result(a: int, operator: BinaryOp, b: int) -> Option<int> {
    let exact: Option<int> = match operator {
        BinaryOp::Add => Some(a + b),
        BinaryOp::Subtract => Some(a - b),
        BinaryOp::Multiply => Some(a * b),
        BinaryOp::Divide => if b == 0 { None } else { Some(truncated_quotient(a, b)) },
        BinaryOp::Remainder => if b == 0 { None } else { Some(a - b * truncated_quotient(a, b)) },
        _ => None,
    };
    match exact {
        Some(v) => if i64::MIN <= v <= i64::MAX { Some(v) } else { None },
        None => None,
    }
}

/// Division truncated toward zero.
pub open spec fn truncated_quotient(a: int, b: int) -> int
    recommends
        b != 0,
{
    let q = (if a < 0 { -a } else { a }) / (if b < 0 { -b } else { b });
    if (a < 0) == (b < 0) { q } else { -q }
}

/// Integer arithmetic: a zero divisor and a result outside `int` are errors at the operator's line.
pub fn int_arithmetic(a: i64, operator: BinaryOp, b: i64, line: usize) -> (r: Result<Value, String>)
    requires
        operator == BinaryOp::Add || operator == BinaryOp::Subtract || operator == BinaryOp::Multiply
            || operator == BinaryOp::Divide || operator == BinaryOp::Remainder,
    ensures
        r matches Err(e) ==> names_line(e@),
        r matches Err(e) ==> e@ == int_error(b as int, operator, line as nat),
        match r {
            Ok(v) => int_result(a as int, operator, b as int) matches Some(x) && v == Value::Int(x as i64),
            Err(_) => int_result(a as int, operator, b as int) is None,
        },
{
    if (operator == BinaryOp::Divide || operator == BinaryOp::Remainder) && b == 0 {
        return Err(operator_error(line, operator, "división o resto por cero"));
    }
    let wide: i128 = match operator {
        BinaryOp::Add => (a as i128) + (b as i128),
        BinaryOp::Subtract => (a as i128) - (b as i128),
        BinaryOp::Multiply => {
            proof {
                lemma_i64_product_bounds(a as int, b as int);
            }
            (a as i128) * (b as i128)
        },
        _ => {
            // Quotient and remainder of the magnitudes, then the signs of truncated division.
            let ma: u128 = if a < 0 { (-(a as i128)) as u128 } else { a as u128 };
            let mb: u128 = if b < 0 { (-(b as i128)) as u128 } else { b as u128 };
            let q: u128 = ma / mb;
            proof {
                assert(q <= ma) by (nonlinear_arith)
                    requires q == ma / mb, mb > 0;
            }
            let signed_q: i128 = if (a < 0) == (b < 0) { q as i128 } else { -(q as i128) };
            if operator == BinaryOp::Divide {
                signed_q
            } else {
                proof {
                    lemma_remainder_bounds(a as int, b as int, signed_q as int);
                }
                (a as i128) - (b as i128) * signed_q
            }
        },
    };
    if wide < -0x8000_0000_0000_0000 || wide > 0x7fff_ffff_ffff_ffff {
        return Err(operator_error(line, operator, "resultado fuera del rango de int"));
    }
    Ok(Value::Int(wide as i64))
}

proof fn lemma_i64_product_bounds(a: int, b: int)
    requires
        i64::MIN <= a <= i64::MAX,
        i64::MIN <= b <= i64::MAX,
    ensures
        -0x4000_0000_0000_0000_0000_0000_0000_0000 <= a * b <= 0x4000_0000_0000_0000_0000_0000_0000_0000,
{
    assert(-0x4000_0000_0000_0000_0000_0000_0000_0000 <= a * b <= 0x4000_0000_0000_0000_0000_0000_0000_0000) by (nonlinear_arith)
        requires
            i64::MIN <= a <= i64::MAX,
            i64::MIN <= b <= i64::MAX;
}


proof fn lemma_remainder_bounds(a: int, b: int, q: int)
    requires
        i64::MIN <= a <= i64::MAX,
        i64::MIN <= b <= i64::MAX,
        b != 0,
        q == truncated_quotient(a, b),
    ensures
        -0x1_0000_0000_0000_0000 <= a - b * q <= 0x1_0000_0000_0000_0000,
{
    let ma = if a < 0 { -a } else { a };
    let mb = if b < 0 { -b } else { b };
    let mq = ma / mb;
    assert(0 <= ma - mb * mq < mb) by (nonlinear_arith)
        requires mb > 0, ma >= 0, mq == ma / mb;
    assert(b * q == if (a < 0) == (b < 0) { if b < 0 { -(mb * mq) } else { mb * mq } } else { if b < 0 { mb * mq } else { -(mb * mq) } }) by (nonlinear_arith)
        requires mb == (if b < 0 { -b } else { b }), q == (if (a < 0) == (b < 0) { mq } else { -mq });
}

/// Unary minus undoes itself: where `-x` is defined, `-(-x)` is `x` (`--1` is `1`).
pub proof fn lemma_double_negation(c: Content)
    ensures
        unary_result(UnaryOp::Minus, c) matches Some(d) ==> unary_result(UnaryOp::Minus, d) == Some(c),
{
    if let Content::Float(b) = c {
        lemma_negate_key(b);
    }
}

/// Comparing two `int`s compares them as integers: `x < y`, `x <= y`, `x > y` and `x >= y`
/// hold exactly when they hold of the numbers (`-5 < 3` is `true`).
pub proof fn lemma_int_comparisons(x: i64, y: i64)
    ensures
        binary_result(Content::Int(x), BinaryOp::Less, Content::Int(y)) == Some(Content::Bool(x < y)),
        binary_result(Content::Int(x), BinaryOp::LessEqual, Content::Int(y)) == Some(Content::Bool(x <= y)),
        binary_result(Content::Int(x), BinaryOp::Greater, Content::Int(y)) == Some(Content::Bool(x > y)),
        binary_result(Content::Int(x), BinaryOp::GreaterEqual, Content::Int(y)) == Some(Content::Bool(x >= y)),
{
}

/// Strings compare lexicographically: where they first differ, at a position inside both,
/// the smaller character decides whatever the lengths (`"ab" < "b"`); a proper prefix comes
/// first; and equal strings are neither smaller nor greater.
pub proof fn lemma_string_comparisons(a: Seq<char>, b: Seq<char>, k: int)
    ensures
        0 <= k < a.len() && k < b.len() && a[k] != b[k] && (forall|j: int| 0 <= j < k ==> a[j] == b[j]) ==> {
            &&& binary_result(Content::String(a), BinaryOp::Less, Content::String(b)) == Some(Content::Bool(a[k] < b[k]))
            &&& binary_result(Content::String(a), BinaryOp::Greater, Content::String(b)) == Some(Content::Bool(b[k] < a[k]))
        },
        a.len() < b.len() && (forall|j: int| 0 <= j < a.len() ==> a[j] == b[j]) ==> {
            &&& binary_result(Content::String(a), BinaryOp::Less, Content::String(b)) == Some(Content::Bool(true))
            &&& binary_result(Content::String(b), BinaryOp::Less, Content::String(a)) == Some(Content::Bool(false))
        },
        binary_result(Content::String(a), BinaryOp::Less, Content::String(a)) == Some(Content::Bool(false)),
        binary_result(Content::String(a), BinaryOp::LessEqual, Content::String(a)) == Some(Content::Bool(true)),
{
    if 0 <= k < a.len() && k < b.len() && a[k] != b[k] && (forall|j: int| 0 <= j < k ==> a[j] == b[j]) {
        lemma_first_difference_decides(a, b, k);
        assert(a != b);
    }
    if a.len() < b.len() && (forall|j: int| 0 <= j < a.len() ==> a[j] == b[j]) {
        lemma_prefix_comes_first(a, b);
        assert(a != b);
    }
    lemma_prefix_comes_first(a, a);
}

/// `int` arithmetic is exact or fails: `+`, `-` and `*` give the mathematical result when it
/// lies inside `int` and fail otherwise; `/` and `%` fail on a zero divisor and otherwise give
/// a quotient and a remainder that rebuild the dividend, with the remainder smaller than the
/// divisor in magnitude and of the dividend's sign (division truncates toward zero).
pub proof fn lemma_int_arithmetic(x: i64, y: i64)
    ensures
        binary_result(Content::Int(x), BinaryOp::Add, Content::Int(y)) == (if i64::MIN <= x + y <= i64::MAX {
            Some(Content::Int((x + y) as i64))
        } else {
            None
        }),
        binary_result(Content::Int(x), BinaryOp::Subtract, Content::Int(y)) == (if i64::MIN <= x - y <= i64::MAX {
            Some(Content::Int((x - y) as i64))
        } else {
            None
        }),
        binary_result(Content::Int(x), BinaryOp::Multiply, Content::Int(y)) == (if i64::MIN <= x * y <= i64::MAX {
            Some(Content::Int((x * y) as i64))
        } else {
            None
        }),
        y == 0 ==> binary_result(Content::Int(x), BinaryOp::Divide, Content::Int(y)) is None
            && binary_result(Content::Int(x), BinaryOp::Remainder, Content::Int(y)) is None,
        y != 0 ==> (binary_result(Content::Int(x), BinaryOp::Remainder, Content::Int(y)) matches Some(Content::Int(r)) && {
            &&& (if r < 0 { -r } else { r as int }) < (if y < 0 { -y } else { y as int })
            &&& (r == 0 || (r < 0) == (x < 0))
            &&& (binary_result(Content::Int(x), BinaryOp::Divide, Content::Int(y)) matches Some(Content::Int(q)) ==> q * y + r
                == x)
        }),
        y != 0 ==> (binary_result(Content::Int(x), BinaryOp::Divide, Content::Int(y)) is None <==> (x == i64::MIN && y == -1)),
{
    if y != 0 {
        lemma_division_identity(x, y);
    }
}

/// Characters compare by code point, and two characters are equal exactly when they are the
/// same character.
pub proof fn lemma_char_comparisons(a: char, b: char)
    ensures
        binary_result(Content::Char(a), BinaryOp::Less, Content::Char(b)) == Some(Content::Bool((a as u32) < (b as u32))),
        binary_result(Content::Char(a), BinaryOp::LessEqual, Content::Char(b)) == Some(Content::Bool((a as u32) <= (b as u32))),
        binary_result(Content::Char(a), BinaryOp::Greater, Content::Char(b)) == Some(Content::Bool((a as u32) > (b as u32))),
        binary_result(Content::Char(a), BinaryOp::GreaterEqual, Content::Char(b)) == Some(Content::Bool((a as u32) >= (b as u32))),
        binary_result(Content::Char(a), BinaryOp::Equal, Content::Char(b)) == Some(Content::Bool(a == b)),
{
}

/// `int`s, `bool`s and strings are equal exactly when they hold the same value, character by
/// character for strings.
pub proof fn lemma_equality_by_value(x: i64, y: i64, p: bool, q: bool, a: Seq<char>, b: Seq<char>)
    ensures
        binary_result(Content::Int(x), BinaryOp::Equal, Content::Int(y)) == Some(Content::Bool(x == y)),
        binary_result(Content::Int(x), BinaryOp::NotEqual, Content::Int(y)) == Some(Content::Bool(x != y)),
        binary_result(Content::Bool(p), BinaryOp::Equal, Content::Bool(q)) == Some(Content::Bool(p == q)),
        binary_result(Content::String(a), BinaryOp::Equal, Content::String(b)) == Some(
            Content::Bool(a.len() == b.len() && forall|k: int| 0 <= k < a.len() ==> a[k] == b[k]),
        ),
{
    if a.len() == b.len() && forall|k: int| 0 <= k < a.len() ==> a[k] == b[k] {
        assert(a =~= b);
    }
}

/// `+` on strings appends the right one to the left one: the result holds the characters of
/// the left string, then those of the right one.
pub proof fn lemma_string_concatenation(a: Seq<char>, b: Seq<char>)
    ensures
        binary_result(Content::String(a), BinaryOp::Add, Content::String(b)) matches Some(Content::String(c)) && {
            &&& c.len() == a.len() + b.len()
            &&& forall|i: int| 0 <= i < a.len() ==> c[i] == a[i]
            &&& forall|j: int| 0 <= j < b.len() ==> c[a.len() + j] == b[j]
        },
        binary_result(Content::String(a), BinaryOp::Subtract, Content::String(b)) is None,
{
}

/// Floats compare by value on their IEEE-754 bit patterns (a program only ever holds finite
/// floats, for which this is the order of the numbers): two non-negative floats (sign bit
/// clear) compare as their patterns do; a negative float lies below every non-negative one
/// except that `-0.0` equals `0.0`; two negative floats compare in the reverse order of their
/// patterns.
pub proof fn lemma_float_comparisons(x: u64, y: u64)
    ensures
        x < SIGN_BIT && y < SIGN_BIT ==> binary_result(Content::Float(x), BinaryOp::Less, Content::Float(y)) == Some(
            Content::Bool(x < y),
        ),
        x < SIGN_BIT && y < SIGN_BIT ==> binary_result(Content::Float(x), BinaryOp::Equal, Content::Float(y)) == Some(
            Content::Bool(x == y),
        ),
        x >= SIGN_BIT && y < SIGN_BIT ==> binary_result(Content::Float(x), BinaryOp::Less, Content::Float(y)) == Some(
            Content::Bool(!(x == SIGN_BIT && y == 0)),
        ),
        x >= SIGN_BIT && y >= SIGN_BIT ==> binary_result(Content::Float(x), BinaryOp::Less, Content::Float(y)) == Some(
            Content::Bool(y < x),
        ),
        binary_result(Content::Float(SIGN_BIT), BinaryOp::Equal, Content::Float(0)) == Some(Content::Bool(true)),
{
    assert(x < 0x8000_0000_0000_0000u64 ==> x & 0x8000_0000_0000_0000u64 == 0 && x & 0x7fff_ffff_ffff_ffffu64 == x)
        by (bit_vector);
    assert(y < 0x8000_0000_0000_0000u64 ==> y & 0x8000_0000_0000_0000u64 == 0 && y & 0x7fff_ffff_ffff_ffffu64 == y)
        by (bit_vector);
    assert(x >= 0x8000_0000_0000_0000u64 ==> x & 0x8000_0000_0000_0000u64 != 0 && (x & 0x7fff_ffff_ffff_ffffu64) as int
        == x - 0x8000_0000_0000_0000int) by (bit_vector);
    assert(y >= 0x8000_0000_0000_0000u64 ==> y & 0x8000_0000_0000_0000u64 != 0 && (y & 0x7fff_ffff_ffff_ffffu64) as int
        == y - 0x8000_0000_0000_0000int) by (bit_vector);
    assert(0x8000_0000_0000_0000u64 & 0x7fff_ffff_ffff_ffffu64 == 0 && 0x8000_0000_0000_0000u64
        & 0x8000_0000_0000_0000u64 != 0 && 0u64 & 0x7fff_ffff_ffff_ffffu64 == 0 && 0u64 & 0x8000_0000_0000_0000u64
        == 0) by (bit_vector);
}

/// The unary operators: `+` keeps a number, `-` negates an `int` (failing only on the least
/// `int`, whose negation leaves `int`) and flips a float's sign, `!` negates a `bool`.
pub proof fn lemma_unary_operators(v: i64, b: bool, bits: u64)
    ensures
        unary_result(UnaryOp::Plus, Content::Int(v)) == Some(Content::Int(v)),
        unary_result(UnaryOp::Minus, Content::Int(v)) == (if v == i64::MIN {
            None
        } else {
            Some(Content::Int((-v) as i64))
        }),
        unary_result(UnaryOp::Minus, Content::Int(v)) matches Some(Content::Int(w)) ==> w + v == 0,
        unary_result(UnaryOp::Not, Content::Bool(b)) == Some(Content::Bool(!b)),
        unary_result(UnaryOp::Minus, Content::Float(bits)) matches Some(Content::Float(n)) && float_key(n) == -float_key(bits),
        unary_result(UnaryOp::Not, Content::Int(v)) is None,
{
    lemma_negate_key(bits);
}

/// `&&` and `||` on two `bool`s are conjunction and disjunction; on anything else they fail.
pub proof fn lemma_logical_operators(p: bool, q: bool, c: Content)
    ensures
        binary_result(Content::Bool(p), BinaryOp::And, Content::Bool(q)) == Some(Content::Bool(p && q)),
        binary_result(Content::Bool(p), BinaryOp::Or, Content::Bool(q)) == Some(Content::Bool(p || q)),
        !(c is Bool) ==> binary_result(Content::Bool(p), BinaryOp::And, c) is None
            && binary_result(c, BinaryOp::Or, Content::Bool(q)) is None,
{
}

/// Swapping the operands reverses their order.
pub proof fn lemma_order_reverses(a: Content, b: Content)
    ensures
        order_of(a, b) matches Some(o) ==> order_of(b, a) == Some(-o),
        order_of(a, b) is Some <==> order_of(b, a) is Some,
{
    if let (Content::String(x), Content::String(y)) = (a, b) {
        lemma_seq_less_trichotomy(x, y);
    }
}

/// `a < b` is `b > a`, `a <= b` is `b >= a`, `a <= b` is `!(a > b)`, and `a != b` is
/// `!(a == b)`.
pub proof fn lemma_comparisons_agree(a: Content, b: Content)
    ensures
        binary_result(a, BinaryOp::Less, b) == binary_result(b, BinaryOp::Greater, a),
        binary_result(a, BinaryOp::LessEqual, b) == binary_result(b, BinaryOp::GreaterEqual, a),
        binary_result(a, BinaryOp::LessEqual, b) matches Some(Content::Bool(x)) ==> binary_result(a, BinaryOp::Greater, b)
            == Some(Content::Bool(!x)),
        binary_result(a, BinaryOp::Equal, b) matches Some(Content::Bool(x)) && binary_result(a, BinaryOp::NotEqual, b)
            == Some(Content::Bool(!x)),
{
    lemma_order_reverses(a, b);
}

/// Integer division truncates toward zero and the remainder takes the dividend's sign: for a
/// nonzero divisor the remainder always exists, is smaller than the divisor in magnitude, and
/// with the quotient, when that fits, rebuilds the dividend.
pub proof fn lemma_division_identity(a: i64, b: i64)
    requires
        b != 0,
    ensures
        int_result(a as int, BinaryOp::Remainder, b as int) matches Some(r) && {
            &&& (if r < 0 { -r } else { r }) < (if b < 0 { -b } else { b as int })
            &&& r == 0 || (r < 0) == (a < 0)
            &&& int_result(a as int, BinaryOp::Divide, b as int) matches Some(q) ==> q * b + r == a
        },
        int_result(a as int, BinaryOp::Divide, b as int) is None <==> (a == i64::MIN && b == -1),
{
    let ma: int = if a < 0 { -a } else { a as int };
    let mb: int = if b < 0 { -b } else { b as int };
    let mq = ma / mb;
    let q = truncated_quotient(a as int, b as int);
    assert(0 <= ma - mb * mq < mb) by (nonlinear_arith)
        requires mb > 0, ma >= 0, mq == ma / mb;
    assert(mq <= ma) by (nonlinear_arith)
        requires mb > 0, ma >= 0, mq == ma / mb;
    assert(b * q == if (a < 0) == (b < 0) { if b < 0 { -(mb * mq) } else { mb * mq } } else { if b < 0 { mb * mq } else { -(mb * mq) } }) by (nonlinear_arith)
        requires mb == (if b < 0 { -b } else { b as int }), q == (if (a < 0) == (b < 0) { mq } else { -mq });
    let rem = a - b * q;
    assert(rem == if a < 0 { -(ma - mb * mq) } else { ma - mb * mq });
    assert(q * b == b * q) by (nonlinear_arith);
    assert(int_result(a as int, BinaryOp::Remainder, b as int) == Some(rem));
    if a == i64::MIN && b == -1 {
        assert(mq == ma) by (nonlinear_arith)
            requires mb == 1, mq == ma / mb;
    }
    if !(a == i64::MIN && b == -1) {
        if mb == 1 {
            assert(mq == ma) by (nonlinear_arith)
                requires mb == 1, mq == ma / mb;
        } else {
            assert(mq * 2 <= ma) by (nonlinear_arith)
                requires mb >= 2, ma >= 0, mq == ma / mb;
        }
    }
}

/// Operators keep the types the checker gives them: on operands of the checked types, a unary
/// or binary operation that has a result has a value of the checked result type, and the only
/// operations without a result are the negation of the smallest `int` and integer arithmetic
/// that divides by zero or leaves `int`. Float arithmetic gives a `float`.
pub proof fn lemma_operators_respect_types(a: Content, operator: BinaryOp, b: Content, ta: Type, tb: Type)
    requires
        has_type(a, ta),
        has_type(b, tb),
        binary_type(ta, operator, tb) is Some,
    ensures
        binary_result(a, operator, b) matches Some(c) ==> has_type(c, binary_type(ta, operator, tb)->0),
        binary_result(a, operator, b) is None ==> is_float_arithmetic(a, operator, b) || (is_arithmetic(operator)
            && a is Int && b is Int),
        is_float_arithmetic(a, operator, b) ==> binary_type(ta, operator, tb) == Some(Type::Float),
{
}

/// See `lemma_operators_respect_types`, for unary operators.
pub proof fn lemma_unary_respects_types(operator: UnaryOp, c: Content, t: Type)
    requires
        has_type(c, t),
        unary_type(operator, t) is Some,
    ensures
        unary_result(operator, c) matches Some(d) ==> has_type(d, unary_type(operator, t)->0),
        unary_result(operator, c) is None <==> operator == UnaryOp::Minus && c == Content::Int(i64::MIN),
{
}

}
