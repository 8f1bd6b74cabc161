use vstd::prelude::*;

use crate::floats::{float_is_finite, is_finite, FloatArith};
use crate::parser::Name;
use crate::text::{
    all_digits, char_at, chars_equal, chars_of, fits_i64, int_text, is_white_space, lemma_int_text_reads_back,
    names_line, parse_i64, push_str, signed_value, white_space,
};
use crate::stdlib::name_message;
use crate::value::{display, push_type, push_value, same_type, type_text, value_type_of, Content, Type, Value};

verus! {

/// Which conversions exist between types: between basic types only, from or to `string`,
/// between `int` and `float`, between `int` and `char`, and from a type to itself. Whether a
/// given value converts is decided when the program runs.
pub open spec fn cast_allowed(source: Type, target: Type) -> bool {
    let basic = !(source is Array) && !(target is Array);
    let compatible = source == target || target == Type::String || source == Type::String
        || (source == Type::Int && target == Type::Float) || (source == Type::Float && target == Type::Int)
        || (source == Type::Int && target == Type::Char) || (source == Type::Char && target == Type::Int);
    basic && compatible
}

/// The message for a pair of types that `cast_allowed` excludes, at the line of the call.
pub open spec fn cast_type_error(source: Type, target: Type, name: Name) -> Seq<char> {
    name_message(name, "Conversión no admitida de "@ + type_text(source) + " a "@ + type_text(target) + "."@)
}

/// The message for a value that does not convert, with the reason `detail`.
pub open spec fn invalid_message(source: Type, target: Type, detail: Seq<char>, name: Name) -> Seq<char> {
    name_message(name, "No se puede convertir de "@ + type_text(source) + " a "@ + type_text(target) + ": "@ + detail + "."@)
}

/// Why a value of an allowed pair of types does not convert: a code that is no Unicode scalar
/// value; text that is not a decimal integer, or one outside `int`; text other than `true` or
/// `false`; text that is not exactly one character; a float outside `int`; text for a float
/// that is empty or holds white space (beyond that, the host's reading decides).
pub open spec fn cast_detail(c: Content, target: Type) -> Seq<char> {
    match (c, target) {
        (Content::Int(_), Type::Char) => "se esperaba un valor escalar Unicode válido"@,
        (Content::Float(_), Type::Int) => "valor fuera del rango de int"@,
        (Content::String(t), Type::Int) => {
            let signed = t.len() > 0 && (t[0] == '+' || t[0] == '-');
            let digits = if signed { t.drop_first() } else { t };
            if digits.len() == 0 || !all_digits(digits) {
                "se esperaba texto entero decimal sin espacios"@
            } else {
                "valor fuera del rango de int"@
            }
        },
        (Content::String(_), Type::Bool) => "se esperaba exactamente 'true' o 'false'"@,
        (Content::String(_), Type::Char) => "se esperaba exactamente un valor escalar Unicode"@,
        (Content::String(_), Type::Float) => "se esperaba texto numérico sin espacios"@,
        _ => "conversión no admitida"@,
    }
}

/// Whether a value of type `source` may be converted to `target` (see `cast_allowed`).
pub fn check_type(source: &Type, target: &Type, name: &Name) -> (r: Result<(), String>)
    ensures
        r matches Err(e) ==> names_line(e@),
        r matches Err(e) ==> e@ == cast_type_error(*source, *target, *name),
        r is Ok <==> cast_allowed(*source, *target),
{
    let basic = !matches!(source, Type::Array(_)) && !matches!(target, Type::Array(_));
    let compatible = same_type(source, target) || matches!(target, Type::String)
        || matches!(source, Type::String) || (matches!(source, Type::Int) && matches!(target, Type::Float))
        || (matches!(source, Type::Float) && matches!(target, Type::Int))
        || (matches!(source, Type::Int) && matches!(target, Type::Char))
        || (matches!(source, Type::Char) && matches!(target, Type::Int));
    if basic && compatible {
        Ok(())
    } else {
        let mut m: Vec<char> = Vec::new();
        push_str(&mut m, "Conversión no admitida de ");
        push_type(&mut m, source);
        push_str(&mut m, " a ");
        push_type(&mut m, target);
        push_str(&mut m, ".");
        assert(m@ =~= "Conversión no admitida de "@ + type_text(*source) + " a "@ + type_text(*target) + "."@);
        Err(name.error_chars(&m))
    }
}

/// Whether an integer is the code point of a Unicode scalar value: up to U+10FFFF and not a
/// surrogate.
pub open spec fn is_scalar_code(v: int) -> bool {
    0 <= v <= 0x10ffff && !(0xd800 <= v <= 0xdfff)
}

/// The character whose code point is `v` (for a Unicode scalar value `v`).
pub open spec fn char_with_code(v: int) -> char {
    choose|ch: char| #[trigger] code_point(ch) == v
}

/// The code point of a character.
pub open spec fn code_point(ch: char) -> int {
    ch as u32 as int
}

/// Two characters with the same code point are the same character.
pub proof fn lemma_code_point_injective(a: char, b: char)
    requires
        code_point(a) == code_point(b),
    ensures
        a == b,
{
    assert(a as u32 == b as u32);
}

/// Text read as an integer: an optional `+` or `-`, then at least one decimal digit, with a
/// value that fits in `int`.
pub open spec fn int_from_text(t: Seq<char>) -> Option<i64> {
    let signed = t.len() > 0 && (t[0] == '+' || t[0] == '-');
    let negative = signed && t[0] == '-';
    let digits = if signed { t.drop_first() } else { t };
    if digits.len() > 0 && all_digits(digits) && fits_i64(signed_value(digits, negative)) {
        Some(signed_value(digits, negative) as i64)
    } else {
        None
    }
}

/// Reads text as an integer (see `int_from_text`).
pub fn int_of_text(t: &Vec<char>) -> (r: Option<i64>)
    ensures
        r == int_from_text(t@),
{
    let signed = t.len() > 0 && (t[0] == '+' || t[0] == '-');
    let negative = signed && t[0] == '-';
    let mut digits: Vec<char> = Vec::new();
    let mut k: usize = if signed { 1 } else { 0 };
    let start = k;
    while k < t.len()
        invariant
            start <= k <= t@.len(),
            digits@ == t@.subrange(start as int, k as int),
        decreases t@.len() - k,
    {
        digits.push(t[k]);
        k = k + 1;
    }
    proof {
        if signed {
            assert(digits@ == t@.drop_first());
        } else {
            assert(digits@ == t@);
        }
    }
    if digits.len() == 0 || !only_digits(&digits) {
        return None;
    }
    parse_i64(&digits, negative)
}

/// The result of a conversion between two different types when neither is `float`: text to
/// `int` (see `int_from_text`), to `bool` (exactly `true` or `false`) or to `char` (exactly one
/// character); a character to its code point; an integer to the character with that code
/// point; anything to `string` as it is printed. Other values have none.
pub open spec fn cast_result(c: Content, target: Type) -> Option<Content> {
    match (c, target) {
        (Content::String(t), Type::Int) => match int_from_text(t) {
            Some(v) => Some(Content::Int(v)),
            None => None,
        },
        (Content::String(t), Type::Bool) => if t == "true"@ {
            Some(Content::Bool(true))
        } else if t == "false"@ {
            Some(Content::Bool(false))
        } else {
            None
        },
        (Content::String(t), Type::Char) => if t.len() == 1 {
            Some(Content::Char(t[0]))
        } else {
            None
        },
        (Content::Char(ch), Type::Int) => Some(Content::Int((ch as u32) as i64)),
        (Content::Int(v), Type::Char) => if is_scalar_code(v as int) {
            Some(Content::Char(char_with_code(v as int)))
        } else {
            None
        },
        (_, Type::String) => Some(Content::String(display(c))),
        _ => None,
    }
}

/// std's `char::from_u32`; the claim is that it gives the character whose code point is
/// `code`, and `None` exactly when `code` is not a Unicode scalar value (a surrogate or above
/// `0x10FFFF`).
#[verifier::external_body]
fn char_from_code(code: u32) -> (r: Option<char>)
    ensures
        r is Some <==> is_scalar_code(code as int),
        r matches Some(c) ==> c as u32 == code,
{
    char::from_u32(code)
}

fn invalid(name: &Name, source: &Type, target: &Type, detail: &str) -> (r: String)
    ensures
        names_line(r@),
        r@ == invalid_message(*source, *target, detail@, *name),
{
    let mut m: Vec<char> = Vec::new();
    push_str(&mut m, "No se puede convertir de ");
    push_type(&mut m, source);
    push_str(&mut m, " a ");
    push_type(&mut m, target);
    push_str(&mut m, ": ");
    push_str(&mut m, detail);
    push_str(&mut m, ".");
    assert(m@ =~= "No se puede convertir de "@ + type_text(*source) + " a "@ + type_text(*target) + ": "@ + detail@ + "."@);
    name.error_chars(&m)
}

/// Whether all characters are decimal digits.
fn only_digits(s: &Vec<char>) -> (r: bool)
    ensures
        r == all_digits(s@),
{
    let mut k: usize = 0;
    while k < s.len()
        invariant
            k <= s@.len(),
            forall|j: int| 0 <= j < k ==> '0' <= #[trigger] s@[j] <= '9',
        decreases s@.len() - k,
    {
        if !('0' <= s[k] && s[k] <= '9') {
            return false;
        }
        k = k + 1;
    }
    true
}

/// Whether some character is white space.
fn any_white_space(s: &Vec<char>) -> (r: bool)
    ensures
        r == exists|j: int| 0 <= j < s@.len() && is_white_space(#[trigger] s@[j]),
{
    let mut k: usize = 0;
    while k < s.len()
        invariant
            k <= s@.len(),
            forall|j: int| 0 <= j < k ==> !is_white_space(#[trigger] s@[j]),
        decreases s@.len() - k,
    {
        if white_space(s[k]) {
            return true;
        }
        k = k + 1;
    }
    false
}

/// Converts a value to another basic type. Arrays are refused; so is a pair of types that
/// `cast_allowed` excludes; converting to the value's own type gives it back. Floats are
/// converted by the host: an `int` becomes the nearest float, a float becomes its integer part
/// when that fits in `int`, and text becomes a float when the host reads it as a finite one and
/// it is not empty and holds no white space.
pub fn evaluate<F: FloatArith>(value: Value, target: &Type, name: &Name, floats: &F) -> (r: Result<Value, String>)
    ensures
        r matches Err(e) ==> names_line(e@),
        value_type_of(value) is None ==> (r matches Err(e) && e@ == name_message(*name, "Casting no admite arrays."@)),
        value_type_of(value) is None ==> r is Err,
        value_type_of(value) matches Some(s) ==> {
            &&& !cast_allowed(s, *target) ==> (r matches Err(e) && e@ == cast_type_error(s, *target, *name))
            &&& cast_allowed(s, *target) && !(s == Type::String && *target == Type::Float) ==> (r matches Err(e) ==> e@
                == invalid_message(s, *target, cast_detail(value@, *target), *name))
            &&& s == Type::String && *target == Type::Float && (value@->String_0.len() == 0 || exists|j: int|
                0 <= j < value@->String_0.len() && is_white_space(#[trigger] value@->String_0[j])) ==> (r matches Err(e)
                && e@ == invalid_message(s, *target, cast_detail(value@, *target), *name))
            &&& cast_allowed(s, *target) && s == *target ==> (r matches Ok(v) && v@ == value@)
            &&& cast_allowed(s, *target) && s != *target && s != Type::Float && *target != Type::Float ==> match r {
                Ok(v) => cast_result(value@, *target) == Some(v@),
                Err(_) => cast_result(value@, *target) is None,
            }
            &&& s == Type::Int && *target == Type::Float ==> (r matches Ok(v) && v@ is Float)
            &&& s == Type::Float && *target == Type::Int ==> (r matches Ok(v) ==> v@ is Int)
            &&& s == Type::Float && *target == Type::String ==> (r matches Ok(v) && v@ is String)
            &&& s == Type::String && *target == Type::Float ==> {
                &&& (value@->String_0.len() == 0 || exists|j: int|
                    0 <= j < value@->String_0.len() && is_white_space(#[trigger] value@->String_0[j])) ==> r is Err
                &&& r matches Ok(v) ==> v@ is Float && float_is_finite(v@->Float_0)
            }
        },
{
    let source = match value.value_type() {
        Some(t) => t,
        None => {
            return Err(name.error("Casting no admite arrays."));
        },
    };
    check_type(&source, target, name)?;
    if same_type(&source, target) {
        return Ok(value);
    }
    match (value, target) {
        (Value::Int(v), Type::Float) => Ok(Value::Float(floats.from_int(v))),
        (Value::Float(b), Type::Int) => match floats.to_int(b) {
            Some(i) => Ok(Value::Int(i)),
            None => Err(invalid(name, &source, target, "valor fuera del rango de int")),
        },
        (Value::Char(c), Type::Int) => {
            let code: u32 = c as u32;
            Ok(Value::Int(code as i64))
        },
        (Value::Int(v), Type::Char) => {
            let found = if 0 <= v && v <= 0x10ffff {
                char_from_code(v as u32)
            } else {
                None
            };
            match found {
                Some(c) => {
                    proof {
                        assert(code_point(c) == v as int);
                        let ch = char_with_code(v as int);
                        assert(code_point(ch) == v as int);
                        lemma_code_point_injective(ch, c);
                        assert(is_scalar_code(v as int));

                    }
                    Ok(Value::Char(c))
                },
                None => Err(invalid(name, &source, target, "se esperaba un valor escalar Unicode válido")),
            }
        },
        (Value::String(text), Type::Int) => {
            let signed = text.len() > 0 && (text[0] == '+' || text[0] == '-');
            let negative = signed && text[0] == '-';
            let mut digits: Vec<char> = Vec::new();
            let mut k: usize = if signed { 1 } else { 0 };
            let start = k;
            while k < text.len()
                invariant
                    start <= k <= text@.len(),
                    digits@ == text@.subrange(start as int, k as int),
                decreases text@.len() - k,
            {
                digits.push(text[k]);
                k = k + 1;
            }
            proof {
                if signed {
                    assert(digits@ == text@.drop_first());
                } else {
                    assert(digits@ == text@);
                }
            }
            if digits.len() == 0 || !only_digits(&digits) {
                return Err(invalid(name, &source, target, "se esperaba texto entero decimal sin espacios"));
            }
            match parse_i64(&digits, negative) {
                Some(v) => Ok(Value::Int(v)),
                None => Err(invalid(name, &source, target, "valor fuera del rango de int")),
            }
        },
        (Value::String(text), Type::Float) => {
            if text.len() == 0 || any_white_space(&text) {
                return Err(invalid(name, &source, target, "se esperaba texto numérico sin espacios"));
            }
            match floats.parse_decimal(&text) {
                None => Err(invalid(name, &source, target, "texto float inválido")),
                Some(bits) => if is_finite(bits) {
                    Ok(Value::Float(bits))
                } else {
                    Err(invalid(name, &source, target, "valor fuera del rango de float finito"))
                },
            }
        },
        (Value::String(text), Type::Bool) => {
            proof {
                reveal_strlit("true");
                reveal_strlit("false");
            }
            if chars_equal(&text, &chars_of("true")) {
                Ok(Value::Bool(true))
            } else if chars_equal(&text, &chars_of("false")) {
                Ok(Value::Bool(false))
            } else {
                Err(invalid(name, &source, target, "se esperaba exactamente 'true' o 'false'"))
            }
        },
        (Value::String(text), Type::Char) => {
            if text.len() == 1 {
                Ok(Value::Char(char_at(&text, 0)))
            } else {
                Err(invalid(name, &source, target, "se esperaba exactamente un valor escalar Unicode"))
            }
        },
        (other, Type::String) => {
            let mut out: Vec<char> = Vec::new();
            push_value(&mut out, &other, floats);
            Ok(Value::String(out))
        },
        _ => Err(invalid(name, &source, target, "conversión no admitida")),
    }
}

/// An `int` converted to `string` is its decimal text, and that text converted back to `int`
/// gives the same `int`.
pub proof fn lemma_int_text_round_trip(v: i64)
    ensures
        cast_result(Content::Int(v), Type::String) == Some(Content::String(int_text(v as int))),
        cast_result(Content::String(int_text(v as int)), Type::Int) == Some(Content::Int(v)),
{
    lemma_int_text_reads_back(v as int);
    let t = int_text(v as int);
    if v >= 0 {
        assert(t[0] != '+' && t[0] != '-');
    }
}

/// A `char` converted to `int` gives its code point, and that converted back to `char` gives
/// the same `char`.
pub proof fn lemma_char_code_round_trip(c: char)
    ensures
        cast_result(Content::Char(c), Type::Int) == Some(Content::Int(code_point(c) as i64)),
        cast_result(Content::Int(code_point(c) as i64), Type::Char) == Some(Content::Char(c)),
{
    let v = code_point(c);
    assert(is_scalar_code(v));
    let ch = char_with_code(v);
    assert(code_point(ch) == v);
    lemma_code_point_injective(ch, c);
}

}
