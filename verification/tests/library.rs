use okitsu::floats::{FloatArith, FloatOp};
use okitsu::interpreter::Interpreter;
use okitsu::operators::{binary, int_arithmetic, unary};
use okitsu::parser::{BinaryOp, Name, Parser, UnaryOp};
use okitsu::scanner::{Scanner, Symbol, Token, TokenKind};
use okitsu::stdlib::casting::{check_type, evaluate};
use okitsu::stdlib::{path_text, ArrayFunction, ArrayLibrary};
use okitsu::text::parse_i64;
use okitsu::type_checker::TypeChecker;
use okitsu::value::{values_equal, Type, Value};

struct Host;

impl FloatArith for Host {
    fn parse_decimal(&self, text: &Vec<char>) -> Option<u64> {
        text.iter().collect::<String>().parse::<f64>().ok().map(f64::to_bits)
    }

    fn apply(&self, op: FloatOp, left: u64, right: u64) -> u64 {
        let (a, b) = (f64::from_bits(left), f64::from_bits(right));
        let result = match op {
            FloatOp::Add => a + b,
            FloatOp::Subtract => a - b,
            FloatOp::Multiply => a * b,
            FloatOp::Divide => a / b,
            FloatOp::Remainder => a % b,
        };
        result.to_bits()
    }

    fn render(&self, bits: u64) -> Vec<char> {
        format!("{:?}", f64::from_bits(bits)).chars().collect()
    }

    fn from_int(&self, value: i64) -> u64 {
        (value as f64).to_bits()
    }

    fn to_int(&self, bits: u64) -> Option<i64> {
        let truncated = f64::from_bits(bits).trunc();
        if truncated.is_finite() && (-9223372036854775808.0..9223372036854775808.0).contains(&truncated) {
            Some(truncated as i64)
        } else {
            None
        }
    }
}

fn name(text: &str, line: usize) -> Name {
    Name { text: text.chars().collect(), line }
}

fn text(s: &str) -> Value {
    Value::String(s.chars().collect())
}

fn float(x: f64) -> Value {
    Value::Float(x.to_bits())
}

fn cast(value: Value, target: Type) -> Result<Value, String> {
    evaluate(value, &target, &name("x", 4), &Host)
}

fn shown(value: &Value) -> String {
    match value {
        Value::Int(i) => format!("int {i}"),
        Value::Float(b) => format!("float {:?}", f64::from_bits(*b)),
        Value::Bool(b) => format!("bool {b}"),
        Value::Char(c) => format!("char {c}"),
        Value::String(s) => format!("string {}", s.iter().collect::<String>()),
        Value::Array(xs) => format!("array of {}", xs.len()),
    }
}

fn cast_shown(value: Value, target: Type) -> String {
    match cast(value, target) {
        Ok(v) => shown(&v),
        Err(e) => format!("error {e}"),
    }
}

#[test]
fn casts_between_int_and_char_by_code_point() {
    assert_eq!(cast_shown(Value::Int(65), Type::Char), "char A");
    assert_eq!(cast_shown(Value::Char('ñ'), Type::Int), "int 241");
    assert_eq!(cast_shown(Value::Int(0x1F980), Type::Char), "char 🦀");
    assert_eq!(
        cast_shown(Value::Int(0xD800), Type::Char),
        "error Línea 4: No se puede convertir de int a char: se esperaba un valor escalar Unicode válido."
    );
    assert!(cast_shown(Value::Int(-1), Type::Char).starts_with("error"));
    assert!(cast_shown(Value::Int(0x110000), Type::Char).starts_with("error"));
}

#[test]
fn casts_text_to_int_with_one_optional_sign() {
    assert_eq!(cast_shown(text("+42"), Type::Int), "int 42");
    assert_eq!(cast_shown(text("-7"), Type::Int), "int -7");
    assert_eq!(cast_shown(text("-9223372036854775808"), Type::Int), "int -9223372036854775808");
    assert_eq!(
        cast_shown(text("9223372036854775808"), Type::Int),
        "error Línea 4: No se puede convertir de string a int: valor fuera del rango de int."
    );
    for bad in ["", "+", "--1", "4 2", " 1", "1.0", "x"] {
        assert_eq!(
            cast_shown(text(bad), Type::Int),
            "error Línea 4: No se puede convertir de string a int: se esperaba texto entero decimal sin espacios.",
            "{bad}"
        );
    }
}

#[test]
fn casts_text_to_bool_char_and_float() {
    assert_eq!(cast_shown(text("true"), Type::Bool), "bool true");
    assert_eq!(cast_shown(text("false"), Type::Bool), "bool false");
    assert!(cast_shown(text("True"), Type::Bool).contains("'true' o 'false'"));
    assert_eq!(cast_shown(text("ñ"), Type::Char), "char ñ");
    assert!(cast_shown(text("ab"), Type::Char).contains("exactamente un valor escalar Unicode"));
    assert!(cast_shown(text(""), Type::Char).contains("exactamente un valor escalar Unicode"));
    assert_eq!(cast_shown(text("1e3"), Type::Float), "float 1000.0");
    assert_eq!(cast_shown(text("-2.5"), Type::Float), "float -2.5");
    assert!(cast_shown(text(" 1.0"), Type::Float).contains("sin espacios"));
    assert!(cast_shown(text("1.0\u{3000}"), Type::Float).contains("sin espacios"));
    assert!(cast_shown(text(""), Type::Float).contains("sin espacios"));
    assert!(cast_shown(text("uno"), Type::Float).contains("texto float inválido"));
    assert!(cast_shown(text("inf"), Type::Float).contains("fuera del rango de float finito"));
    assert!(cast_shown(text("1e309"), Type::Float).contains("fuera del rango de float finito"));
}

#[test]
fn casts_numbers_and_everything_to_text() {
    assert_eq!(cast_shown(Value::Int(3), Type::Float), "float 3.0");
    assert_eq!(cast_shown(float(2.9), Type::Int), "int 2");
    assert_eq!(cast_shown(float(-2.9), Type::Int), "int -2");
    assert!(cast_shown(float(1e300), Type::Int).contains("fuera del rango de int"));
    assert_eq!(cast_shown(Value::Int(-12), Type::String), "string -12");
    assert_eq!(cast_shown(Value::Bool(true), Type::String), "string true");
    assert_eq!(cast_shown(Value::Char('界'), Type::String), "string 界");
    assert_eq!(cast_shown(float(0.5), Type::String), "string 0.5");
    assert_eq!(cast_shown(Value::Int(7), Type::Int), "int 7");
    assert_eq!(cast_shown(text("hola"), Type::String), "string hola");
}

#[test]
fn casting_refuses_arrays_and_unrelated_types() {
    assert_eq!(
        cast_shown(Value::Array(Vec::new()), Type::String),
        "error Línea 4: Casting no admite arrays."
    );
    assert_eq!(
        cast_shown(Value::Array(vec![Value::Int(1)]), Type::String),
        "error Línea 4: Conversión no admitida de int[] a string."
    );
    assert_eq!(
        cast_shown(Value::Bool(true), Type::Int),
        "error Línea 4: Conversión no admitida de bool a int."
    );
    assert!(check_type(&Type::Char, &Type::Float, &name("x", 1)).is_err());
    assert!(check_type(&Type::Float, &Type::Int, &name("x", 1)).is_ok());
    assert!(check_type(&Type::Array(Box::new(Type::Int)), &Type::Array(Box::new(Type::Int)), &name("x", 1)).is_err());
}

#[test]
fn int_to_text_and_back_gives_the_same_int() {
    for v in [0, 7, -7, i64::MAX, i64::MIN] {
        let printed = cast(Value::Int(v), Type::String).unwrap();
        assert_eq!(shown(&cast(printed, Type::Int).unwrap()), format!("int {v}"));
    }
    for c in ['a', 'ñ', '🦀', '\u{10FFFF}'] {
        let code = cast(Value::Char(c), Type::Int).unwrap();
        assert_eq!(shown(&cast(code, Type::Char).unwrap()), format!("char {c}"));
    }
}

fn int_of(result: Result<Value, String>) -> String {
    match result {
        Ok(v) => shown(&v),
        Err(e) => format!("error {e}"),
    }
}

#[test]
fn integer_division_truncates_and_reports_errors() {
    assert_eq!(int_of(int_arithmetic(-7, BinaryOp::Divide, 2, 1)), "int -3");
    assert_eq!(int_of(int_arithmetic(-7, BinaryOp::Remainder, 2, 1)), "int -1");
    assert_eq!(int_of(int_arithmetic(7, BinaryOp::Remainder, -2, 1)), "int 1");
    assert_eq!(int_of(int_arithmetic(i64::MIN, BinaryOp::Remainder, -1, 1)), "int 0");
    assert_eq!(
        int_of(int_arithmetic(i64::MIN, BinaryOp::Divide, -1, 3)),
        "error Línea 3: resultado fuera del rango de int en '/'."
    );
    assert_eq!(
        int_of(int_arithmetic(5, BinaryOp::Remainder, 0, 2)),
        "error Línea 2: división o resto por cero en '%'."
    );
    assert_eq!(int_of(int_arithmetic(i64::MAX, BinaryOp::Multiply, -1, 1)), format!("int {}", -i64::MAX));
    for (a, b) in [(17, 5), (-17, 5), (17, -5), (-17, -5)] {
        let q = match int_arithmetic(a, BinaryOp::Divide, b, 1).unwrap() {
            Value::Int(q) => q,
            _ => unreachable!(),
        };
        let r = match int_arithmetic(a, BinaryOp::Remainder, b, 1).unwrap() {
            Value::Int(r) => r,
            _ => unreachable!(),
        };
        assert_eq!(q * b + r, a);
    }
}

#[test]
fn operators_on_values() {
    assert_eq!(int_of(binary(text("ab"), BinaryOp::Add, text("c"), 1, &Host)), "string abc");
    assert_eq!(int_of(binary(text("a"), BinaryOp::Less, text("aa"), 1, &Host)), "bool true");
    assert_eq!(int_of(binary(text("aa"), BinaryOp::Greater, text("a"), 1, &Host)), "bool true");
    assert_eq!(int_of(binary(Value::Char('ñ'), BinaryOp::Less, Value::Char('界'), 1, &Host)), "bool true");
    assert_eq!(int_of(binary(float(0.0), BinaryOp::Equal, float(-0.0), 1, &Host)), "bool true");
    assert_eq!(int_of(binary(float(-1.5), BinaryOp::Less, float(-1.0), 1, &Host)), "bool true");
    assert_eq!(int_of(binary(float(7.5), BinaryOp::Remainder, float(-2.0), 1, &Host)), "float 1.5");
    assert_eq!(
        int_of(binary(float(1.0), BinaryOp::Divide, float(-0.0), 5, &Host)),
        "error Línea 5: división o resto por cero en '/'."
    );
    assert_eq!(
        int_of(binary(float(1e308), BinaryOp::Multiply, float(10.0), 5, &Host)),
        "error Línea 5: resultado fuera del rango de float finito en '*'."
    );
    assert_eq!(
        int_of(binary(Value::Int(1), BinaryOp::And, Value::Int(2), 6, &Host)),
        "error Línea 6: operandos incompatibles para '&&'."
    );
    assert_eq!(int_of(binary(Value::Bool(true), BinaryOp::Or, Value::Bool(false), 1, &Host)), "bool true");
    assert_eq!(int_of(unary(UnaryOp::Minus, float(2.0), 1)), "float -2.0");
    assert_eq!(int_of(unary(UnaryOp::Not, Value::Bool(true), 1)), "bool false");
    assert_eq!(
        int_of(unary(UnaryOp::Minus, Value::Int(i64::MIN), 9)),
        "error Línea 9: resultado fuera del rango de int en '-'."
    );
    let twice = unary(UnaryOp::Minus, unary(UnaryOp::Minus, Value::Int(5), 1).unwrap(), 1);
    assert_eq!(int_of(twice), "int 5");
}

#[test]
fn equality_compares_contents() {
    let a = Value::Array(vec![float(0.0), float(1.0)]);
    let b = Value::Array(vec![float(-0.0), float(1.0)]);
    let c = Value::Array(vec![float(0.0)]);
    assert!(values_equal(&a, &a));
    assert!(values_equal(&a, &b) && values_equal(&b, &a));
    assert!(!values_equal(&a, &c));
    assert!(!values_equal(&Value::Int(1), &Value::Bool(true)));
}

#[test]
fn library_import_and_use_in_order() {
    let path = vec![name("std", 1), name("Array", 1)];
    let mut library = ArrayLibrary::new();
    assert_eq!(
        library.import(&path, true, 2).unwrap_err(),
        "Línea 2: 'use std::Array;' requiere un 'import std::Array;' anterior."
    );
    assert!(library.import(&path, false, 3).is_ok());
    assert!(library.import(&path, false, 3).is_ok());
    assert!(library.import(&path, true, 4).is_ok());
    assert!(library.imported && library.short_name);
    let other = vec![name("std", 5), name("Arrays", 5)];
    assert_eq!(
        library.import(&other, false, 5).unwrap_err(),
        "Línea 5: biblioteca desconocida 'std::Arrays'; solo está disponible 'std::Array'."
    );
    let short = vec![name("Array", 6), name("len", 6)];
    assert!(matches!(library.resolve(&short, false), Ok(ArrayFunction::Len)));
    let fresh = ArrayLibrary::new();
    assert_eq!(
        fresh.resolve(&vec![name("len", 7)], true).err().unwrap(),
        "Línea 7: El método 'len' requiere un 'import std::Array;' anterior."
    );
}

#[test]
fn push_then_pop_restores_the_array() {
    let label = name("push", 8);
    let mut array = Value::Array(vec![Value::Int(1), Value::Int(2)]);
    assert!(matches!(ArrayFunction::Push.evaluate(&mut array, Some(text("x")), &label), Ok(None)));
    let popped = ArrayFunction::Pop.evaluate(&mut array, None, &label).unwrap().unwrap();
    assert_eq!(shown(&popped), "string x");
    assert!(values_equal(&array, &Value::Array(vec![Value::Int(1), Value::Int(2)])));
    let length = ArrayFunction::Len.evaluate(&mut array, None, &label).unwrap().unwrap();
    assert_eq!(shown(&length), "int 2");
    let mut empty = Value::Array(Vec::new());
    assert_eq!(
        ArrayFunction::Pop.evaluate(&mut empty, None, &name("pop", 9)).unwrap_err(),
        "Línea 9: No se puede hacer 'pop' de un array vacío."
    );
}

#[test]
fn array_functions_refuse_other_values() {
    let mut number = Value::Int(3);
    assert_eq!(
        ArrayFunction::Len.evaluate(&mut number, None, &name("len", 5)).unwrap_err(),
        "Línea 5: 'len' solo admite arrays."
    );
    assert!(values_equal(&number, &Value::Int(3)));
    let mut array = Value::Array(vec![Value::Int(1)]);
    assert!(ArrayFunction::Push.evaluate(&mut array, None, &name("push", 6)).is_err());
    assert!(values_equal(&array, &Value::Array(vec![Value::Int(1)])));
}

#[test]
fn type_rules_of_operators_and_declarations() {
    let int = Type::Int;
    assert!(matches!(TypeChecker::binary_result(&int, BinaryOp::Add, &int), Some(Type::Int)));
    assert!(TypeChecker::binary_result(&int, BinaryOp::Add, &Type::Float).is_none());
    assert!(matches!(TypeChecker::binary_result(&Type::String, BinaryOp::Less, &Type::String), Some(Type::Bool)));
    assert!(TypeChecker::binary_result(&Type::Bool, BinaryOp::Less, &Type::Bool).is_none());
    let ints = Type::Array(Box::new(Type::Int));
    assert!(matches!(TypeChecker::binary_result(&ints, BinaryOp::Equal, &ints), Some(Type::Bool)));
    assert!(TypeChecker::require_type(&name("x", 3), &int, &int).is_ok());
    assert_eq!(
        TypeChecker::require_type(&name("x", 3), &ints, &Type::Float).unwrap_err(),
        "Línea 3: Tipo incompatible para 'x': se esperaba int[], se recibió float. No hay conversiones implícitas."
    );
    assert_eq!(BinaryOp::GreaterEqual.symbol(), ">=");
    assert_eq!(UnaryOp::Not.symbol(), "!");
}

fn checked(source: &str) -> Result<(), String> {
    let tokens = Scanner::new(source).scan_tokens()?;
    let statements = Parser::new(tokens, &Host).parse()?;
    TypeChecker::new().check(&statements)
}

#[test]
fn checker_keeps_block_scopes_and_constants() {
    assert!(checked("int x = 1; if (true) { int x = 2; x = 3; } x = 4;").is_ok());
    assert!(checked("if (true) { int y = 1; } y = 2;").unwrap_err().contains("no está declarada"));
    assert!(checked("const int k = 1; k++;").unwrap_err().contains("constante 'k'"));
    assert!(checked("int x = 1; int x = 2;").unwrap_err().contains("ya está declarada"));
    assert!(checked("if (true) { import std::Array; }").unwrap_err().contains("ámbito global"));
    assert!(checked("for (int i = 0; i < 2; i++) { int j = i; } int i = 5; int j = 6;").is_ok());
    let mut checker = TypeChecker::new();
    let tokens = Scanner::new("int a = 1;").scan_tokens().unwrap();
    let statements = Parser::new(tokens, &Host).parse().unwrap();
    assert!(checker.check(&statements).is_ok());
    assert!(checker.check(&statements).is_ok());
}

#[test]
fn reads_integers_with_sign() {
    let digits: Vec<char> = "9223372036854775808".chars().collect();
    assert_eq!(parse_i64(&digits, true), Some(i64::MIN));
    assert_eq!(parse_i64(&digits, false), None);
    let small: Vec<char> = "0042".chars().collect();
    assert_eq!(parse_i64(&small, false), Some(42));
    assert_eq!(parse_i64(&Vec::new(), true), Some(0));
}

#[test]
fn path_text_joins_names() {
    assert_eq!(path_text(&vec![name("std", 1), name("Array", 1), name("len", 1)]), "std::Array::len");
    assert_eq!(path_text(&vec![name("Array", 2)]), "Array");
}

/// A host that refuses every decimal text.
struct Refusing;

impl FloatArith for Refusing {
    fn parse_decimal(&self, _text: &Vec<char>) -> Option<u64> {
        None
    }

    fn apply(&self, _op: FloatOp, left: u64, _right: u64) -> u64 {
        left
    }

    fn render(&self, _bits: u64) -> Vec<char> {
        Vec::new()
    }

    fn from_int(&self, _value: i64) -> u64 {
        0
    }

    fn to_int(&self, _bits: u64) -> Option<i64> {
        None
    }
}

#[test]
fn float_literals_take_the_host_reading_with_their_sign() {
    let tokens = Scanner::new("println(1.5);").scan_tokens().unwrap();
    assert_eq!(
        Parser::new(tokens, &Refusing).parse().err().unwrap(),
        "Línea 1: literal float inválido."
    );
    let tokens = Scanner::new("println(2);").scan_tokens().unwrap();
    assert!(Parser::new(tokens, &Refusing).parse().is_ok());
    let mut printed: Vec<char> = Vec::new();
    assert!(okitsu::run("float x = -2.5e0;\nprintln(x);", &Host, &mut printed).is_ok());
    assert_eq!(printed.iter().collect::<String>(), "-2.5\n");
}

fn token(kind: TokenKind) -> Token {
    Token { kind, line: 1 }
}

fn number_statement(digits: &str) -> Vec<Token> {
    vec![
        token(TokenKind::Symbol(Symbol::Println)),
        token(TokenKind::Symbol(Symbol::LeftParen)),
        token(TokenKind::Number(digits.chars().collect())),
        token(TokenKind::Symbol(Symbol::RightParen)),
        token(TokenKind::Symbol(Symbol::Semicolon)),
        token(TokenKind::Symbol(Symbol::Eof)),
    ]
}

#[test]
fn parser_reads_any_token_list_that_ends_with_eof() {
    assert!(Parser::new(number_statement("+5"), &Host).parse().is_ok());
    assert_eq!(
        Parser::new(number_statement("12a"), &Host).parse().err().unwrap(),
        "Línea 1: literal fuera del rango de int (64 bits con signo)."
    );
    assert!(Parser::new(number_statement(""), &Host).parse().is_err());
}

#[test]
fn checker_messages_name_their_line_and_cause() {
    assert_eq!(
        checked("int x = 1;\nint x = 2;").unwrap_err(),
        "Línea 2: La variable 'x' ya está declarada."
    );
    assert_eq!(
        checked("while (1) { }").unwrap_err(),
        "Línea 1: la condición de 'while' debe ser bool; se recibió int."
    );
    assert_eq!(
        checked("const int c = 1;\nc++;").unwrap_err(),
        "Línea 2: No se puede reasignar la constante 'c'."
    );
    assert_eq!(
        checked("float f = 1;").unwrap_err(),
        "Línea 1: Tipo incompatible para 'f': se esperaba float, se recibió int. No hay conversiones implícitas."
    );
}

fn syntax_error(source: &str) -> String {
    let tokens = Scanner::new(source).scan_tokens().unwrap();
    Parser::new(tokens, &Host).parse().err().unwrap()
}

#[test]
fn syntax_errors_name_the_line_of_the_token_and_what_was_expected() {
    assert_eq!(syntax_error("int x = 1\nprintln(x);"), "Línea 2: Se esperaba ';' al final de la instrucción.");
    assert_eq!(syntax_error("if (true { }"), "Línea 1: Se esperaba ')' después de la condición.");
    assert_eq!(syntax_error("while true) { }"), "Línea 1: Se esperaba '(' después de 'while'.");
    assert_eq!(
        syntax_error("\n\nint[3] a = [];"),
        "Línea 3: Se esperaba ']' en el tipo del array; no se declara su longitud."
    );
    assert_eq!(syntax_error("foreach (x in a) { }"), "Línea 1: Se esperaba el tipo de los elementos en 'foreach'.");
    assert_eq!(
        syntax_error("x;"),
        "Línea 1: Se esperaba '=', '+=', '-=', '++' o '--' para modificar una variable ya declarada. Para declararla hay que indicar su tipo."
    );
    assert_eq!(
        syntax_error("println(1 +\n);"),
        "Línea 2: Se esperaba un literal (int, float, bool, char, string o array), una variable o una expresión entre paréntesis."
    );
    assert_eq!(syntax_error("int[] a = [1, 2;"), "Línea 1: Se esperaba ']' después de los elementos del array.");
    assert_eq!(
        syntax_error("\nprintln(-9223372036854775809);"),
        "Línea 2: literal fuera del rango de int (64 bits con signo)."
    );
    assert_eq!(syntax_error("int = 1;"), "Línea 1: Se esperaba un nombre de variable que no sea una palabra reservada.");
    assert_eq!(syntax_error("if (true) {\nprintln(1);"), "Línea 2: Se esperaba '}' para cerrar el bloque.");
}

fn unchecked_run(source: &str) -> (Result<(), String>, String) {
    let tokens = Scanner::new(source).scan_tokens().unwrap();
    let statements = Parser::new(tokens, &Host).parse().unwrap();
    let mut interpreter = Interpreter::new(&Host);
    let result = interpreter.interpret(&statements);
    (result, interpreter.output().iter().collect())
}

#[test]
fn interpreter_names_errors_the_checker_would_refuse() {
    assert_eq!(
        unchecked_run("println(1);\nprintln(x);"),
        (Err("Línea 2: La variable 'x' no está declarada.".to_string()), "1\n".to_string())
    );
    assert_eq!(
        unchecked_run("\nwhile (1) { }"),
        (Err("Línea 2: La condición no es bool.".to_string()), String::new())
    );
    assert_eq!(
        unchecked_run("foreach (int v in 3) { }"),
        (Err("Línea 1: 'foreach' solo recorre arrays.".to_string()), String::new())
    );
    assert_eq!(
        unchecked_run("int[] a = [1];\na.push();"),
        (Err("Línea 2: 'push' necesita un valor que añadir.".to_string()), String::new())
    );
}
