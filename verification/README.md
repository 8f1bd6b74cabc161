# okitsu

An interpreter for OkitsuLang, a small statically typed teaching language (declared types,
constants, arrays, `std::Array` with `len`, `push` and `pop`, `if`, `while`, `for`, `foreach`,
`print` and `println`), written in Verus and verified against its own specification.

`run` scans a program, parses it, checks names and types, and only then executes it. Its
contract states the whole pipeline over the specification: `scan` (lexing), `p_program`
(grammar), `program_checks` (typing) and `run_stmts` (semantics), and it states that every
error names a line (`names_line`). Every message is stated exactly: those of the scanner
(`scan_error`), of the parser (each rule of the grammar fails with the line of the token it
stopped on and what it expected), of the checker (`program_error`, in `src/type_errors.rs`)
and of a run (each failure of the semantics carries its message), as well as those of the
operators, the array library and conversions.

## Layout

| Module | Contents |
| --- | --- |
| `src/lexing.rs`, `src/scanner.rs` | Tokens: the specification of scanning and the scanner proved against it. |
| `src/grammar.rs`, `src/parser.rs` | The grammar as spec functions over token views, and the recursive-descent parser proved against it. |
| `src/typing.rs`, `src/type_errors.rs`, `src/type_checker.rs` | Typing rules as an environment-passing specification, the checker's messages, and the checker proved against both. |
| `src/semantics.rs`, `src/interpreter.rs` | Big-step semantics of expressions and statements (with a bound on loop rounds), and the interpreter proved against it. |
| `src/soundness.rs` | Type soundness: running a checked program keeps every variable at a value of its declared type, and it fails only for reasons the checker cannot rule out. |
| `src/operators.rs`, `src/value.rs`, `src/stdlib.rs`, `src/stdlib/casting.rs`, `src/text.rs`, `src/floats.rs` | Values, operators, the array library, conversions and text helpers. |
| `app/main.rs` | The command-line program: reads a file, runs it and prints the output or the error. |

Floating-point arithmetic, decimal conversion and the printing of `float` values are done by
the host through the `FloatArith` trait; the library holds floats as IEEE-754 bit patterns.
The grammar takes the host's reading of each float literal as given (`Reading`), and the
semantics leaves open what a run does once it goes through a float operation, keeping only
what it printed before that point.
