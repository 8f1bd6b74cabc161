use vstd::prelude::*;

use crate::scanner::{name_char, name_start, reserved_word, Symbol, Token, TokenKind};
use crate::text::{is_digit, line_prefix};
use crate::value::{Content, Type};

verus! {

/// What a token is, with text as sequences of characters.
pub enum TokenView {
    Symbol(Symbol),
    Type(Type),
    Literal(Content),
    Number(Seq<char>),
    Identifier(Seq<char>),
}

/// The view of a token kind.
pub open spec fn kind_view(k: TokenKind) -> TokenView {
    match k {
        TokenKind::Symbol(s) => TokenView::Symbol(s),
        TokenKind::Type(t) => TokenView::Type(t),
        TokenKind::Literal(v) => TokenView::Literal(v@),
        TokenKind::Number(t) => TokenView::Number(t@),
        TokenKind::Identifier(n) => TokenView::Identifier(n@),
    }
}

/// The view of an optional token kind.
pub open spec fn option_view(k: Option<TokenKind>) -> Option<TokenView> {
    match k {
        Some(x) => Some(kind_view(x)),
        None => None,
    }
}

/// The view of a token: its kind and the line where it starts.
pub open spec fn token_view(t: Token) -> (TokenView, int) {
    (kind_view(t.kind), t.line as int)
}

/// The position of the first `c` at or after `from`, if any.
pub open spec fn first_from(s: Seq<char>, from: int, c: char) -> Option<int>
    decreases s.len() - from,
{
    if from < 0 || from >= s.len() {
        None
    } else if s[from] == c {
        Some(from)
    } else {
        first_from(s, from + 1, c)
    }
}

/// The end of the run of decimal digits that starts at `from`.
pub open spec fn digits_end(s: Seq<char>, from: int) -> int
    decreases s.len() - from,
{
    if 0 <= from < s.len() && is_digit(s[from]) {
        digits_end(s, from + 1)
    } else {
        from
    }
}

/// The end of the run of name characters that starts at `from`.
pub open spec fn name_end(s: Seq<char>, from: int) -> int
    decreases s.len() - from,
{
    if 0 <= from < s.len() && name_char(s[from]) {
        name_end(s, from + 1)
    } else {
        from
    }
}

/// The end of a number literal whose first digit stands just before `from`: more digits, then
/// an optional `.` that must be followed by digits, then an optional `e` or `E` with an
/// optional sign that must be followed by digits. `None` when a point or an exponent lacks its
/// digits.
pub open spec fn number_end(s: Seq<char>, from: int) -> Option<int> {
    let a = digits_end(s, from);
    let fraction_end: Option<int> = if a < s.len() && s[a] == '.' {
        if a + 1 < s.len() && is_digit(s[a + 1]) {
            Some(digits_end(s, a + 1))
        } else {
            None
        }
    } else {
        Some(a)
    };
    match fraction_end {
        None => None,
        Some(b) => if b < s.len() && (s[b] == 'e' || s[b] == 'E') {
            let c = if b + 1 < s.len() && (s[b + 1] == '+' || s[b + 1] == '-') { b + 2 } else { b + 1 };
            if c < s.len() && is_digit(s[c]) {
                Some(digits_end(s, c))
            } else {
                None
            }
        } else {
            Some(b)
        },
    }
}

/// How many newlines a text holds.
pub open spec fn newlines(t: Seq<char>) -> nat
    decreases t.len(),
{
    if t.len() == 0 {
        0
    } else {
        newlines(t.drop_last()) + if t.last() == '\n' { 1nat } else { 0nat }
    }
}

/// The line after `n` more newlines; the count stops at the largest line number a `usize` holds.
pub open spec fn lines_after(line: int, n: nat) -> int {
    if line + n <= usize::MAX { line + n } else { usize::MAX as int }
}

/// The symbol for a character that is a token by itself.
pub open spec fn single_symbol(c: char) -> Option<Symbol> {
    if c == '(' {
        Some(Symbol::LeftParen)
    } else if c == ')' {
        Some(Symbol::RightParen)
    } else if c == '{' {
        Some(Symbol::LeftBrace)
    } else if c == '}' {
        Some(Symbol::RightBrace)
    } else if c == '[' {
        Some(Symbol::LeftBracket)
    } else if c == ']' {
        Some(Symbol::RightBracket)
    } else if c == ',' {
        Some(Symbol::Comma)
    } else if c == '.' {
        Some(Symbol::Dot)
    } else if c == ';' {
        Some(Symbol::Semicolon)
    } else if c == '*' {
        Some(Symbol::Star)
    } else if c == '/' {
        Some(Symbol::Slash)
    } else if c == '%' {
        Some(Symbol::Percent)
    } else {
        None
    }
}

/// The symbol for `c` followed by `=`, for the characters that form one.
pub open spec fn with_equal(c: char) -> Option<(Symbol, Symbol)> {
    if c == '=' {
        Some((Symbol::EqualEqual, Symbol::Equal))
    } else if c == '!' {
        Some((Symbol::BangEqual, Symbol::Bang))
    } else if c == '<' {
        Some((Symbol::LessEqual, Symbol::Less))
    } else if c == '>' {
        Some((Symbol::GreaterEqual, Symbol::Greater))
    } else {
        None
    }
}

/// One step of scanning at position `p` (which holds a character) on line `line`: the token
/// that starts there (`None` for a space, tab, carriage return or newline), the position after
/// it and the line there. `None` when no token can start there: a lone `:`, `&` or `|`, a quote
/// without its closing quote, a character literal without exactly one character, a malformed
/// number, or any other character. A quoted text runs to the next quote of its kind and counts
/// the newlines it holds; a number is as `number_end` reads it; a name runs as far as name
/// characters go and is a reserved word's token or an identifier.
pub open spec fn step(s: Seq<char>, p: int, line: int) -> Option<(Option<TokenView>, int, int)> {
    let c = s[p];
    let q = p + 1;
    let next_is = |x: char| q < s.len() && s[q] == x;
    if single_symbol(c) is Some {
        Some((Some(TokenView::Symbol(single_symbol(c)->0)), q, line))
    } else if with_equal(c) is Some {
        let (paired, single) = with_equal(c)->0;
        if next_is('=') {
            Some((Some(TokenView::Symbol(paired)), q + 1, line))
        } else {
            Some((Some(TokenView::Symbol(single)), q, line))
        }
    } else if c == ':' {
        if next_is(':') { Some((Some(TokenView::Symbol(Symbol::ColonColon)), q + 1, line)) } else { None }
    } else if c == '&' {
        if next_is('&') { Some((Some(TokenView::Symbol(Symbol::AndAnd)), q + 1, line)) } else { None }
    } else if c == '|' {
        if next_is('|') { Some((Some(TokenView::Symbol(Symbol::OrOr)), q + 1, line)) } else { None }
    } else if c == '+' {
        if next_is('+') {
            Some((Some(TokenView::Symbol(Symbol::PlusPlus)), q + 1, line))
        } else if next_is('=') {
            Some((Some(TokenView::Symbol(Symbol::PlusEqual)), q + 1, line))
        } else {
            Some((Some(TokenView::Symbol(Symbol::Plus)), q, line))
        }
    } else if c == '-' {
        if next_is('-') {
            Some((Some(TokenView::Symbol(Symbol::MinusMinus)), q + 1, line))
        } else if next_is('=') {
            Some((Some(TokenView::Symbol(Symbol::MinusEqual)), q + 1, line))
        } else {
            Some((Some(TokenView::Symbol(Symbol::Minus)), q, line))
        }
    } else if c == '"' {
        match first_from(s, q, '"') {
            Some(e) => Some((
                Some(TokenView::Literal(Content::String(s.subrange(q, e)))),
                e + 1,
                lines_after(line, newlines(s.subrange(q, e))),
            )),
            None => None,
        }
    } else if c == '\'' {
        match first_from(s, q, '\'') {
            Some(e) => if e == q + 1 {
                Some((Some(TokenView::Literal(Content::Char(s[q]))), e + 1, lines_after(line, newlines(s.subrange(q, e)))))
            } else {
                None
            },
            None => None,
        }
    } else if c == '\n' {
        Some((None, q, lines_after(line, 1)))
    } else if c == ' ' || c == '\r' || c == '\t' {
        Some((None, q, line))
    } else if is_digit(c) {
        match number_end(s, q) {
            Some(e) => Some((Some(TokenView::Number(s.subrange(p, e))), e, line)),
            None => None,
        }
    } else if name_start(c) {
        let e = name_end(s, q);
        let name = s.subrange(p, e);
        Some((
            Some(
                match reserved_word(name) {
                    Some(k) => kind_view(k),
                    None => TokenView::Identifier(name),
                },
            ),
            e,
            line,
        ))
    } else {
        None
    }
}

/// The tokens of the text from position `p` on, line `line`, each with the line where it
/// starts, ending with the end-of-file mark; `None` when a step fails (see `step`).
pub open spec fn scan_from(s: Seq<char>, p: int, line: int) -> Option<Seq<(TokenView, int)>>
    decreases s.len() - p,
{
    if p < 0 || p >= s.len() {
        Some(seq![(TokenView::Symbol(Symbol::Eof), line)])
    } else {
        match step(s, p, line) {
            None => None,
            Some((token, next, next_line)) => {
                proof {
                    lemma_step_advances(s, p, line);
                }
                match scan_from(s, next, next_line) {
                    None => None,
                    Some(rest) => Some(
                        match token {
                            Some(k) => seq![(k, line)] + rest,
                            None => rest,
                        },
                    ),
                }
            },
        }
    }
}

/// What a malformed number that starts at `from - 1` reports: a point without a digit after
/// it, or an exponent without digits.
pub open spec fn number_error(s: Seq<char>, from: int, line: int) -> Seq<char> {
    let a = digits_end(s, from);
    if a < s.len() && s[a] == '.' && !(a + 1 < s.len() && is_digit(s[a + 1])) {
        line_prefix(line as nat) + "se esperaba un dígito después del punto decimal."@
    } else {
        line_prefix(line as nat) + "se esperaban dígitos en el exponente."@
    }
}

/// What a step that fails at position `p` on line `line` reports (see `step`).
pub open spec fn step_error(s: Seq<char>, p: int, line: int) -> Seq<char> {
    let c = s[p];
    if c == ':' {
        line_prefix(line as nat) + "se esperaba '::' en la ruta de biblioteca."@
    } else if c == '&' || c == '|' {
        line_prefix(line as nat) + ("se esperaba '"@ + seq![c, c] + "'; '"@ + seq![c] + "' aislado no es un operador."@)
    } else if c == '"' {
        line_prefix(line as nat) + "cadena sin comillas de cierre."@
    } else if c == '\'' {
        if first_from(s, p + 1, '\'') is None {
            line_prefix(line as nat) + "char sin comillas de cierre."@
        } else {
            line_prefix(line as nat) + "un char debe contener exactamente un carácter Unicode."@
        }
    } else if is_digit(c) {
        number_error(s, p + 1, line)
    } else {
        line_prefix(line as nat) + ("carácter inesperado '"@ + seq![c] + "'."@)
    }
}

/// What scanning the text from position `p` on reports when a step fails: the error of the
/// first step that fails (see `scan_from`).
pub open spec fn scan_error_from(s: Seq<char>, p: int, line: int) -> Seq<char>
    decreases s.len() - p,
{
    if p < 0 || p >= s.len() {
        Seq::empty()
    } else {
        match step(s, p, line) {
            None => step_error(s, p, line),
            Some((_, next, next_line)) => {
                proof {
                    lemma_step_advances(s, p, line);
                }
                scan_error_from(s, next, next_line)
            },
        }
    }
}

/// What scanning a whole text reports when it fails.
pub open spec fn scan_error(s: Seq<char>) -> Seq<char> {
    scan_error_from(s, 0, 1)
}

/// Tokens already read, followed by those that scanning the rest gives (none when it fails).
pub open spec fn prefixed(read: Seq<(TokenView, int)>, rest: Option<Seq<(TokenView, int)>>) -> Option<Seq<(TokenView, int)>> {
    match rest {
        Some(r) => Some(read + r),
        None => None,
    }
}

/// The views of a sequence of tokens.
pub open spec fn tokens_view(ts: Seq<Token>) -> Seq<(TokenView, int)> {
    ts.map_values(|t: Token| token_view(t))
}

/// The tokens of a whole text, from line 1.
pub open spec fn scan(s: Seq<char>) -> Option<Seq<(TokenView, int)>> {
    scan_from(s, 0, 1)
}

/// The first `c` from `from`, where there is one, lies in the text.
pub proof fn lemma_first_from_bounds(s: Seq<char>, from: int, c: char)
    ensures
        first_from(s, from, c) matches Some(e) ==> from <= e < s.len() && s[e] == c,
    decreases s.len() - from,
{
    if 0 <= from < s.len() && s[from] != c {
        lemma_first_from_bounds(s, from + 1, c);
    }
}

/// A run of characters ends at or after where it starts, within the text.
pub proof fn lemma_runs_end_after(s: Seq<char>, from: int)
    ensures
        digits_end(s, from) >= from,
        name_end(s, from) >= from,
        from <= s.len() ==> digits_end(s, from) <= s.len() && name_end(s, from) <= s.len(),
    decreases s.len() - from,
{
    if 0 <= from < s.len() {
        lemma_runs_end_after(s, from + 1);
    }
}

/// Every step moves forward.
pub proof fn lemma_step_advances(s: Seq<char>, p: int, line: int)
    requires
        0 <= p < s.len(),
    ensures
        step(s, p, line) matches Some((_, next, _)) ==> p < next <= s.len(),
{
    lemma_first_from_bounds(s, p + 1, '"');
    lemma_first_from_bounds(s, p + 1, '\'');
    lemma_runs_end_after(s, p + 1);
    let a = digits_end(s, p + 1);
    lemma_runs_end_after(s, a + 1);
    if let Some(b) = number_end(s, p + 1) {
        lemma_runs_end_after(s, b + 1);
        lemma_runs_end_after(s, b + 2);
    }
    let fraction_end = if a < s.len() && s[a] == '.' { digits_end(s, a + 1) } else { a };
    lemma_runs_end_after(s, fraction_end + 1);
    lemma_runs_end_after(s, fraction_end + 2);
}

/// The first `c` from `from` is at `e` when `s[e]` is `c` and nothing before it is.
pub proof fn lemma_first_from_found(s: Seq<char>, from: int, e: int, c: char)
    requires
        0 <= from <= e < s.len(),
        s[e] == c,
        forall|k: int| from <= k < e ==> s[k] != c,
    ensures
        first_from(s, from, c) == Some(e),
    decreases e - from,
{
    if from < e {
        lemma_first_from_found(s, from + 1, e, c);
    }
}

/// There is no `c` from `from` on when no character from there is `c`.
pub proof fn lemma_first_from_absent(s: Seq<char>, from: int, c: char)
    requires
        0 <= from,
        forall|k: int| from <= k < s.len() ==> s[k] != c,
    ensures
        first_from(s, from, c) is None,
    decreases s.len() - from,
{
    if from < s.len() {
        lemma_first_from_absent(s, from + 1, c);
    }
}

/// A run of digits that stops at `e` ends at `e`.
pub proof fn lemma_digits_end_at(s: Seq<char>, from: int, e: int)
    requires
        0 <= from <= e <= s.len(),
        forall|k: int| from <= k < e ==> is_digit(#[trigger] s[k]),
        e == s.len() || !is_digit(s[e]),
    ensures
        digits_end(s, from) == e,
    decreases e - from,
{
    if from < e {
        lemma_digits_end_at(s, from + 1, e);
    }
}

/// A run of name characters that stops at `e` ends at `e`.
pub proof fn lemma_name_end_at(s: Seq<char>, from: int, e: int)
    requires
        0 <= from <= e <= s.len(),
        forall|k: int| from <= k < e ==> name_char(#[trigger] s[k]),
        e == s.len() || !name_char(s[e]),
    ensures
        name_end(s, from) == e,
    decreases e - from,
{
    if from < e {
        lemma_name_end_at(s, from + 1, e);
    }
}

/// One more character adds one newline if it is one.
pub proof fn lemma_newlines_push(t: Seq<char>, c: char)
    ensures
        newlines(t.push(c)) == newlines(t) + if c == '\n' { 1nat } else { 0nat },
{
    assert(t.push(c).drop_last() =~= t);
}

}
