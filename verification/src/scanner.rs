use vstd::prelude::*;

use crate::lexing::{
    digits_end, first_from, kind_view, lemma_digits_end_at, lemma_first_from_absent, lemma_first_from_found,
    lemma_name_end_at, lemma_newlines_push, lines_after, name_end, newlines, number_end, option_view, prefixed,
    number_error, scan_error_from, scan_from, step, step_error, tokens_view, TokenView,
};
use crate::text::{all_digits, char_at, is_digit, line_error, line_message, line_prefix, names_line, push_str};
use crate::value::{Type, Value};

verus! {

/// Punctuation, operators, keywords and the end-of-file mark.
#[derive(Clone, Copy, PartialEq, Eq, Structural)]
pub enum Symbol {
    Print,
    Println,
    Const,
    If,
    Else,
    While,
    For,
    Foreach,
    In,
    Import,
    Use,
    ColonColon,
    Dot,
    Semicolon,
    LeftParen,
    RightParen,
    LeftBrace,
    RightBrace,
    LeftBracket,
    RightBracket,
    Comma,
    Equal,
    EqualEqual,
    Bang,
    BangEqual,
    Less,
    LessEqual,
    Greater,
    GreaterEqual,
    AndAnd,
    OrOr,
    Plus,
    Minus,
    Star,
    Slash,
    Percent,
    PlusPlus,
    PlusEqual,
    MinusMinus,
    MinusEqual,
    Eof,
}

/// What a token is.
pub enum TokenKind {
    Symbol(Symbol),
    /// A basic type name: `int`, `float`, `bool`, `char` or `string`.
    Type(Type),
    /// A `true`/`false`, character or string literal.
    Literal(Value),
    /// The digits of a number literal, kept as text so that the parser can read a sign with them.
    Number(Vec<char>),
    Identifier(Vec<char>),
}

/// A token and the line where it starts.
pub struct Token {
    pub kind: TokenKind,
    pub line: usize,
}

/// Whether the text has the shape of a number literal:
/// `digits ("." digits)? (("e" | "E") ("+" | "-")? digits)?`, each group of digits non-empty.
pub open spec fn number_shape(s: Seq<char>) -> bool {
    exists|a: int, b: int|
        #![trigger s.take(a), s.subrange(a, b)]
        0 < a <= b <= s.len() && all_digits(s.take(a)) && fraction_shape(s.subrange(a, b))
            && exponent_shape(s.skip(b))
}

/// An empty fraction, or `.` followed by at least one digit.
pub open spec fn fraction_shape(f: Seq<char>) -> bool {
    f.len() == 0 || (f[0] == '.' && f.len() > 1 && all_digits(f.skip(1)))
}

/// An empty exponent, or `e`/`E`, an optional sign and at least one digit.
pub open spec fn exponent_shape(e: Seq<char>) -> bool {
    e.len() == 0 || ((e[0] == 'e' || e[0] == 'E') && ({
        let rest = if e.len() > 1 && (e[1] == '+' || e[1] == '-') { e.skip(2) } else { e.skip(1) };
        rest.len() > 0 && all_digits(rest)
    }))
}

/// Whether the number text has a decimal point or an exponent, which makes it a `float`.
pub open spec fn has_float_mark(s: Seq<char>) -> bool {
    exists|k: int| 0 <= k < s.len() && (#[trigger] s[k] == '.' || s[k] == 'e' || s[k] == 'E')
}

/// A number literal without point or exponent is all digits.
pub proof fn lemma_integer_text(s: Seq<char>)
    requires
        number_shape(s),
        !has_float_mark(s),
    ensures
        all_digits(s),
{
    let (a, b) = choose|a: int, b: int|
        #![trigger s.take(a), s.subrange(a, b)]
        0 < a <= b <= s.len() && all_digits(s.take(a)) && fraction_shape(s.subrange(a, b))
            && exponent_shape(s.skip(b));
    if b > a {
        assert(s.subrange(a, b)[0] == s[a]);
        assert(s[a] == '.');
    }
    if b < s.len() {
        assert(s.skip(b)[0] == s[b]);
    }
    assert(s.take(a) =~= s);
}

/// Whether a character may start a name.
pub open spec fn name_start(c: char) -> bool {
    ('a' <= c && c <= 'z') || ('A' <= c && c <= 'Z') || c == '_'
}

/// Whether a character may continue a name.
pub open spec fn name_char(c: char) -> bool {
    name_start(c) || is_digit(c)
}

/// A number token has the shape of a number literal, and a literal token holds a value of a
/// basic type (`bool`, `char` or `string`), never an array.
pub open spec fn kind_ok(k: TokenKind) -> bool {
    match k {
        TokenKind::Number(t) => number_shape(t@),
        TokenKind::Literal(v) => !(v is Array),
        _ => true,
    }
}

/// A well-formed token list ends with the end-of-file mark, and holds it only there; each of
/// its tokens is well formed (see `kind_ok`).
pub open spec fn tokens_ok(ts: Seq<Token>) -> bool {
    &&& ts.len() > 0
    &&& ts.last().kind == TokenKind::Symbol(Symbol::Eof)
    &&& forall|k: int| 0 <= k < ts.len() - 1 ==> (#[trigger] ts[k]).kind != TokenKind::Symbol(Symbol::Eof)
    &&& forall|k: int| 0 <= k < ts.len() ==> kind_ok((#[trigger] ts[k]).kind)
}

/// Reads the characters of a source text into tokens.
pub struct Scanner {
    chars: Vec<char>,
    current: usize,
    line: usize,
}

impl Scanner {
    /// A scanner at the start of `source`, on line 1.
    pub fn new(source: &str) -> (r: Self)
        ensures
            r.wf(),
            r.source() == source@,
            r.position() == 0,
            r.line_number() == 1,
    {
        let mut chars: Vec<char> = Vec::new();
        push_str(&mut chars, source);
        Scanner { chars, current: 0, line: 1 }
    }

    /// The characters being read.
    pub closed spec fn source(&self) -> Seq<char> {
        self.chars@
    }

    /// How many characters have been read.
    pub closed spec fn position(&self) -> nat {
        self.current as nat
    }

    /// The current line.
    pub closed spec fn line_number(&self) -> nat {
        self.line as nat
    }

    /// Position within the text, and a line number that cannot pass the number of characters read plus one.
    pub closed spec fn wf(&self) -> bool {
        &&& self.current <= self.chars@.len()
        &&& 1 <= self.line <= self.current + 1
    }

    /// Counts a newline.
    fn next_line(&mut self)
        requires
            old(self).wf(),
            old(self).current >= 1,
        ensures
            final(self).chars == old(self).chars,
            final(self).current == old(self).current,
            final(self).line == if old(self).line < usize::MAX { old(self).line + 1 } else { old(self).line as int },
            final(self).wf() || old(self).line == old(self).current + 1,
    {
        if self.line < usize::MAX {
            self.line = self.line + 1;
        }
    }

    fn peek(&self) -> (r: Option<char>)
        requires
            self.wf(),
        ensures
            self.current < self.chars@.len() ==> r == Some(self.chars@[self.current as int]),
            self.current >= self.chars@.len() ==> r is None,
    {
        if self.current < self.chars.len() {
            Some(self.chars[self.current])
        } else {
            None
        }
    }

    /// Consumes the next character when it equals `c`.
    fn next_if_eq(&mut self, c: char) -> (r: bool)
        requires
            old(self).wf(),
        ensures
            final(self).wf(),
            final(self).chars == old(self).chars,
            final(self).line == old(self).line,
            r == (old(self).current < old(self).chars@.len() && old(self).chars@[old(self).current as int] == c),
            final(self).current == old(self).current + if r { 1int } else { 0int },
    {
        if self.current < self.chars.len() && self.chars[self.current] == c {
            self.current = self.current + 1;
            true
        } else {
            false
        }
    }

    /// The token `paired` when the next character is `next` (which is consumed), else `single`.
    fn paired(&mut self, next: char, paired: Symbol, single: Symbol) -> (r: Symbol)
        requires
            old(self).wf(),
        ensures
            final(self).wf(),
            final(self).chars == old(self).chars,
            final(self).line == old(self).line,
            ({
                let follows = old(self).current < old(self).chars@.len() && old(self).chars@[old(self).current as int] == next;
                &&& r == if follows { paired } else { single }
                &&& final(self).current == old(self).current + if follows { 1int } else { 0int }
            }),
    {
        if self.next_if_eq(next) {
            paired
        } else {
            single
        }
    }

    /// After a `+` or `-`: the doubled operator (`++`, `--`) when the same sign follows, the
    /// operator with `=` (`+=`, `-=`) when `=` follows, else the single sign. Looks one character ahead.
    fn compound_or_single(&mut self, doubled: char, doubled_kind: Symbol, equal_kind: Symbol, single: Symbol) -> (r: Symbol)
        requires
            old(self).wf(),
            doubled != '=',
        ensures
            final(self).wf(),
            final(self).chars == old(self).chars,
            final(self).line == old(self).line,
            ({
                let has = old(self).current < old(self).chars@.len();
                let c = old(self).chars@[old(self).current as int];
                &&& r == if has && c == doubled { doubled_kind } else if has && c == '=' { equal_kind } else { single }
                &&& final(self).current == old(self).current + if has && (c == doubled || c == '=') { 1int } else { 0int }
            }),
    {
        if self.current < self.chars.len() {
            let c = self.chars[self.current];
            if c == doubled {
                self.current = self.current + 1;
                doubled_kind
            } else if c == '=' {
                self.current = self.current + 1;
                equal_kind
            } else {
                single
            }
        } else {
            single
        }
    }

    /// Reads quoted text up to the next `delimiter`, which is consumed and not included.
    /// Newlines inside the text count as lines. Without a closing delimiter the text is
    /// unterminated: the error names the line where the text started.
    fn quoted(&mut self, delimiter: char) -> (r: Result<Vec<char>, String>)
        requires
            old(self).wf(),
        ensures
            r matches Err(e) ==> names_line(e@),
            r matches Err(e) ==> e@ == line_prefix(old(self).line as nat) + (if delimiter == '"' {
                "cadena sin comillas de cierre."@
            } else {
                "char sin comillas de cierre."@
            }),
            final(self).wf(),
            final(self).chars == old(self).chars,
            match r {
                Ok(text) => {
                    let end = old(self).current + text@.len();
                    &&& end < old(self).chars@.len()
                    &&& text@ == old(self).chars@.subrange(old(self).current as int, end)
                    &&& !text@.contains(delimiter)
                    &&& old(self).chars@[end] == delimiter
                    &&& final(self).current == end + 1
                    &&& first_from(old(self).chars@, old(self).current as int, delimiter) == Some(end)
                    &&& final(self).line == lines_after(old(self).line as int, newlines(text@))
                },
                Err(_) => first_from(old(self).chars@, old(self).current as int, delimiter) is None,
            },
    {
        let start_line = self.line;
        let start = self.current;
        let mut value: Vec<char> = Vec::new();
        while self.current < self.chars.len()
            invariant
                self.wf(),
                self.chars == old(self).chars,
                start == old(self).current,
                start <= self.current,
                value@ == self.chars@.subrange(start as int, self.current as int),
                !value@.contains(delimiter),
                start_line == old(self).line,
                self.line == lines_after(start_line as int, newlines(value@)),
            decreases self.chars@.len() - self.current,
        {
            let c = self.chars[self.current];
            self.current = self.current + 1;
            if c == delimiter {
                proof {
                    assert forall|k: int| start <= k < self.current - 1 implies self.chars@[k] != delimiter by {
                        assert(value@[k - start] == self.chars@[k]);
                    }
                    lemma_first_from_found(self.chars@, start as int, self.current - 1, delimiter);
                }
                return Ok(value);
            }
            let ghost before = value@;
            if c == '\n' {
                self.next_line();
            }
            value.push(c);
            proof {
                lemma_newlines_push(before, c);
                assert(value@ == self.chars@.subrange(start as int, self.current as int));
            }
        }
        proof {
            assert forall|k: int| start <= k < self.chars@.len() implies self.chars@[k] != delimiter by {
                assert(value@[k - start] == self.chars@[k]);
            }
            lemma_first_from_absent(self.chars@, start as int, delimiter);
        }
        let mut m: Vec<char> = Vec::new();
        if delimiter == '"' {
            push_str(&mut m, "cadena sin comillas de cierre.");
            assert(m@ =~= "cadena sin comillas de cierre."@);
        } else {
            push_str(&mut m, "char sin comillas de cierre.");
            assert(m@ =~= "char sin comillas de cierre."@);
        }
        Err(line_message(start_line, &m))
    }

    /// Appends the run of digits that follows, consuming all of it.
    fn digits(&mut self, text: &mut Vec<char>)
        requires
            old(self).wf(),
        ensures
            final(self).wf(),
            final(self).chars == old(self).chars,
            final(self).line == old(self).line,
            old(self).current <= final(self).current,
            final(text)@ == old(text)@ + old(self).chars@.subrange(old(self).current as int, final(self).current as int),
            all_digits(old(self).chars@.subrange(old(self).current as int, final(self).current as int)),
            final(self).current == old(self).chars@.len() || !is_digit(old(self).chars@[final(self).current as int]),
            final(self).current == digits_end(old(self).chars@, old(self).current as int),
    {
        let start = self.current;
        let ghost start_text = text@;
        while self.current < self.chars.len() && is_ascii_digit(self.chars[self.current])
            invariant
                self.wf(),
                self.chars == old(self).chars,
                self.line == old(self).line,
                start == old(self).current,
                start <= self.current,
                text@ == start_text + self.chars@.subrange(start as int, self.current as int),
                all_digits(self.chars@.subrange(start as int, self.current as int)),
            decreases self.chars@.len() - self.current,
        {
            text.push(self.chars[self.current]);
            self.current = self.current + 1;
            proof {
                assert(self.chars@.subrange(start as int, self.current as int) == self.chars@.subrange(start as int, self.current - 1).push(self.chars@[self.current - 1]));
            }
        }
        proof {
            assert forall|k: int| start <= k < self.current implies is_digit(#[trigger] self.chars@[k]) by {
                assert(self.chars@.subrange(start as int, self.current as int)[k - start] == self.chars@[k]);
            }
            lemma_digits_end_at(self.chars@, start as int, self.current as int);
        }
    }

    /// Reads a number literal that starts with the digit `first` (already consumed):
    /// digits, an optional fraction and an optional exponent. A point must be followed by a
    /// digit, and an exponent by digits after its optional sign.
    #[verifier::rlimit(50)]
    fn number(&mut self, first: char) -> (r: Result<Vec<char>, String>)
        requires
            old(self).wf(),
            is_digit(first),
        ensures
            r matches Err(e) ==> names_line(e@),
            r matches Err(e) ==> e@ == number_error(old(self).chars@, old(self).current as int, old(self).line as int),
            final(self).wf(),
            final(self).chars == old(self).chars,
            final(self).line == old(self).line,
            old(self).current <= final(self).current,
            r matches Ok(t) ==> number_shape(t@) && t@[0] == first,
            match r {
                Ok(t) => number_end(old(self).chars@, old(self).current as int) == Some(final(self).current as int)
                    && t@ == seq![first] + old(self).chars@.subrange(old(self).current as int, final(self).current as int),
                Err(_) => number_end(old(self).chars@, old(self).current as int) is None,
            },
    {
        let mut text: Vec<char> = Vec::new();
        text.push(first);
        self.digits(&mut text);
        let a = text.len();
        let ghost whole = text@;
        assert(all_digits(text@)) by {
            assert forall|k: int| 0 <= k < text@.len() implies is_digit(#[trigger] text@[k]) by {
                if k > 0 {
                    assert(text@[k] == self.chars@.subrange(old(self).current as int, self.current as int)[k - 1]);
                }
            }
        }
        if self.next_if_eq('.') {
            text.push('.');
            if !(self.current < self.chars.len() && is_ascii_digit(self.chars[self.current])) {
                let mut m: Vec<char> = Vec::new();
                push_str(&mut m, "se esperaba un dígito después del punto decimal.");
                assert(m@ =~= "se esperaba un dígito después del punto decimal."@);
                return Err(line_message(self.line, &m));
            }
            self.digits(&mut text);
        }
        let b = text.len();
        proof {
            let f = text@.subrange(a as int, b as int);
            if b > a {
                assert(f[0] == '.');
                assert(f.skip(1) == text@.subrange(a + 1, b as int));
                assert(f.len() > 1);
            }
            assert(text@.take(a as int) == whole);
        }
        let ghost before_exponent = text@;
        if self.current < self.chars.len() && (self.chars[self.current] == 'e' || self.chars[self.current] == 'E') {
            let e = self.chars[self.current];
            self.current = self.current + 1;
            text.push(e);
            if self.current < self.chars.len() && (self.chars[self.current] == '+' || self.chars[self.current] == '-') {
                let sign = self.chars[self.current];
                self.current = self.current + 1;
                text.push(sign);
            }
            let sign_end = text.len();
            if !(self.current < self.chars.len() && is_ascii_digit(self.chars[self.current])) {
                let mut m: Vec<char> = Vec::new();
                push_str(&mut m, "se esperaban dígitos en el exponente.");
                assert(m@ =~= "se esperaban dígitos en el exponente."@);
                return Err(line_message(self.line, &m));
            }
            self.digits(&mut text);
            proof {
                let ex = text@.skip(b as int);
                let rest = text@.skip(sign_end as int);
                assert(ex[0] == e);
                assert(rest.len() > 0);
                if sign_end == b + 2 {
                    assert(ex[1] == '+' || ex[1] == '-');
                    assert(ex.skip(2) == rest);
                } else {
                    assert(ex.len() > 1 ==> !(ex[1] == '+' || ex[1] == '-'));
                    assert(ex.skip(1) == rest);
                }
                assert(text@.take(a as int) == whole);
                assert(text@.subrange(a as int, b as int) == before_exponent.subrange(a as int, b as int));
            }
        }
        proof {
            assert(text@.take(a as int) == whole);
            assert(0 < a <= b <= text@.len() && all_digits(text@.take(a as int))
                && fraction_shape(text@.subrange(a as int, b as int)) && exponent_shape(text@.skip(b as int)));
        }
        Ok(text)
    }

    /// Reads a name that starts with `first` (already consumed) and recognises the reserved words.
    fn identifier(&mut self, first: char) -> (r: TokenKind)
        requires
            old(self).wf(),
            name_start(first),
        ensures
            final(self).wf(),
            final(self).chars == old(self).chars,
            final(self).line == old(self).line,
            old(self).current <= final(self).current,
            ({
                let name = seq![first] + old(self).chars@.subrange(old(self).current as int, final(self).current as int);
                &&& forall|k: int| 0 <= k < name.len() ==> name_char(#[trigger] name[k])
                &&& final(self).current == old(self).chars@.len() || !name_char(old(self).chars@[final(self).current as int])
                &&& match r {
                    TokenKind::Identifier(n) => n@ == name && reserved_word(name) is None,
                    _ => reserved_word(name) == Some(r),
                }
            }),
            final(self).current == name_end(old(self).chars@, old(self).current as int),
    {
        let mut name: Vec<char> = Vec::new();
        name.push(first);
        let start = self.current;
        while self.current < self.chars.len() && is_name_char(self.chars[self.current])
            invariant
                self.wf(),
                self.chars == old(self).chars,
                self.line == old(self).line,
                start == old(self).current,
                start <= self.current,
                name@ == seq![first] + self.chars@.subrange(start as int, self.current as int),
                forall|k: int| 0 <= k < name@.len() ==> name_char(#[trigger] name@[k]),
            decreases self.chars@.len() - self.current,
        {
            name.push(self.chars[self.current]);
            self.current = self.current + 1;
            proof {
                assert(self.chars@.subrange(start as int, self.current as int) == self.chars@.subrange(start as int, self.current - 1).push(self.chars@[self.current - 1]));
            }
        }
        proof {
            assert forall|k: int| start <= k < self.current implies name_char(#[trigger] self.chars@[k]) by {
                assert(name@[k - start + 1] == self.chars@[k]);
            }
            lemma_name_end_at(self.chars@, start as int, self.current as int);
        }
        reserved(name)
    }

    /// Reads the token that starts at the next character: `None` for a space, tab, carriage
    /// return or newline.
    #[verifier::rlimit(60)]
    fn token(&mut self) -> (r: Result<Option<TokenKind>, String>)
        requires
            old(self).wf(),
            old(self).current < old(self).chars@.len(),
        ensures
            r matches Err(e) ==> names_line(e@),
            r matches Err(e) ==> e@ == step_error(old(self).chars@, old(self).current as int, old(self).line as int),
            final(self).wf(),
            final(self).chars == old(self).chars,
            r is Ok ==> final(self).current > old(self).current,
            r matches Ok(Some(k)) ==> k != TokenKind::Symbol(Symbol::Eof) && kind_ok(k),
            match r {
                Ok(k) => step(old(self).chars@, old(self).current as int, old(self).line as int) == Some(
                    (option_view(k), final(self).current as int, final(self).line as int),
                ),
                Err(_) => step(old(self).chars@, old(self).current as int, old(self).line as int) is None,
            },
    {
        let _length = self.chars.len();
        let character = self.chars[self.current];
        self.current = self.current + 1;
        let line = self.line;
        proof {
            lemma_reserved_not_eof();
        }
        if character == '(' {
            return Ok(Some(TokenKind::Symbol(Symbol::LeftParen)));
        } else if character == ')' {
            return Ok(Some(TokenKind::Symbol(Symbol::RightParen)));
        } else if character == '{' {
            return Ok(Some(TokenKind::Symbol(Symbol::LeftBrace)));
        } else if character == '}' {
            return Ok(Some(TokenKind::Symbol(Symbol::RightBrace)));
        } else if character == '[' {
            return Ok(Some(TokenKind::Symbol(Symbol::LeftBracket)));
        } else if character == ']' {
            return Ok(Some(TokenKind::Symbol(Symbol::RightBracket)));
        } else if character == ',' {
            return Ok(Some(TokenKind::Symbol(Symbol::Comma)));
        } else if character == '.' {
            return Ok(Some(TokenKind::Symbol(Symbol::Dot)));
        } else if character == ':' {
            if !self.next_if_eq(':') {
                return Err(line_error(line, "se esperaba '::' en la ruta de biblioteca."));
            }
            return Ok(Some(TokenKind::Symbol(Symbol::ColonColon)));
        } else if character == ';' {
            return Ok(Some(TokenKind::Symbol(Symbol::Semicolon)));
        } else if character == '=' {
            return Ok(Some(TokenKind::Symbol(self.paired('=', Symbol::EqualEqual, Symbol::Equal))));
        } else if character == '!' {
            return Ok(Some(TokenKind::Symbol(self.paired('=', Symbol::BangEqual, Symbol::Bang))));
        } else if character == '<' {
            return Ok(Some(TokenKind::Symbol(self.paired('=', Symbol::LessEqual, Symbol::Less))));
        } else if character == '>' {
            return Ok(Some(TokenKind::Symbol(self.paired('=', Symbol::GreaterEqual, Symbol::Greater))));
        } else if character == '&' || character == '|' {
            if !self.next_if_eq(character) {
                let mut m: Vec<char> = Vec::new();
                push_str(&mut m, "se esperaba '");
                m.push(character);
                m.push(character);
                push_str(&mut m, "'; '");
                m.push(character);
                push_str(&mut m, "' aislado no es un operador.");
                assert(m@ =~= "se esperaba '"@ + seq![character, character] + "'; '"@ + seq![character]
                    + "' aislado no es un operador."@);
                return Err(line_message(line, &m));
            }
            if character == '&' {
                return Ok(Some(TokenKind::Symbol(Symbol::AndAnd)));
            } else {
                return Ok(Some(TokenKind::Symbol(Symbol::OrOr)));
            }
        } else if character == '+' {
            return Ok(Some(TokenKind::Symbol(self.compound_or_single('+', Symbol::PlusPlus, Symbol::PlusEqual, Symbol::Plus))));
        } else if character == '-' {
            return Ok(Some(TokenKind::Symbol(self.compound_or_single('-', Symbol::MinusMinus, Symbol::MinusEqual, Symbol::Minus))));
        } else if character == '*' {
            return Ok(Some(TokenKind::Symbol(Symbol::Star)));
        } else if character == '/' {
            return Ok(Some(TokenKind::Symbol(Symbol::Slash)));
        } else if character == '%' {
            return Ok(Some(TokenKind::Symbol(Symbol::Percent)));
        } else if character == '"' {
            match self.quoted('"') {
                Ok(text) => {
                    return Ok(Some(TokenKind::Literal(Value::String(text))));
                },
                Err(e) => {
                    return Err(e);
                },
            }
        } else if character == '\'' {
            match self.quoted('\'') {
                Ok(text) => {
                    if text.len() == 1 {
                        return Ok(Some(TokenKind::Literal(Value::Char(char_at(&text, 0)))));
                    } else {
                        return Err(line_error(line, "un char debe contener exactamente un carácter Unicode."));
                    }
                },
                Err(e) => {
                    return Err(e);
                },
            }
        } else if character == '\n' {
            self.next_line();
            return Ok(None);
        } else if character == ' ' || character == '\r' || character == '\t' {
            return Ok(None);
        } else if is_ascii_digit(character) {
            match self.number(character) {
                Ok(text) => {
                    assert(text@ =~= self.chars@.subrange(self.current - text@.len(), self.current as int));
                    return Ok(Some(TokenKind::Number(text)));
                },
                Err(e) => {
                    return Err(e);
                },
            }
        } else if name_start_char(character) {
            let start = self.current;
            let kind = self.identifier(character);
            assert(seq![character] + self.chars@.subrange(start as int, self.current as int) =~= self.chars@.subrange(
                start - 1,
                self.current as int,
            ));
            return Ok(Some(kind));
        } else {
            let mut m: Vec<char> = Vec::new();
            push_str(&mut m, "carácter inesperado '");
            m.push(character);
            push_str(&mut m, "'.");
            assert(m@ =~= "carácter inesperado '"@ + seq![character] + "'."@);
            return Err(line_message(line, &m));
        }
    }

    /// Reads the whole text into tokens, each with the line where it starts, and appends the
    /// end-of-file mark. Spaces, tabs, carriage returns and newlines separate tokens; the first
    /// character that cannot start a token, a lone `:`, `&` or `|`, an unterminated quote, a
    /// character literal that does not hold exactly one character, or a malformed number is an
    /// error that names its line.
    pub fn scan_tokens(self) -> (r: Result<Vec<Token>, String>)
        requires
            self.wf(),
        ensures
            r matches Err(e) ==> names_line(e@),
            r matches Err(e) ==> e@ == scan_error_from(self.source(), self.position() as int, self.line_number() as int),
            r matches Ok(ts) ==> tokens_ok(ts@),
            match r {
                Ok(ts) => scan_from(self.source(), self.position() as int, self.line_number() as int) == Some(tokens_view(ts@)),
                Err(_) => scan_from(self.source(), self.position() as int, self.line_number() as int) is None,
            },
    {
        let mut scanner = self;
        scanner.scan_all()
    }

    fn scan_all(&mut self) -> (r: Result<Vec<Token>, String>)
        requires
            old(self).wf(),
        ensures
            r matches Err(e) ==> names_line(e@),
            r matches Err(e) ==> e@ == scan_error_from(old(self).chars@, old(self).current as int, old(self).line as int),
            r matches Ok(ts) ==> tokens_ok(ts@),
            match r {
                Ok(ts) => scan_from(old(self).chars@, old(self).current as int, old(self).line as int) == Some(tokens_view(ts@)),
                Err(_) => scan_from(old(self).chars@, old(self).current as int, old(self).line as int) is None,
            },
    {
        let mut tokens: Vec<Token> = Vec::new();
        assert(tokens_view(tokens@) =~= Seq::<(TokenView, int)>::empty());
        assert(Seq::<(TokenView, int)>::empty() + scan_from(self.chars@, self.current as int, self.line as int)->0
            =~= scan_from(self.chars@, self.current as int, self.line as int)->0);
        while self.current < self.chars.len()
            invariant
                self.wf(),
                self.chars == old(self).chars,
                scan_from(old(self).chars@, old(self).current as int, old(self).line as int) == prefixed(
                    tokens_view(tokens@),
                    scan_from(self.chars@, self.current as int, self.line as int),
                ),
                scan_error_from(old(self).chars@, old(self).current as int, old(self).line as int) == scan_error_from(
                    self.chars@,
                    self.current as int,
                    self.line as int,
                ),
                forall|k: int| 0 <= k < tokens@.len() ==> (#[trigger] tokens@[k]).kind != TokenKind::Symbol(Symbol::Eof),
                forall|k: int| 0 <= k < tokens@.len() ==> kind_ok((#[trigger] tokens@[k]).kind),
            decreases self.chars@.len() - self.current,
        {
            let line = self.line;
            let ghost at = self.current as int;
            match self.token() {
                Err(e) => {
                    return Err(e);
                },
                Ok(None) => {},
                Ok(Some(kind)) => {
                    let ghost before = tokens@;
                    let ghost rest = scan_from(self.chars@, self.current as int, self.line as int);
                    tokens.push(Token { kind, line });
                    proof {
                        assert(tokens_view(tokens@) =~= tokens_view(before).push((kind_view(kind), line as int)));
                        if let Some(r) = rest {
                            assert(tokens_view(before) + (seq![(kind_view(kind), line as int)] + r) =~= tokens_view(tokens@) + r);
                        }
                        assert forall|k: int| 0 <= k < tokens@.len() implies (#[trigger] tokens@[k]).kind != TokenKind::Symbol(Symbol::Eof) by {
                            if k < before.len() {
                                assert(tokens@[k] == before[k]);
                            }
                        }
                        assert forall|k: int| 0 <= k < tokens@.len() implies kind_ok((#[trigger] tokens@[k]).kind) by {
                            if k < before.len() {
                                assert(tokens@[k] == before[k]);
                            }
                        }
                    }
                },
            }
        }
        let ghost before = tokens@;
        tokens.push(Token { kind: TokenKind::Symbol(Symbol::Eof), line: self.line });
        assert(tokens_view(tokens@) =~= tokens_view(before).push((TokenView::Symbol(Symbol::Eof), self.line as int)));
        Ok(tokens)
    }
}

/// Whether a character is an ASCII decimal digit.
pub fn is_ascii_digit(c: char) -> (r: bool)
    ensures
        r == is_digit(c),
{
    '0' <= c && c <= '9'
}


/// Whether a character may continue a name.
pub fn is_name_char(c: char) -> (r: bool)
    ensures
        r == name_char(c),
{
    ('a' <= c && c <= 'z') || ('A' <= c && c <= 'Z') || c == '_' || ('0' <= c && c <= '9')
}

/// The token of a reserved word, or `None` for any other name.
pub open spec fn reserved_word(name: Seq<char>) -> Option<TokenKind> {
    if name == "print"@ {
        Some(TokenKind::Symbol(Symbol::Print))
    } else if name == "println"@ {
        Some(TokenKind::Symbol(Symbol::Println))
    } else if name == "const"@ {
        Some(TokenKind::Symbol(Symbol::Const))
    } else if name == "if"@ {
        Some(TokenKind::Symbol(Symbol::If))
    } else if name == "else"@ {
        Some(TokenKind::Symbol(Symbol::Else))
    } else if name == "while"@ {
        Some(TokenKind::Symbol(Symbol::While))
    } else if name == "for"@ {
        Some(TokenKind::Symbol(Symbol::For))
    } else if name == "foreach"@ {
        Some(TokenKind::Symbol(Symbol::Foreach))
    } else if name == "in"@ {
        Some(TokenKind::Symbol(Symbol::In))
    } else if name == "import"@ {
        Some(TokenKind::Symbol(Symbol::Import))
    } else if name == "use"@ {
        Some(TokenKind::Symbol(Symbol::Use))
    } else if name == "int"@ {
        Some(TokenKind::Type(Type::Int))
    } else if name == "float"@ {
        Some(TokenKind::Type(Type::Float))
    } else if name == "bool"@ {
        Some(TokenKind::Type(Type::Bool))
    } else if name == "char"@ {
        Some(TokenKind::Type(Type::Char))
    } else if name == "string"@ {
        Some(TokenKind::Type(Type::String))
    } else if name == "true"@ {
        Some(TokenKind::Literal(Value::Bool(true)))
    } else if name == "false"@ {
        Some(TokenKind::Literal(Value::Bool(false)))
    } else {
        None
    }
}

/// Whether the characters equal the text.
pub fn is_word(name: &Vec<char>, word: &str) -> (r: bool)
    ensures
        r == (name@ == word@),
{
    let w = crate::text::chars_of(word);
    crate::text::chars_equal(name, &w)
}

/// The token for a name: a reserved word's own token, or an identifier.
fn reserved(name: Vec<char>) -> (r: TokenKind)
    ensures
        match r {
            TokenKind::Identifier(n) => n@ == name@ && reserved_word(name@) is None,
            _ => reserved_word(name@) == Some(r),
        },
{
    if is_word(&name, "print") {
        TokenKind::Symbol(Symbol::Print)
    } else if is_word(&name, "println") {
        TokenKind::Symbol(Symbol::Println)
    } else if is_word(&name, "const") {
        TokenKind::Symbol(Symbol::Const)
    } else if is_word(&name, "if") {
        TokenKind::Symbol(Symbol::If)
    } else if is_word(&name, "else") {
        TokenKind::Symbol(Symbol::Else)
    } else if is_word(&name, "while") {
        TokenKind::Symbol(Symbol::While)
    } else if is_word(&name, "for") {
        TokenKind::Symbol(Symbol::For)
    } else if is_word(&name, "foreach") {
        TokenKind::Symbol(Symbol::Foreach)
    } else if is_word(&name, "in") {
        TokenKind::Symbol(Symbol::In)
    } else if is_word(&name, "import") {
        TokenKind::Symbol(Symbol::Import)
    } else if is_word(&name, "use") {
        TokenKind::Symbol(Symbol::Use)
    } else if is_word(&name, "int") {
        TokenKind::Type(Type::Int)
    } else if is_word(&name, "float") {
        TokenKind::Type(Type::Float)
    } else if is_word(&name, "bool") {
        TokenKind::Type(Type::Bool)
    } else if is_word(&name, "char") {
        TokenKind::Type(Type::Char)
    } else if is_word(&name, "string") {
        TokenKind::Type(Type::String)
    } else if is_word(&name, "true") {
        TokenKind::Literal(Value::Bool(true))
    } else if is_word(&name, "false") {
        TokenKind::Literal(Value::Bool(false))
    } else {
        TokenKind::Identifier(name)
    }
}


/// Whether a character may start a name.
pub fn name_start_char(c: char) -> (r: bool)
    ensures
        r == name_start(c),
{
    ('a' <= c && c <= 'z') || ('A' <= c && c <= 'Z') || c == '_'
}


proof fn lemma_reserved_not_eof()
    ensures
        forall|n: Seq<char>| reserved_word(n) != Some(TokenKind::Symbol(Symbol::Eof)),
{
}

}
