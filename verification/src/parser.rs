use vstd::prelude::*;

use crate::floats::{is_finite, FloatArith};
use crate::grammar::{
    assign_rest, at, block_rest, binary_rest, error_at, expr_parsed, expr_view, exprs_parsed, exprs_view,
    fail_at, index_parsed, indices_view, lemma_exprs_view_push, lemma_stmts_view_push, level_op, list_rest,
    name_parsed, name_view, names_view, p_array_type, p_assignment, p_binary, p_block, p_declaration, p_expression,
    p_finish, p_for, p_for_start, p_foreach, p_if, p_import, p_index, p_list, p_name, p_number, p_operand, p_path,
    p_postfix, p_primary, p_print, p_program, p_simple, p_statement, p_unary, p_while, path_parsed, path_rest,
    stmt_parsed, stmt_view, stmts_parsed, stmts_view, type_parsed, type_rest, ExprView, Parsed, Reading, StmtView,
    read_as,
};
use crate::lexing::{kind_view, token_view, tokens_view, TokenView};
use crate::soundness::{
    exprs_ready, indices_ready, lemma_exprs_ready_push, lemma_stmts_ready_push, expr_ready,
    stmt_ready, stmts_ready,
};
use crate::scanner::{has_float_mark, kind_ok, lemma_integer_text, Symbol, Token, TokenKind};
use crate::stdlib::casting::int_of_text;
use crate::text::{copy_chars, line_error, line_message, line_prefix, names_line, parse_i64, push_chars, push_str};
use crate::value::{copy_type, copy_value, Type, Value};

verus! {

/// A name as written in the program, with its line.
pub struct Name {
    pub text: Vec<char>,
    pub line: usize,
}

impl Name {
    /// An error message at the name's line.
    pub fn error(&self, message: &str) -> (r: String)
        ensures
            names_line(r@),
            r@ == line_prefix(self.line as nat) + message@,
    {
        let mut m: Vec<char> = Vec::new();
        push_str(&mut m, message);
        line_message(self.line, &m)
    }

    /// An error message at the name's line, from characters.
    pub fn error_chars(&self, message: &Vec<char>) -> (r: String)
        ensures
            names_line(r@),
            r@ == line_prefix(self.line as nat) + message@,
    {
        let mut m: Vec<char> = Vec::new();
        push_chars(&mut m, message);
        line_message(self.line, &m)
    }
}

/// Operators with one operand.
#[derive(Clone, Copy, PartialEq, Eq, Structural)]
pub enum UnaryOp {
    Plus,
    Minus,
    Not,
}

/// Operators with two operands.
#[derive(Clone, Copy, PartialEq, Eq, Structural)]
pub enum BinaryOp {
    Add,
    Subtract,
    Multiply,
    Divide,
    Remainder,
    Equal,
    NotEqual,
    Less,
    LessEqual,
    Greater,
    GreaterEqual,
    And,
    Or,
}

/// How a compound assignment is written.
pub open spec fn assign_symbol(op: AssignOp) -> Seq<char> {
    match op {
        AssignOp::Add => "+="@,
        AssignOp::Subtract => "-="@,
    }
}

/// How an increment or decrement is written.
pub open spec fn increment_symbol(op: IncrementOp) -> Seq<char> {
    match op {
        IncrementOp::Increment => "++"@,
        IncrementOp::Decrement => "--"@,
    }
}

/// How a unary operator is written.
pub open spec fn unary_symbol(op: UnaryOp) -> Seq<char> {
    match op {
        UnaryOp::Plus => "+"@,
        UnaryOp::Minus => "-"@,
        UnaryOp::Not => "!"@,
    }
}

/// How a binary operator is written.
pub open spec fn binary_symbol(op: BinaryOp) -> Seq<char> {
    match op {
        BinaryOp::Add => "+"@,
        BinaryOp::Subtract => "-"@,
        BinaryOp::Multiply => "*"@,
        BinaryOp::Divide => "/"@,
        BinaryOp::Remainder => "%"@,
        BinaryOp::Equal => "=="@,
        BinaryOp::NotEqual => "!="@,
        BinaryOp::Less => "<"@,
        BinaryOp::LessEqual => "<="@,
        BinaryOp::Greater => ">"@,
        BinaryOp::GreaterEqual => ">="@,
        BinaryOp::And => "&&"@,
        BinaryOp::Or => "||"@,
    }
}

impl UnaryOp {
    /// How the operator is written.
    pub fn symbol(self) -> (r: &'static str)
        ensures
            r@ == unary_symbol(self),
    {
        match self {
            UnaryOp::Plus => "+",
            UnaryOp::Minus => "-",
            UnaryOp::Not => "!",
        }
    }
}

impl BinaryOp {
    /// How the operator is written.
    pub fn symbol(self) -> (r: &'static str)
        ensures
            r@ == binary_symbol(self),
    {
        match self {
            BinaryOp::Add => "+",
            BinaryOp::Subtract => "-",
            BinaryOp::Multiply => "*",
            BinaryOp::Divide => "/",
            BinaryOp::Remainder => "%",
            BinaryOp::Equal => "==",
            BinaryOp::NotEqual => "!=",
            BinaryOp::Less => "<",
            BinaryOp::LessEqual => "<=",
            BinaryOp::Greater => ">",
            BinaryOp::GreaterEqual => ">=",
            BinaryOp::And => "&&",
            BinaryOp::Or => "||",
        }
    }
}

/// `+=` and `-=`.
#[derive(Clone, Copy, PartialEq, Eq, Structural)]
pub enum AssignOp {
    Add,
    Subtract,
}

/// `++` and `--`.
#[derive(Clone, Copy, PartialEq, Eq, Structural)]
pub enum IncrementOp {
    Increment,
    Decrement,
}

/// The binary operator that a compound assignment applies.
pub open spec fn assign_binary(op: AssignOp) -> BinaryOp {
    match op {
        AssignOp::Add => BinaryOp::Add,
        AssignOp::Subtract => BinaryOp::Subtract,
    }
}

impl AssignOp {
    /// The binary operator this assignment applies to the target and the value.
    pub fn binary(self) -> (r: BinaryOp)
        ensures
            r == assign_binary(self),
    {
        match self {
            AssignOp::Add => BinaryOp::Add,
            AssignOp::Subtract => BinaryOp::Subtract,
        }
    }

    /// How the operator is written.
    pub fn symbol(self) -> (r: &'static str)
        ensures
            r@ == assign_symbol(self),
    {
        match self {
            AssignOp::Add => "+=",
            AssignOp::Subtract => "-=",
        }
    }
}

impl IncrementOp {
    /// The binary operator that adds or subtracts the unit.
    pub fn binary(self) -> (r: BinaryOp)
        ensures
            r == (match self {
                IncrementOp::Increment => BinaryOp::Add,
                IncrementOp::Decrement => BinaryOp::Subtract,
            }),
    {
        match self {
            IncrementOp::Increment => BinaryOp::Add,
            IncrementOp::Decrement => BinaryOp::Subtract,
        }
    }

    /// How the operator is written.
    pub fn symbol(self) -> (r: &'static str)
        ensures
            r@ == increment_symbol(self),
    {
        match self {
            IncrementOp::Increment => "++",
            IncrementOp::Decrement => "--",
        }
    }
}

/// Expressions produce values.
pub enum Expr {
    /// A call of the standard library, by path (`std::Array::len(a)`) or as a method (`a.len()`,
    /// then `receiver` holds the array and the path is the method's name alone).
    LibraryCall { path: Vec<Name>, receiver: Option<Box<Expr>>, arguments: Vec<Expr> },
    Literal(Value),
    Variable(Name),
    Array { elements: Vec<Expr>, line: usize },
    Index { array: Box<Expr>, index: Box<Expr>, line: usize },
    Unary { operator: UnaryOp, operand: Box<Expr>, line: usize },
    Binary { left: Box<Expr>, operator: BinaryOp, right: Box<Expr>, line: usize },
}

/// Statements perform actions.
pub enum Stmt {
    /// A library call whose result is discarded.
    Call(Expr),
    Import { path: Vec<Name>, is_use: bool, line: usize },
    Declare { declared_type: Type, is_constant: bool, name: Name, initializer: Expr },
    Assign { name: Name, indices: Vec<(Expr, usize)>, value: Expr },
    CompoundAssign { name: Name, indices: Vec<(Expr, usize)>, operator: AssignOp, value: Expr, line: usize },
    Increment { name: Name, indices: Vec<(Expr, usize)>, operator: IncrementOp, line: usize },
    If { condition: Expr, then_branch: Vec<Stmt>, else_branch: Option<Vec<Stmt>>, line: usize },
    While { condition: Expr, body: Vec<Stmt>, line: usize },
    For { initializer: Box<Stmt>, condition: Expr, update: Box<Stmt>, body: Vec<Stmt>, line: usize },
    Foreach { declared_type: Type, name: Name, iterable: Expr, body: Vec<Stmt>, line: usize },
    Print(Expr),
    Println(Expr),
}


/// A token list the parser can read: it ends with the end-of-file mark.
pub open spec fn ends_with_eof(tokens: Seq<Token>) -> bool {
    tokens.len() > 0 && tokens.last().kind == TokenKind::Symbol(Symbol::Eof)
}

/// Tokens with the shapes the scanner gives them: every number is well formed and no literal
/// is an array (see `kind_ok`).
pub open spec fn tokens_shaped(tokens: Seq<Token>) -> bool {
    forall|k: int| 0 <= k < tokens.len() ==> kind_ok((#[trigger] tokens[k]).kind)
}

/// A well-formed parser state: a token list that ends with the end-of-file mark and a
/// position on one of its tokens.
pub open spec fn parser_ok(tokens: Seq<Token>, current: int) -> bool {
    ends_with_eof(tokens) && 0 <= current < tokens.len()
}

/// The tokens of a parser, each with the host's reading of its number text.
pub open spec fn read_tokens(tokens: Seq<Token>, readings: Seq<Reading>) -> Seq<(TokenView, int, Reading)> {
    Seq::new(tokens.len(), |i: int| (kind_view(tokens[i].kind), tokens[i].line as int, readings[i]))
}

/// Recursive-descent parser: each method follows one rule of the grammar (see `grammar`).
pub struct Parser {
    tokens: Vec<Token>,
    readings: Vec<Reading>,
    current: usize,
}

/// What the host reads a float literal's text as, with a leading `-` when `negative` (see
/// `literal_text`). The host's `parse_decimal` has no contract, so nothing is known of the
/// reading; the parser takes it as given (see `Reading`).
fn read_number<F: FloatArith>(digits: &Vec<char>, negative: bool, floats: &F) -> Option<u64> {
    let text = literal_text(digits, negative);
    floats.parse_decimal(&text)
}

/// The text of a float literal as the host reads it: its digits, after a `-` when `negative`.
fn literal_text(digits: &Vec<char>, negative: bool) -> (r: Vec<char>)
    ensures
        r@ == (if negative { seq!['-'] + digits@ } else { digits@ }),
{
    let mut text: Vec<char> = Vec::new();
    if negative {
        text.push('-');
    }
    push_chars(&mut text, digits);
    proof {
        if !negative {
            assert(text@ =~= digits@);
        }
    }
    text
}

impl Parser {
    /// A parser at the first token. The host `floats` reads the text of each number with a
    /// point or an exponent, with and without a leading `-`, before parsing starts.
    pub fn new<F: FloatArith>(tokens: Vec<Token>, floats: &F) -> (r: Self)
        requires
            ends_with_eof(tokens@),
        ensures
            r.wf(),
            r.shaped() == tokens_shaped(tokens@),
            read_as(r.token_views(), tokens_view(tokens@)),
            r.position() == 0,
    {
        let mut readings: Vec<Reading> = Vec::new();
        let mut k: usize = 0;
        while k < tokens.len()
            invariant
                k <= tokens@.len(),
                readings@.len() == k,
            decreases tokens@.len() - k,
        {
            let reading = match &tokens[k].kind {
                TokenKind::Number(digits) => if has_float_mark_exec(digits) {
                    Reading { plus: read_number(digits, false, floats), minus: read_number(digits, true, floats) }
                } else {
                    Reading { plus: None, minus: None }
                },
                _ => Reading { plus: None, minus: None },
            };
            readings.push(reading);
            k = k + 1;
        }
        let r = Parser { tokens, readings, current: 0 };
        proof {
            assert forall|i: int| 0 <= i < r.token_views().len() implies (#[trigger] r.token_views()[i]).0
                == tokens_view(r.tokens@)[i].0 && r.token_views()[i].1 == tokens_view(r.tokens@)[i].1 by {
                assert(tokens_view(r.tokens@)[i] == token_view(r.tokens@[i]));
            }
        }
        r
    }

    /// The parser's invariant: well-formed tokens, a reading for each, and a position on one.
    pub closed spec fn wf(&self) -> bool {
        &&& parser_ok(self.tokens@, self.current as int)
        &&& self.readings@.len() == self.tokens@.len()
    }

    /// Whether the tokens have the shapes the scanner gives them (see `tokens_shaped`).
    pub closed spec fn shaped(&self) -> bool {
        tokens_shaped(self.tokens@)
    }

    /// The tokens, as mathematical values, each with the host's reading of its number text.
    pub closed spec fn token_views(&self) -> Seq<(TokenView, int, Reading)> {
        read_tokens(self.tokens@, self.readings@)
    }

    /// The position of the current token.
    pub closed spec fn position(&self) -> int {
        self.current as int
    }

    /// How many tokens are left to read.
    pub closed spec fn remaining(&self) -> int {
        self.tokens@.len() - self.current
    }

    /// The parser moved forward over the same tokens.
    pub closed spec fn advanced_from(&self, earlier: &Self) -> bool {
        &&& self.tokens == earlier.tokens
        &&& self.readings == earlier.readings
        &&& earlier.current <= self.current
    }

    /// Reads statements up to the end of the file (see `p_program`).
    pub fn parse(&mut self) -> (r: Result<Vec<Stmt>, String>)
        requires
            old(self).wf(),
        ensures
            r matches Err(e) ==> names_line(e@),
            final(self).wf(),
            stmts_parsed(p_program(old(self).token_views(), old(self).position(), Seq::empty()), r, final(self).position()),
            old(self).shaped() ==> (r matches Ok(ss) ==> stmts_ready(ss@)),
    {
        let ghost whole = p_program(self.token_views(), self.position(), Seq::empty());
        let mut statements: Vec<Stmt> = Vec::new();
        while !self.check(Symbol::Eof)
            invariant
                self.wf(),
                self.tokens == old(self).tokens,
                whole == p_program(old(self).token_views(), old(self).position(), Seq::empty()),
                whole == p_program(self.token_views(), self.position(), stmts_view(statements@)),
                self.shaped() ==> stmts_ready(statements@),
            decreases self.remaining(),
        {
            let statement = self.statement()?;
            proof {
                lemma_stmts_view_push(statements@, statement);
                if self.shaped() {
                    lemma_stmts_ready_push(statements@, statement);
                }
            }
            statements.push(statement);
        }
        Ok(statements)
    }

    fn peek(&self) -> (r: &Token)
        requires
            self.wf(),
        ensures
            *r == self.tokens@[self.current as int],
            self.token_views()[self.position()] == (kind_view(r.kind), r.line as int, self.readings@[self.current as int]),
    {
        &self.tokens[self.current]
    }

    /// Whether the current token is the symbol `s`.
    fn check(&self, s: Symbol) -> (r: bool)
        requires
            self.wf(),
        ensures
            r == (self.tokens@[self.current as int].kind == TokenKind::Symbol(s)),
            r == at(self.token_views(), self.position(), s),
    {
        match &self.tokens[self.current].kind {
            TokenKind::Symbol(k) => *k == s,
            _ => false,
        }
    }

    /// Whether the token after the current one is the symbol `s`.
    fn check_next(&self, s: Symbol) -> (r: bool)
        requires
            self.wf(),
        ensures
            r == at(self.token_views(), self.position() + 1, s),
    {
        if self.current < self.tokens.len() - 1 {
            match &self.tokens[self.current + 1].kind {
                TokenKind::Symbol(k) => *k == s,
                _ => false,
            }
        } else {
            false
        }
    }

    /// Moves past the current token, which is not the end of the file.
    fn advance(&mut self)
        requires
            old(self).wf(),
            old(self).tokens@[old(self).current as int].kind != TokenKind::Symbol(Symbol::Eof),
        ensures
            final(self).wf(),
            final(self).advanced_from(old(self)),
            final(self).remaining() < old(self).remaining(),
            final(self).position() == old(self).position() + 1,
            final(self).token_views() == old(self).token_views(),
    {
        let _n = self.tokens.len();
        self.current = self.current + 1;
    }

    /// Consumes the symbol `expected`, or fails with `message` at the current line.
    fn consume(&mut self, expected: Symbol, message: &str) -> (r: Result<(), String>)
        requires
            old(self).wf(),
            expected != Symbol::Eof,
        ensures
            r matches Err(e) ==> names_line(e@),
            final(self).wf(),
            final(self).advanced_from(old(self)),
            final(self).token_views() == old(self).token_views(),
            r is Ok == at(old(self).token_views(), old(self).position(), expected),
            r is Ok ==> final(self).remaining() < old(self).remaining() && final(self).position() == old(self).position() + 1,
            r matches Err(e) ==> e@ == error_at(old(self).token_views(), old(self).position(), message@),
    {
        if !self.check(expected) {
            return Err(self.error(message));
        }
        self.advance();
        Ok(())
    }

    /// An error message at the current token's line.
    fn error(&self, message: &str) -> (r: String)
        requires
            self.wf(),
        ensures
            names_line(r@),
            r@ == line_prefix(self.tokens@[self.current as int].line as nat) + message@,
            r@ == error_at(self.token_views(), self.position(), message@),
    {
        line_error(self.peek().line, message)
    }

    fn statement(&mut self) -> (r: Result<Stmt, String>)
        requires
            old(self).wf(),
        ensures
            r matches Err(e) ==> names_line(e@),
            final(self).wf(),
            final(self).advanced_from(old(self)),
            r is Ok ==> final(self).remaining() < old(self).remaining(),
            stmt_parsed(p_statement(old(self).token_views(), old(self).position()), r, final(self).position()),
            old(self).shaped() ==> (r matches Ok(s) ==> stmt_ready(s)),
        decreases old(self).remaining(), 30nat,
    {
        // `if` and the loops end with `}` and take no ';'; the other statements do.
        if self.check(Symbol::If) {
            return self.if_statement();
        }
        if self.check(Symbol::While) {
            return self.while_statement();
        }
        if self.check(Symbol::For) {
            return self.for_statement();
        }
        if self.check(Symbol::Foreach) {
            return self.foreach_statement();
        }
        let statement = self.simple_statement()?;
        self.consume(Symbol::Semicolon, "Se esperaba ';' al final de la instrucción.")?;
        Ok(statement)
    }

    fn simple_statement(&mut self) -> (r: Result<Stmt, String>)
        requires
            old(self).wf(),
        ensures
            r matches Err(e) ==> names_line(e@),
            final(self).wf(),
            final(self).advanced_from(old(self)),
            r is Ok ==> final(self).remaining() < old(self).remaining(),
            stmt_parsed(p_simple(old(self).token_views(), old(self).position()), r, final(self).position()),
            old(self).shaped() ==> (r matches Ok(s) ==> stmt_ready(s)),
        decreases old(self).remaining(), 25nat,
    {
        if self.check(Symbol::Const) || self.is_type() {
            return self.declaration();
        }
        if self.check(Symbol::Import) || self.check(Symbol::Use) {
            return self.import_statement();
        }
        if self.check(Symbol::Print) || self.check(Symbol::Println) {
            let newline = self.check(Symbol::Println);
            self.advance();
            return self.print_statement(newline);
        }
        if self.is_identifier() || self.check(Symbol::LeftParen) || self.check(Symbol::LeftBracket) {
            // A library call used as a statement, or else an assignment to a variable.
            let start = self.current;
            let expression = self.postfix()?;
            if let Expr::LibraryCall { .. } = expression {
                if self.current > start {
                    return Ok(Stmt::Call(expression));
                }
            }
            self.current = start;
            return self.assignment();
        }
        Err(self.error("Se esperaba una instrucción: una declaración con tipo, una asignación, una llamada, 'import', 'use', 'if', 'while', 'for', 'foreach', 'print' o 'println'."))
    }

    /// Whether the current token is a type name.
    fn is_type(&self) -> (r: bool)
        requires
            self.wf(),
        ensures
            r == (self.tokens@[self.current as int].kind is Type),
            r == (self.token_views()[self.position()].0 is Type),
    {
        match &self.peek().kind {
            TokenKind::Type(_) => true,
            _ => false,
        }
    }

    /// Whether the current token is a name.
    fn is_identifier(&self) -> (r: bool)
        requires
            self.wf(),
        ensures
            r == (self.tokens@[self.current as int].kind is Identifier),
            r == (self.token_views()[self.position()].0 is Identifier),
    {
        match &self.peek().kind {
            TokenKind::Identifier(_) => true,
            _ => false,
        }
    }

    /// `"const"? type IDENTIFIER "=" expression`
    fn declaration(&mut self) -> (r: Result<Stmt, String>)
        requires
            old(self).wf(),
        ensures
            r matches Err(e) ==> names_line(e@),
            final(self).wf(),
            final(self).advanced_from(old(self)),
            r is Ok ==> final(self).remaining() < old(self).remaining(),
            stmt_parsed(p_declaration(old(self).token_views(), old(self).position()), r, final(self).position()),
            old(self).shaped() ==> (r matches Ok(s) ==> stmt_ready(s)),
        decreases old(self).remaining(), 20nat,
    {
        let is_constant = self.check(Symbol::Const);
        if is_constant {
            self.advance();
        }
        let declared_type = self.array_type("Se esperaba un tipo (int, float, bool, char o string) después de 'const'.")?;
        let name = self.name()?;
        self.consume(Symbol::Equal, "Se esperaba '=' y un valor inicial después del nombre.")?;
        let initializer = self.expression()?;
        Ok(Stmt::Declare { declared_type, is_constant, name, initializer })
    }

    /// `basicType ("[" "]")*`
    fn array_type(&mut self, message: &str) -> (r: Result<Type, String>)
        requires
            old(self).wf(),
        ensures
            r matches Err(e) ==> names_line(e@),
            final(self).wf(),
            final(self).advanced_from(old(self)),
            r is Ok ==> final(self).remaining() < old(self).remaining(),
            type_parsed(p_array_type(old(self).token_views(), old(self).position(), message@), r, final(self).position()),
    {
        let ghost whole = p_array_type(self.token_views(), self.position(), message@);
        let mut declared_type = match &self.peek().kind {
            TokenKind::Type(t) => copy_type(t),
            _ => {
                return Err(self.error(message));
            },
        };
        self.advance();
        while self.check(Symbol::LeftBracket)
            invariant
                self.wf(),
                self.advanced_from(old(self)),
                self.remaining() < old(self).remaining(),
                whole == p_array_type(old(self).token_views(), old(self).position(), message@),
                whole == type_rest(self.token_views(), self.position(), declared_type),
            decreases self.remaining(),
        {
            self.advance();
            self.consume(Symbol::RightBracket, "Se esperaba ']' en el tipo del array; no se declara su longitud.")?;
            declared_type = Type::Array(Box::new(declared_type));
        }
        Ok(declared_type)
    }

    /// `IDENTIFIER ("[" expression "]")* ("=" expression | "+=" expression | "-=" expression | "++" | "--")`
    fn assignment(&mut self) -> (r: Result<Stmt, String>)
        requires
            old(self).wf(),
        ensures
            r matches Err(e) ==> names_line(e@),
            final(self).wf(),
            final(self).advanced_from(old(self)),
            r is Ok ==> final(self).remaining() < old(self).remaining(),
            stmt_parsed(p_assignment(old(self).token_views(), old(self).position()), r, final(self).position()),
            old(self).shaped() ==> (r matches Ok(s) ==> stmt_ready(s)),
            r matches Ok(s) ==> s is Assign || s is CompoundAssign || s is Increment,
        decreases old(self).remaining(), 21nat,
    {
        let ghost whole = p_assignment(self.token_views(), self.position());
        let name = self.name()?;
        let mut indices: Vec<(Expr, usize)> = Vec::new();
        proof {
            assert(indices_view(indices@) =~= Seq::<(ExprView, int)>::empty());
        }
        while self.check(Symbol::LeftBracket)
            invariant
                self.wf(),
                self.advanced_from(old(self)),
                self.remaining() < old(self).remaining(),
                whole == p_assignment(old(self).token_views(), old(self).position()),
                whole == assign_rest(self.token_views(), self.position(), name_view(name), indices_view(indices@)),
                self.shaped() ==> indices_ready(indices@),
            decreases self.remaining(),
        {
            let index = self.index()?;
            proof {
                assert(indices_view(indices@.push(index)) =~= indices_view(indices@).push((expr_view(index.0), index.1 as int)));
                if self.shaped() {
                    assert forall|k: int| 0 <= k < indices@.push(index).len() implies expr_ready(#[trigger] indices@.push(index)[k].0) by {
                        if k < indices@.len() {
                            assert(indices@.push(index)[k] == indices@[k]);
                        }
                    }
                }
            }
            indices.push(index);
        }
        let line = self.peek().line;
        if self.check(Symbol::Equal) {
            self.advance();
            let value = self.expression()?;
            Ok(Stmt::Assign { name, indices, value })
        } else if self.check(Symbol::PlusEqual) || self.check(Symbol::MinusEqual) {
            let operator = if self.check(Symbol::PlusEqual) { AssignOp::Add } else { AssignOp::Subtract };
            self.advance();
            let value = self.expression()?;
            Ok(Stmt::CompoundAssign { name, indices, operator, value, line })
        } else if self.check(Symbol::PlusPlus) || self.check(Symbol::MinusMinus) {
            let operator = if self.check(Symbol::PlusPlus) { IncrementOp::Increment } else { IncrementOp::Decrement };
            self.advance();
            Ok(Stmt::Increment { name, indices, operator, line })
        } else {
            Err(self.error("Se esperaba '=', '+=', '-=', '++' o '--' para modificar una variable ya declarada. Para declararla hay que indicar su tipo."))
        }
    }

    /// `("import" | "use") path`
    fn import_statement(&mut self) -> (r: Result<Stmt, String>)
        requires
            old(self).wf(),
            old(self).tokens@[old(self).current as int].kind != TokenKind::Symbol(Symbol::Eof),
        ensures
            r matches Err(e) ==> names_line(e@),
            final(self).wf(),
            final(self).advanced_from(old(self)),
            r is Ok ==> final(self).remaining() < old(self).remaining(),
            stmt_parsed(p_import(old(self).token_views(), old(self).position()), r, final(self).position()),
            old(self).shaped() ==> (r matches Ok(s) ==> stmt_ready(s)),
    {
        let is_use = self.check(Symbol::Use);
        let line = self.peek().line;
        self.advance();
        let path = self.path()?;
        Ok(Stmt::Import { path, is_use, line })
    }

    /// `IDENTIFIER ("::" IDENTIFIER)*`
    fn path(&mut self) -> (r: Result<Vec<Name>, String>)
        requires
            old(self).wf(),
        ensures
            r matches Err(e) ==> names_line(e@),
            final(self).wf(),
            final(self).advanced_from(old(self)),
            r matches Ok(p) ==> final(self).remaining() < old(self).remaining() && p@.len() > 0,
            path_parsed(p_path(old(self).token_views(), old(self).position()), r, final(self).position()),
    {
        let ghost whole = p_path(self.token_views(), self.position());
        let mut path: Vec<Name> = Vec::new();
        let first = self.name()?;
        path.push(first);
        proof {
            assert(names_view(path@) =~= seq![name_view(first)]);
        }
        while self.check(Symbol::ColonColon)
            invariant
                self.wf(),
                self.advanced_from(old(self)),
                self.remaining() < old(self).remaining(),
                path@.len() > 0,
                whole == p_path(old(self).token_views(), old(self).position()),
                whole == path_rest(self.token_views(), self.position(), names_view(path@)),
            decreases self.remaining(),
        {
            self.advance();
            let next = self.name()?;
            proof {
                assert(names_view(path@.push(next)) =~= names_view(path@).push(name_view(next)));
            }
            path.push(next);
        }
        Ok(path)
    }

    /// `"if" "(" expression ")" block ("else" (ifStmt | block))?`
    fn if_statement(&mut self) -> (r: Result<Stmt, String>)
        requires
            old(self).wf(),
            old(self).tokens@[old(self).current as int].kind == TokenKind::Symbol(Symbol::If),
        ensures
            r matches Err(e) ==> names_line(e@),
            final(self).wf(),
            final(self).advanced_from(old(self)),
            r is Ok ==> final(self).remaining() < old(self).remaining(),
            stmt_parsed(p_if(old(self).token_views(), old(self).position()), r, final(self).position()),
            old(self).shaped() ==> (r matches Ok(s) ==> stmt_ready(s)),
        decreases old(self).remaining(), 28nat,
    {
        let line = self.peek().line;
        self.advance();
        self.consume(Symbol::LeftParen, "Se esperaba '(' después de 'if'.")?;
        let condition = self.expression()?;
        self.consume(Symbol::RightParen, "Se esperaba ')' después de la condición.")?;
        let then_branch = self.block()?;
        let else_branch = if self.check(Symbol::Else) {
            self.advance();
            // 'else if' chains another if; 'else' is followed by a block.
            if self.check(Symbol::If) {
                let nested = self.if_statement()?;
                let mut branch: Vec<Stmt> = Vec::new();
                branch.push(nested);
                proof {
                    lemma_stmts_view_push(Seq::empty(), nested);
                    if self.shaped() {
                        lemma_stmts_ready_push(Seq::empty(), nested);
                    }
                    assert(Seq::<Stmt>::empty().push(nested) =~= branch@);
                    assert(stmts_view(Seq::<Stmt>::empty()) =~= Seq::<StmtView>::empty());
                    assert(Seq::<StmtView>::empty().push(stmt_view(nested)) =~= seq![stmt_view(nested)]);
                }
                Some(branch)
            } else {
                Some(self.block()?)
            }
        } else {
            None
        };
        Ok(Stmt::If { condition, then_branch, else_branch, line })
    }

    /// `"while" "(" expression ")" block`
    fn while_statement(&mut self) -> (r: Result<Stmt, String>)
        requires
            old(self).wf(),
            old(self).tokens@[old(self).current as int].kind == TokenKind::Symbol(Symbol::While),
        ensures
            r matches Err(e) ==> names_line(e@),
            final(self).wf(),
            final(self).advanced_from(old(self)),
            r is Ok ==> final(self).remaining() < old(self).remaining(),
            stmt_parsed(p_while(old(self).token_views(), old(self).position()), r, final(self).position()),
            old(self).shaped() ==> (r matches Ok(s) ==> stmt_ready(s)),
        decreases old(self).remaining(), 28nat,
    {
        let line = self.peek().line;
        self.advance();
        self.consume(Symbol::LeftParen, "Se esperaba '(' después de 'while'.")?;
        let condition = self.expression()?;
        self.consume(Symbol::RightParen, "Se esperaba ')' después de la condición.")?;
        let body = self.block()?;
        Ok(Stmt::While { condition, body, line })
    }

    /// `"for" "(" (declaration | assignment) ";" expression ";" assignment ")" block`
    #[verifier::rlimit(40)]
    fn for_statement(&mut self) -> (r: Result<Stmt, String>)
        requires
            old(self).wf(),
            old(self).tokens@[old(self).current as int].kind == TokenKind::Symbol(Symbol::For),
        ensures
            r matches Err(e) ==> names_line(e@),
            final(self).wf(),
            final(self).advanced_from(old(self)),
            r is Ok ==> final(self).remaining() < old(self).remaining(),
            stmt_parsed(p_for(old(self).token_views(), old(self).position()), r, final(self).position()),
            old(self).shaped() ==> (r matches Ok(s) ==> stmt_ready(s)),
        decreases old(self).remaining(), 28nat,
    {
        let line = self.peek().line;
        self.advance();
        self.consume(Symbol::LeftParen, "Se esperaba '(' después de 'for'.")?;
        let initializer = if self.check(Symbol::Const) || self.is_type() {
            self.declaration()?
        } else {
            self.assignment()?
        };
        self.consume(Symbol::Semicolon, "Se esperaba ';' después de la inicialización del 'for'.")?;
        let condition = self.expression()?;
        self.consume(Symbol::Semicolon, "Se esperaba ';' después de la condición del 'for'.")?;
        let update = self.assignment()?;
        self.consume(Symbol::RightParen, "Se esperaba ')' después de la actualización del 'for'.")?;
        let body = self.block()?;
        Ok(Stmt::For { initializer: Box::new(initializer), condition, update: Box::new(update), body, line })
    }

    /// `"foreach" "(" type IDENTIFIER "in" expression ")" block`
    #[verifier::rlimit(50)]
    fn foreach_statement(&mut self) -> (r: Result<Stmt, String>)
        requires
            old(self).wf(),
            old(self).tokens@[old(self).current as int].kind == TokenKind::Symbol(Symbol::Foreach),
        ensures
            r matches Err(e) ==> names_line(e@),
            final(self).wf(),
            final(self).advanced_from(old(self)),
            r is Ok ==> final(self).remaining() < old(self).remaining(),
            stmt_parsed(p_foreach(old(self).token_views(), old(self).position()), r, final(self).position()),
            old(self).shaped() ==> (r matches Ok(s) ==> stmt_ready(s)),
        decreases old(self).remaining(), 28nat,
    {
        let line = self.peek().line;
        self.advance();
        self.consume(Symbol::LeftParen, "Se esperaba '(' después de 'foreach'.")?;
        let declared_type = self.array_type("Se esperaba el tipo de los elementos en 'foreach'.")?;
        let name = self.name()?;
        self.consume(Symbol::In, "Se esperaba 'in' después del nombre en 'foreach'.")?;
        let iterable = self.expression()?;
        self.consume(Symbol::RightParen, "Se esperaba ')' después del array de 'foreach'.")?;
        let body = self.block()?;
        Ok(Stmt::Foreach { declared_type, name, iterable, body, line })
    }

    /// `"{" statement* "}"`
    fn block(&mut self) -> (r: Result<Vec<Stmt>, String>)
        requires
            old(self).wf(),
        ensures
            r matches Err(e) ==> names_line(e@),
            final(self).wf(),
            final(self).advanced_from(old(self)),
            r is Ok ==> final(self).remaining() < old(self).remaining(),
            stmts_parsed(p_block(old(self).token_views(), old(self).position()), r, final(self).position()),
            old(self).shaped() ==> (r matches Ok(ss) ==> stmts_ready(ss@)),
        decreases old(self).remaining(), 27nat,
    {
        let ghost whole = p_block(self.token_views(), self.position());
        self.consume(Symbol::LeftBrace, "Se esperaba '{' para abrir el bloque.")?;
        let mut statements: Vec<Stmt> = Vec::new();
        while !self.check(Symbol::RightBrace)
            invariant
                self.wf(),
                self.advanced_from(old(self)),
                self.remaining() < old(self).remaining(),
                whole == p_block(old(self).token_views(), old(self).position()),
                whole == block_rest(self.token_views(), self.position(), stmts_view(statements@)),
                self.shaped() ==> stmts_ready(statements@),
            decreases self.remaining(),
        {
            if self.check(Symbol::Eof) {
                return Err(self.error("Se esperaba '}' para cerrar el bloque."));
            }
            let statement = self.statement()?;
            proof {
                lemma_stmts_view_push(statements@, statement);
                if self.shaped() {
                    lemma_stmts_ready_push(statements@, statement);
                }
            }
            statements.push(statement);
        }
        self.advance();
        Ok(statements)
    }

    /// A name that is not a reserved word.
    fn name(&mut self) -> (r: Result<Name, String>)
        requires
            old(self).wf(),
        ensures
            r matches Err(e) ==> names_line(e@),
            final(self).wf(),
            final(self).advanced_from(old(self)),
            r is Ok ==> final(self).remaining() < old(self).remaining(),
            name_parsed(p_name(old(self).token_views(), old(self).position()), r, final(self).position()),
    {
        let line = self.peek().line;
        let text = match &self.peek().kind {
            TokenKind::Identifier(text) => copy_chars(text),
            _ => {
                return Err(self.error("Se esperaba un nombre de variable que no sea una palabra reservada."));
            },
        };
        self.advance();
        Ok(Name { text, line })
    }

    /// `("print" | "println") "(" expression ")"`, after the keyword.
    fn print_statement(&mut self, newline: bool) -> (r: Result<Stmt, String>)
        requires
            old(self).wf(),
        ensures
            r matches Err(e) ==> names_line(e@),
            final(self).wf(),
            final(self).advanced_from(old(self)),
            r is Ok ==> final(self).remaining() < old(self).remaining(),
            stmt_parsed(p_print(old(self).token_views(), old(self).position(), newline), r, final(self).position()),
            old(self).shaped() ==> (r matches Ok(s) ==> stmt_ready(s)),
        decreases old(self).remaining(), 20nat,
    {
        self.consume(Symbol::LeftParen, "Se esperaba '(' después de 'print' o 'println'.")?;
        let expression = self.expression()?;
        self.consume(Symbol::RightParen, "Se esperaba ')' después de la expresión.")?;
        Ok(if newline {
            Stmt::Println(expression)
        } else {
            Stmt::Print(expression)
        })
    }

    fn expression(&mut self) -> (r: Result<Expr, String>)
        requires
            old(self).wf(),
        ensures
            r matches Err(e) ==> names_line(e@),
            final(self).wf(),
            final(self).advanced_from(old(self)),
            r is Ok ==> final(self).remaining() < old(self).remaining(),
            expr_parsed(p_expression(old(self).token_views(), old(self).position()), r, final(self).position()),
            old(self).shaped() ==> (r matches Ok(e) ==> expr_ready(e)),
        decreases old(self).remaining(), 15nat,
    {
        self.or()
    }

    /// The binary operator of a precedence level at the current token.
    fn level_operator(&self, level: u8) -> (r: Option<BinaryOp>)
        requires
            self.wf(),
        ensures
            r is Some ==> self.tokens@[self.current as int].kind != TokenKind::Symbol(Symbol::Eof),
            r == level_op(self.token_views(), self.position(), level as nat),
    {
        match &self.peek().kind {
            TokenKind::Symbol(s) => {
                let s = *s;
                if level == 0 {
                    if s == Symbol::OrOr { Some(BinaryOp::Or) } else { None }
                } else if level == 1 {
                    if s == Symbol::AndAnd { Some(BinaryOp::And) } else { None }
                } else if level == 2 {
                    if s == Symbol::EqualEqual {
                        Some(BinaryOp::Equal)
                    } else if s == Symbol::BangEqual {
                        Some(BinaryOp::NotEqual)
                    } else {
                        None
                    }
                } else if level == 3 {
                    if s == Symbol::Less {
                        Some(BinaryOp::Less)
                    } else if s == Symbol::LessEqual {
                        Some(BinaryOp::LessEqual)
                    } else if s == Symbol::Greater {
                        Some(BinaryOp::Greater)
                    } else if s == Symbol::GreaterEqual {
                        Some(BinaryOp::GreaterEqual)
                    } else {
                        None
                    }
                } else if level == 4 {
                    if s == Symbol::Plus {
                        Some(BinaryOp::Add)
                    } else if s == Symbol::Minus {
                        Some(BinaryOp::Subtract)
                    } else {
                        None
                    }
                } else {
                    if s == Symbol::Star {
                        Some(BinaryOp::Multiply)
                    } else if s == Symbol::Slash {
                        Some(BinaryOp::Divide)
                    } else if s == Symbol::Percent {
                        Some(BinaryOp::Remainder)
                    } else {
                        None
                    }
                }
            },
            _ => None,
        }
    }

    /// One precedence level: operands of the next level joined left to right by this level's
    /// operators. Levels: 0 `||`, 1 `&&`, 2 `==` `!=`, 3 `<` `<=` `>` `>=`, 4 `+` `-`, 5 `*` `/` `%`.
    fn binary(&mut self, level: u8) -> (r: Result<Expr, String>)
        requires
            old(self).wf(),
            level <= 5,
        ensures
            r matches Err(e) ==> names_line(e@),
            final(self).wf(),
            final(self).advanced_from(old(self)),
            r is Ok ==> final(self).remaining() < old(self).remaining(),
            expr_parsed(p_binary(old(self).token_views(), old(self).position(), level as nat), r, final(self).position()),
            old(self).shaped() ==> (r matches Ok(e) ==> expr_ready(e)),
        decreases old(self).remaining(), 14nat, 5 - level,
    {
        let ghost whole = p_binary(self.token_views(), self.position(), level as nat);
        let mut expression = self.operand(level)?;
        loop
            invariant_except_break
                self.wf(),
                self.advanced_from(old(self)),
                self.remaining() < old(self).remaining(),
                level <= 5,
                whole == p_binary(old(self).token_views(), old(self).position(), level as nat),
                whole == binary_rest(self.token_views(), self.position(), level as nat, expr_view(expression)),
                self.shaped() ==> expr_ready(expression),
            ensures
                self.wf(),
                self.advanced_from(old(self)),
                self.remaining() < old(self).remaining(),
                whole == p_binary(old(self).token_views(), old(self).position(), level as nat),
                whole == Parsed::Done(expr_view(expression), self.position()),
                self.shaped() ==> expr_ready(expression),
            decreases self.remaining(),
        {
            let operator = match self.level_operator(level) {
                Some(op) => op,
                None => {
                    break;
                },
            };
            let line = self.peek().line;
            self.advance();
            let right = self.operand(level)?;
            expression = Expr::Binary { left: Box::new(expression), operator, right: Box::new(right), line };
        }
        Ok(expression)
    }

    /// An operand of a precedence level: the next level, or a unary expression below `*`.
    fn operand(&mut self, level: u8) -> (r: Result<Expr, String>)
        requires
            old(self).wf(),
            level <= 5,
        ensures
            r matches Err(e) ==> names_line(e@),
            final(self).wf(),
            final(self).advanced_from(old(self)),
            r is Ok ==> final(self).remaining() < old(self).remaining(),
            expr_parsed(p_operand(old(self).token_views(), old(self).position(), level as nat), r, final(self).position()),
            old(self).shaped() ==> (r matches Ok(e) ==> expr_ready(e)),
        decreases old(self).remaining(), 14nat, 5 - level, 0nat,
    {
        if level < 5 {
            self.binary(level + 1)
        } else {
            self.unary()
        }
    }

    fn or(&mut self) -> (r: Result<Expr, String>)
        requires
            old(self).wf(),
        ensures
            r matches Err(e) ==> names_line(e@),
            final(self).wf(),
            final(self).advanced_from(old(self)),
            r is Ok ==> final(self).remaining() < old(self).remaining(),
            expr_parsed(p_expression(old(self).token_views(), old(self).position()), r, final(self).position()),
            old(self).shaped() ==> (r matches Ok(e) ==> expr_ready(e)),
        decreases old(self).remaining(), 14nat, 6nat,
    {
        self.binary(0)
    }

    /// `("!" | "-" | "+") unary | postfix`; a `-` directly before a number literal is read
    /// together with it, so that the least `int` can be written.
    fn unary(&mut self) -> (r: Result<Expr, String>)
        requires
            old(self).wf(),
        ensures
            r matches Err(e) ==> names_line(e@),
            final(self).wf(),
            final(self).advanced_from(old(self)),
            r is Ok ==> final(self).remaining() < old(self).remaining(),
            expr_parsed(p_unary(old(self).token_views(), old(self).position()), r, final(self).position()),
            old(self).shaped() ==> (r matches Ok(e) ==> expr_ready(e)),
        decreases old(self).remaining(), 13nat,
    {
        let operator = if self.check(Symbol::Plus) {
            UnaryOp::Plus
        } else if self.check(Symbol::Minus) {
            UnaryOp::Minus
        } else if self.check(Symbol::Bang) {
            UnaryOp::Not
        } else {
            return self.postfix();
        };
        let line = self.peek().line;
        self.advance();
        if operator == UnaryOp::Minus && self.is_number() {
            let number = self.number(true, line)?;
            return self.finish_postfix(number);
        }
        let operand = self.unary()?;
        Ok(Expr::Unary { operator, operand: Box::new(operand), line })
    }

    /// Whether the current token is a number literal.
    fn is_number(&self) -> (r: bool)
        requires
            self.wf(),
        ensures
            r == (self.tokens@[self.current as int].kind is Number),
            r == (self.token_views()[self.position()].0 is Number),
    {
        match &self.peek().kind {
            TokenKind::Number(_) => true,
            _ => false,
        }
    }

    /// `"[" expression "]"`, with the line of the `[`.
    fn index(&mut self) -> (r: Result<(Expr, usize), String>)
        requires
            old(self).wf(),
            old(self).tokens@[old(self).current as int].kind == TokenKind::Symbol(Symbol::LeftBracket),
        ensures
            r matches Err(e) ==> names_line(e@),
            final(self).wf(),
            final(self).advanced_from(old(self)),
            r is Ok ==> final(self).remaining() < old(self).remaining(),
            index_parsed(p_index(old(self).token_views(), old(self).position()), r, final(self).position()),
            old(self).shaped() ==> (r matches Ok(p) ==> expr_ready(p.0)),
        decreases old(self).remaining(), 10nat,
    {
        let line = self.peek().line;
        self.advance();
        let index = self.expression()?;
        self.consume(Symbol::RightBracket, "Se esperaba ']' después del índice.")?;
        Ok((index, line))
    }

    fn postfix(&mut self) -> (r: Result<Expr, String>)
        requires
            old(self).wf(),
        ensures
            r matches Err(e) ==> names_line(e@),
            final(self).wf(),
            final(self).advanced_from(old(self)),
            r is Ok ==> final(self).remaining() < old(self).remaining(),
            expr_parsed(p_postfix(old(self).token_views(), old(self).position()), r, final(self).position()),
            old(self).shaped() ==> (r matches Ok(e) ==> expr_ready(e)),
        decreases old(self).remaining(), 12nat,
    {
        let expression = self.primary()?;
        self.finish_postfix(expression)
    }

    /// Indexing and method calls after an operand, left to right.
    fn finish_postfix(&mut self, operand: Expr) -> (r: Result<Expr, String>)
        requires
            old(self).wf(),
            old(self).shaped() ==> expr_ready(operand),
        ensures
            r matches Err(e) ==> names_line(e@),
            final(self).wf(),
            final(self).advanced_from(old(self)),
            expr_parsed(p_finish(old(self).token_views(), old(self).position(), expr_view(operand)), r, final(self).position()),
            old(self).shaped() ==> (r matches Ok(e) ==> expr_ready(e)),
        decreases old(self).remaining(), 11nat,
    {
        let ghost whole = p_finish(self.token_views(), self.position(), expr_view(operand));
        let mut expression = operand;
        loop
            invariant_except_break
                self.wf(),
                self.advanced_from(old(self)),
                whole == p_finish(old(self).token_views(), old(self).position(), expr_view(operand)),
                whole == p_finish(self.token_views(), self.position(), expr_view(expression)),
                self.shaped() ==> expr_ready(expression),
            ensures
                self.wf(),
                self.advanced_from(old(self)),
                whole == p_finish(old(self).token_views(), old(self).position(), expr_view(operand)),
                whole == Parsed::Done(expr_view(expression), self.position()),
                self.shaped() ==> expr_ready(expression),
            decreases self.remaining(),
        {
            if self.check(Symbol::LeftBracket) {
                let (index, line) = self.index()?;
                expression = Expr::Index { array: Box::new(expression), index: Box::new(index), line };
            } else if self.check(Symbol::Dot) {
                self.advance();
                let name = self.name()?;
                self.consume(Symbol::LeftParen, "Se esperaba '(' después del nombre del método.")?;
                let arguments = self.list(Symbol::RightParen, "Se esperaba ')' después de los argumentos.")?;
                let mut path: Vec<Name> = Vec::new();
                path.push(name);
                proof {
                    assert(names_view(path@) =~= seq![name_view(name)]);
                }
                expression = Expr::LibraryCall { path, receiver: Some(Box::new(expression)), arguments };
            } else {
                break;
            }
        }
        Ok(expression)
    }

    /// `(expression ("," expression)*)? close`: a list of expressions up to the symbol `close`,
    /// after the symbol that opens it; `message` is the error when `close` is missing.
    fn list(&mut self, close: Symbol, message: &str) -> (r: Result<Vec<Expr>, String>)
        requires
            old(self).wf(),
            close != Symbol::Eof,
        ensures
            r matches Err(e) ==> names_line(e@),
            final(self).wf(),
            final(self).advanced_from(old(self)),
            r is Ok ==> final(self).remaining() < old(self).remaining(),
            exprs_parsed(p_list(old(self).token_views(), old(self).position(), close, message@), r, final(self).position()),
            old(self).shaped() ==> (r matches Ok(es) ==> exprs_ready(es@)),
        decreases old(self).remaining(), 16nat,
    {
        let ghost whole = p_list(self.token_views(), self.position(), close, message@);
        let mut elements: Vec<Expr> = Vec::new();
        proof {
            assert(exprs_view(elements@) =~= Seq::<ExprView>::empty());
        }
        if self.check(close) {
            self.advance();
            return Ok(elements);
        }
        loop
            invariant_except_break
                self.wf(),
                self.advanced_from(old(self)),
                close != Symbol::Eof,
                whole == p_list(old(self).token_views(), old(self).position(), close, message@),
                whole == list_rest(self.token_views(), self.position(), close, message@, exprs_view(elements@)),
                self.shaped() ==> exprs_ready(elements@),
            ensures
                self.wf(),
                self.advanced_from(old(self)),
                self.remaining() < old(self).remaining(),
                close != Symbol::Eof,
                whole == p_list(old(self).token_views(), old(self).position(), close, message@),
                self.shaped() ==> exprs_ready(elements@),
                whole == (if at(self.token_views(), self.position(), close) {
                    Parsed::Done(exprs_view(elements@), self.position() + 1)
                } else {
                    fail_at(self.token_views(), self.position(), message@)
                }),
            decreases self.remaining(),
        {
            let element = self.expression()?;
            proof {
                lemma_exprs_view_push(elements@, element);
                if self.shaped() {
                    lemma_exprs_ready_push(elements@, element);
                }
            }
            elements.push(element);
            if !self.check(Symbol::Comma) {
                break;
            }
            self.advance();
        }
        self.consume(close, message)?;
        Ok(elements)
    }

    /// A number literal, with its sign when `negative`: an `int` without point or exponent,
    /// otherwise a finite `float`.
    fn number(&mut self, negative: bool, line: usize) -> (r: Result<Expr, String>)
        requires
            old(self).wf(),
        ensures
            r matches Err(e) ==> names_line(e@),
            final(self).wf(),
            final(self).advanced_from(old(self)),
            r is Ok ==> final(self).remaining() < old(self).remaining(),
            expr_parsed(p_number(old(self).token_views(), old(self).position(), negative, line as int), r, final(self).position()),
            old(self).shaped() ==> (r matches Ok(e) ==> expr_ready(e)),
    {
        let digits = match &self.peek().kind {
            TokenKind::Number(digits) => copy_chars(digits),
            _ => {
                return Err(self.error("Se esperaba un literal numérico."));
            },
        };
        let value = if has_float_mark_exec(&digits) {
            let reading = self.readings[self.current];
            let read = if negative { reading.minus } else { reading.plus };
            match read {
                None => {
                    return Err(line_error(line, "literal float inválido."));
                },
                Some(bits) => {
                    if !is_finite(bits) {
                        return Err(line_error(line, "literal fuera del rango de float finito."));
                    }
                    Value::Float(bits)
                },
            }
        } else {
            let text = literal_text(&digits, negative);
            proof {
                if self.shaped() {
                    assert(kind_ok(self.tokens@[self.current as int].kind));
                    lemma_integer_text(digits@);
                }
            }
            match int_of_text(&text) {
                Some(v) => Value::Int(v),
                None => {
                    return Err(line_error(line, "literal fuera del rango de int (64 bits con signo)."));
                },
            }
        };
        self.advance();
        Ok(Expr::Literal(value))
    }

    fn primary(&mut self) -> (r: Result<Expr, String>)
        requires
            old(self).wf(),
        ensures
            r matches Err(e) ==> names_line(e@),
            final(self).wf(),
            final(self).advanced_from(old(self)),
            r is Ok ==> final(self).remaining() < old(self).remaining(),
            expr_parsed(p_primary(old(self).token_views(), old(self).position()), r, final(self).position()),
            old(self).shaped() ==> (r matches Ok(e) ==> expr_ready(e)),
        decreases old(self).remaining(), 10nat,
    {
        let line = self.peek().line;
        if self.check(Symbol::LeftBracket) {
            self.advance();
            let elements = self.list(Symbol::RightBracket, "Se esperaba ']' después de los elementos del array.")?;
            return Ok(Expr::Array { elements, line });
        }
        if self.is_number() {
            return self.number(false, line);
        }
        if self.check(Symbol::LeftParen) {
            self.advance();
            let expression = self.expression()?;
            self.consume(Symbol::RightParen, "Se esperaba ')' después de la expresión agrupada.")?;
            return Ok(expression);
        }
        let literal = match &self.peek().kind {
            TokenKind::Literal(value) => Some(copy_value(value)),
            _ => None,
        };
        if let Some(value) = literal {
            self.advance();
            return Ok(Expr::Literal(value));
        }
        if self.is_identifier() {
            if self.check_next(Symbol::ColonColon) || self.check_next(Symbol::LeftParen) {
                let path = self.path()?;
                self.consume(Symbol::LeftParen, "Se esperaba '(' después de la ruta de la llamada.")?;
                let arguments = self.list(Symbol::RightParen, "Se esperaba ')' después de los argumentos.")?;
                return Ok(Expr::LibraryCall { path, receiver: None, arguments });
            }
            let name = self.name()?;
            return Ok(Expr::Variable(name));
        }
        Err(self.error("Se esperaba un literal (int, float, bool, char, string o array), una variable o una expresión entre paréntesis."))
    }
}

/// Whether the number text has a point or an exponent.
pub fn has_float_mark_exec(s: &Vec<char>) -> (r: bool)
    ensures
        r == has_float_mark(s@),
{
    let mut k: usize = 0;
    while k < s.len()
        invariant
            k <= s@.len(),
            forall|j: int| 0 <= j < k ==> !(s@[j] == '.' || s@[j] == 'e' || s@[j] == 'E'),
        decreases s@.len() - k,
    {
        if s[k] == '.' || s[k] == 'e' || s[k] == 'E' {
            return true;
        }
        k = k + 1;
    }
    false
}

}
