use vstd::prelude::*;

use crate::floats::float_is_finite;
use crate::lexing::TokenView;
use crate::parser::{AssignOp, BinaryOp, Expr, IncrementOp, Name, Stmt, UnaryOp};
use crate::scanner::{has_float_mark, Symbol};
use crate::stdlib::casting::int_from_text;
use crate::text::line_prefix;
use crate::value::{Content, Type};

verus! {

/// A name with its line.
pub type NameView = (Seq<char>, int);

/// An expression with its parts as mathematical values.
pub enum ExprView {
    Call { path: Seq<NameView>, receiver: Option<Box<ExprView>>, arguments: Seq<ExprView> },
    Literal(Content),
    Variable(NameView),
    Array { elements: Seq<ExprView>, line: int },
    Index { array: Box<ExprView>, index: Box<ExprView>, line: int },
    Unary { operator: UnaryOp, operand: Box<ExprView>, line: int },
    Binary { left: Box<ExprView>, operator: BinaryOp, right: Box<ExprView>, line: int },
}

/// A statement with its parts as mathematical values.
pub enum StmtView {
    Call(ExprView),
    Import { path: Seq<NameView>, is_use: bool, line: int },
    Declare { declared_type: Type, is_constant: bool, name: NameView, initializer: ExprView },
    Assign { name: NameView, indices: Seq<(ExprView, int)>, value: ExprView },
    CompoundAssign { name: NameView, indices: Seq<(ExprView, int)>, operator: AssignOp, value: ExprView, line: int },
    Increment { name: NameView, indices: Seq<(ExprView, int)>, operator: IncrementOp, line: int },
    If { condition: ExprView, then_branch: Seq<StmtView>, else_branch: Option<Seq<StmtView>>, line: int },
    While { condition: ExprView, body: Seq<StmtView>, line: int },
    For { initializer: Box<StmtView>, condition: ExprView, update: Box<StmtView>, body: Seq<StmtView>, line: int },
    Foreach { declared_type: Type, name: NameView, iterable: ExprView, body: Seq<StmtView>, line: int },
    Print(ExprView),
    Println(ExprView),
}

/// A name as a mathematical value: its text and line.
pub open spec fn name_view(n: Name) -> NameView {
    (n.text@, n.line as int)
}

/// The names of a path, one by one.
pub open spec fn names_view(ns: Seq<Name>) -> Seq<NameView> {
    ns.map_values(|n: Name| name_view(n))
}

/// An expression as a mathematical value.
pub open spec fn expr_view(e: Expr) -> ExprView
    decreases e, 1nat,
{
    match e {
        Expr::LibraryCall { path, receiver, arguments } => {
            proof {
                assert(decreases_to!(e => e->arguments));
                assert(decreases_to!(e->arguments => e->arguments@));
            }
            ExprView::Call {
                path: names_view(path@),
                receiver: match receiver {
                    Some(r) => Some(Box::new(expr_view(*r))),
                    None => None,
                },
                arguments: exprs_view(arguments@),
            }
        },
        Expr::Literal(v) => ExprView::Literal(v@),
        Expr::Variable(n) => ExprView::Variable(name_view(n)),
        Expr::Array { elements, line } => {
            proof {
                assert(decreases_to!(e => e->Array_elements));
                assert(decreases_to!(e->Array_elements => e->Array_elements@));
            }
            ExprView::Array { elements: exprs_view(elements@), line: line as int }
        },
        Expr::Index { array, index, line } => ExprView::Index {
            array: Box::new(expr_view(*array)),
            index: Box::new(expr_view(*index)),
            line: line as int,
        },
        Expr::Unary { operator, operand, line } => ExprView::Unary {
            operator,
            operand: Box::new(expr_view(*operand)),
            line: line as int,
        },
        Expr::Binary { left, operator, right, line } => ExprView::Binary {
            left: Box::new(expr_view(*left)),
            operator,
            right: Box::new(expr_view(*right)),
            line: line as int,
        },
    }
}

/// Expressions as mathematical values, one by one.
pub open spec fn exprs_view(es: Seq<Expr>) -> Seq<ExprView>
    decreases es, 0nat,
{
    if es.len() == 0 {
        Seq::empty()
    } else {
        proof {
            assert(decreases_to!(es => es.drop_last()));
        }
        exprs_view(es.drop_last()).push(expr_view(es.last()))
    }
}

/// The indices of an assignment target, each with the line of its `[`.
pub open spec fn indices_view(is: Seq<(Expr, usize)>) -> Seq<(ExprView, int)> {
    is.map_values(|p: (Expr, usize)| (expr_view(p.0), p.1 as int))
}

/// A statement as a mathematical value.
pub open spec fn stmt_view(s: Stmt) -> StmtView
    decreases s, 1nat,
{
    match s {
        Stmt::Call(e) => StmtView::Call(expr_view(e)),
        Stmt::Import { path, is_use, line } => StmtView::Import { path: names_view(path@), is_use, line: line as int },
        Stmt::Declare { declared_type, is_constant, name, initializer } => StmtView::Declare {
            declared_type,
            is_constant,
            name: name_view(name),
            initializer: expr_view(initializer),
        },
        Stmt::Assign { name, indices, value } => StmtView::Assign {
            name: name_view(name),
            indices: indices_view(indices@),
            value: expr_view(value),
        },
        Stmt::CompoundAssign { name, indices, operator, value, line } => StmtView::CompoundAssign {
            name: name_view(name),
            indices: indices_view(indices@),
            operator,
            value: expr_view(value),
            line: line as int,
        },
        Stmt::Increment { name, indices, operator, line } => StmtView::Increment {
            name: name_view(name),
            indices: indices_view(indices@),
            operator,
            line: line as int,
        },
        Stmt::If { condition, then_branch, else_branch, line } => {
            proof {
                assert(decreases_to!(s => s->If_then_branch));
                assert(decreases_to!(s->If_then_branch => s->If_then_branch@));
            }
            StmtView::If {
                condition: expr_view(condition),
                then_branch: stmts_view(then_branch@),
                else_branch: match else_branch {
                    Some(b) => {
                        proof {
                            assert(decreases_to!(s => s->If_else_branch));
                            assert(decreases_to!(s->If_else_branch => b));
                            assert(decreases_to!(b => b@));
                        }
                        Some(stmts_view(b@))
                    },
                    None => None,
                },
                line: line as int,
            }
        },
        Stmt::While { condition, body, line } => {
            proof {
                assert(decreases_to!(s => s->While_body));
                assert(decreases_to!(s->While_body => s->While_body@));
            }
            StmtView::While { condition: expr_view(condition), body: stmts_view(body@), line: line as int }
        },
        Stmt::For { initializer, condition, update, body, line } => {
            proof {
                assert(decreases_to!(s => s->For_body));
                assert(decreases_to!(s->For_body => s->For_body@));
            }
            StmtView::For {
                initializer: Box::new(stmt_view(*initializer)),
                condition: expr_view(condition),
                update: Box::new(stmt_view(*update)),
                body: stmts_view(body@),
                line: line as int,
            }
        },
        Stmt::Foreach { declared_type, name, iterable, body, line } => {
            proof {
                assert(decreases_to!(s => s->Foreach_body));
                assert(decreases_to!(s->Foreach_body => s->Foreach_body@));
            }
            StmtView::Foreach {
                declared_type,
                name: name_view(name),
                iterable: expr_view(iterable),
                body: stmts_view(body@),
                line: line as int,
            }
        },
        Stmt::Print(e) => StmtView::Print(expr_view(e)),
        Stmt::Println(e) => StmtView::Println(expr_view(e)),
    }
}

/// Statements as mathematical values, one by one.
pub open spec fn stmts_view(ss: Seq<Stmt>) -> Seq<StmtView>
    decreases ss, 0nat,
{
    if ss.len() == 0 {
        Seq::empty()
    } else {
        proof {
            assert(decreases_to!(ss => ss.drop_last()));
        }
        stmts_view(ss.drop_last()).push(stmt_view(ss.last()))
    }
}

/// Appending an expression appends its view.
pub proof fn lemma_exprs_view_push(es: Seq<Expr>, e: Expr)
    ensures
        exprs_view(es.push(e)) == exprs_view(es).push(expr_view(e)),
{
    assert(es.push(e).drop_last() =~= es);
}

/// Appending a statement appends its view.
pub proof fn lemma_stmts_view_push(ss: Seq<Stmt>, s: Stmt)
    ensures
        stmts_view(ss.push(s)) == stmts_view(ss).push(stmt_view(s)),
{
    assert(ss.push(s).drop_last() =~= ss);
}

/// What reading a part of the grammar at a position gives: its value and the position after
/// it, or a syntax error with its message.
pub enum Parsed<T> {
    Done(T, int),
    Failed(Seq<char>),
}

/// What the host made of a number token with a point or an exponent: the binary64 that its
/// text reads as (`plus`), and the one that its text with a leading `-` reads as (`minus`);
/// `None` where the host refused the text. A literal is negative when a unary `-` stands
/// directly before it, and it is then read together with its sign.
#[derive(Clone, Copy)]
pub struct Reading {
    pub plus: Option<u64>,
    pub minus: Option<u64>,
}

/// The grammar reads tokens, each with its line and the host's reading of its number text:
/// `t` holds the tokens `tokens` in order, with their lines, and some reading beside each.
pub open spec fn read_as(t: Seq<(TokenView, int, Reading)>, tokens: Seq<(TokenView, int)>) -> bool {
    &&& t.len() == tokens.len()
    &&& forall|i: int| 0 <= i < t.len() ==> (#[trigger] t[i]).0 == tokens[i].0 && t[i].1 == tokens[i].1
}

/// The message of a syntax error found at position `k`: the line of the token there, then
/// what was expected.
pub open spec fn error_at(t: Seq<(TokenView, int, Reading)>, k: int, message: Seq<char>) -> Seq<char> {
    line_prefix(t[k].1 as nat) + message
}

/// A syntax error found at position `k` (see `error_at`).
pub open spec fn fail_at<T>(t: Seq<(TokenView, int, Reading)>, k: int, message: Seq<char>) -> Parsed<T> {
    Parsed::Failed(error_at(t, k, message))
}

/// What a parse gave agrees with what the parser returned and where it stopped: the same
/// value, or the same error message.
pub open spec fn expr_parsed(p: Parsed<ExprView>, r: Result<Expr, String>, end: int) -> bool {
    match p {
        Parsed::Done(v, j) => r is Ok && expr_view(r->Ok_0) == v && end == j,
        Parsed::Failed(m) => r matches Err(e) && e@ == m,
    }
}

/// What a parse of expressions gave agrees with the parser's result.
pub open spec fn exprs_parsed(p: Parsed<Seq<ExprView>>, r: Result<Vec<Expr>, String>, end: int) -> bool {
    match p {
        Parsed::Done(v, j) => r is Ok && exprs_view(r->Ok_0@) == v && end == j,
        Parsed::Failed(m) => r matches Err(e) && e@ == m,
    }
}

/// What a parse of an index gave agrees with the parser's result.
pub open spec fn index_parsed(p: Parsed<(ExprView, int)>, r: Result<(Expr, usize), String>, end: int) -> bool {
    match p {
        Parsed::Done(v, j) => r is Ok && expr_view(r->Ok_0.0) == v.0 && r->Ok_0.1 as int == v.1 && end == j,
        Parsed::Failed(m) => r matches Err(e) && e@ == m,
    }
}

/// What a parse of a statement gave agrees with the parser's result.
pub open spec fn stmt_parsed(p: Parsed<StmtView>, r: Result<Stmt, String>, end: int) -> bool {
    match p {
        Parsed::Done(v, j) => r is Ok && stmt_view(r->Ok_0) == v && end == j,
        Parsed::Failed(m) => r matches Err(e) && e@ == m,
    }
}

/// What a parse of statements gave agrees with the parser's result.
pub open spec fn stmts_parsed(p: Parsed<Seq<StmtView>>, r: Result<Vec<Stmt>, String>, end: int) -> bool {
    match p {
        Parsed::Done(v, j) => r is Ok && stmts_view(r->Ok_0@) == v && end == j,
        Parsed::Failed(m) => r matches Err(e) && e@ == m,
    }
}

/// What a parse of a name gave agrees with the parser's result.
pub open spec fn name_parsed(p: Parsed<NameView>, r: Result<Name, String>, end: int) -> bool {
    match p {
        Parsed::Done(v, j) => r is Ok && name_view(r->Ok_0) == v && end == j,
        Parsed::Failed(m) => r matches Err(e) && e@ == m,
    }
}

/// What a parse of a path gave agrees with the parser's result.
pub open spec fn path_parsed(p: Parsed<Seq<NameView>>, r: Result<Vec<Name>, String>, end: int) -> bool {
    match p {
        Parsed::Done(v, j) => r is Ok && names_view(r->Ok_0@) == v && end == j,
        Parsed::Failed(m) => r matches Err(e) && e@ == m,
    }
}

/// What a parse of a type gave agrees with the parser's result.
pub open spec fn type_parsed(p: Parsed<Type>, r: Result<Type, String>, end: int) -> bool {
    match p {
        Parsed::Done(v, j) => r == Ok::<Type, String>(v) && end == j,
        Parsed::Failed(m) => r matches Err(e) && e@ == m,
    }
}

/// Whether position `i` holds the symbol `s`.
pub open spec fn at(t: Seq<(TokenView, int, Reading)>, i: int, s: Symbol) -> bool {
    0 <= i < t.len() && t[i].0 == TokenView::Symbol(s)
}

/// Every part of a rule reads at least one token and stops on a token: the position `j` it
/// reached lies after the position `i` it started from. The rules test this on what a part
/// returns, where they go on reading after it; the test never fails (the parser shows it, so
/// what the rules give when it fails is never seen), and it makes evident that reading ends.
pub open spec fn forward(t: Seq<(TokenView, int, Reading)>, i: int, j: int) -> bool {
    i < j < t.len()
}

/// A name that is not a reserved word.
pub open spec fn p_name(t: Seq<(TokenView, int, Reading)>, i: int) -> Parsed<NameView> {
    if 0 <= i < t.len() && t[i].0 is Identifier {
        Parsed::Done((t[i].0->Identifier_0, t[i].1), i + 1)
    } else {
        fail_at(t, i, "Se esperaba un nombre de variable que no sea una palabra reservada."@)
    }
}

/// `IDENTIFIER ("::" IDENTIFIER)*`
pub open spec fn p_path(t: Seq<(TokenView, int, Reading)>, i: int) -> Parsed<Seq<NameView>> {
    match p_name(t, i) {
        Parsed::Done(n, j) => path_rest(t, j, seq![n]),
        Parsed::Failed(m) => Parsed::Failed(m),
    }
}

/// The `:: IDENTIFIER` parts of a path after the names read so far.
pub open spec fn path_rest(t: Seq<(TokenView, int, Reading)>, j: int, path: Seq<NameView>) -> Parsed<Seq<NameView>>
    decreases t.len() - j,
{
    if at(t, j, Symbol::ColonColon) {
        match p_name(t, j + 1) {
            Parsed::Done(n, k) => path_rest(t, k, path.push(n)),
            Parsed::Failed(m) => Parsed::Failed(m),
        }
    } else {
        Parsed::Done(path, j)
    }
}

/// `basicType ("[" "]")*`; `message` is the error where no type stands at `i`.
pub open spec fn p_array_type(t: Seq<(TokenView, int, Reading)>, i: int, message: Seq<char>) -> Parsed<Type> {
    if 0 <= i < t.len() && t[i].0 is Type {
        type_rest(t, i + 1, t[i].0->Type_0)
    } else {
        fail_at(t, i, message)
    }
}

/// The `[]` pairs of an array type after the element type read so far.
pub open spec fn type_rest(t: Seq<(TokenView, int, Reading)>, j: int, element: Type) -> Parsed<Type>
    decreases t.len() - j,
{
    if at(t, j, Symbol::LeftBracket) {
        if at(t, j + 1, Symbol::RightBracket) {
            type_rest(t, j + 2, Type::Array(Box::new(element)))
        } else {
            fail_at(t, j + 1, "Se esperaba ']' en el tipo del array; no se declara su longitud."@)
        }
    } else {
        Parsed::Done(element, j)
    }
}

/// `("import" | "use") path`, from the keyword at `i`.
pub open spec fn p_import(t: Seq<(TokenView, int, Reading)>, i: int) -> Parsed<StmtView> {
    match p_path(t, i + 1) {
        Parsed::Done(path, j) => Parsed::Done(StmtView::Import { path, is_use: at(t, i, Symbol::Use), line: t[i].1 }, j),
        Parsed::Failed(m) => Parsed::Failed(m),
    }
}

/// A number literal, with its sign when `negative`: without point or exponent, the `int` its
/// text (after a `-` when negative) reads as (see `int_from_text`); a
/// literal with one is the float that the host read its text as, which must be finite. An
/// error names `line`, the line of the literal's sign or, without one, of the literal.
pub open spec fn p_number(t: Seq<(TokenView, int, Reading)>, i: int, negative: bool, line: int) -> Parsed<ExprView> {
    if 0 <= i < t.len() && t[i].0 is Number {
        let digits = t[i].0->Number_0;
        if has_float_mark(digits) {
            match (if negative { t[i].2.minus } else { t[i].2.plus }) {
                Some(bits) => if float_is_finite(bits) {
                    Parsed::Done(ExprView::Literal(Content::Float(bits)), i + 1)
                } else {
                    Parsed::Failed(line_prefix(line as nat) + "literal fuera del rango de float finito."@)
                },
                None => Parsed::Failed(line_prefix(line as nat) + "literal float inválido."@),
            }
        } else {
            match int_from_text(if negative { seq!['-'] + digits } else { digits }) {
                Some(v) => Parsed::Done(ExprView::Literal(Content::Int(v)), i + 1),
                None => Parsed::Failed(line_prefix(line as nat) + "literal fuera del rango de int (64 bits con signo)."@),
            }
        }
    } else {
        fail_at(t, i, "Se esperaba un literal numérico."@)
    }
}
/// The binary operator of a precedence level written with the symbol `s`. Levels: 0 `||`,
/// 1 `&&`, 2 `==` `!=`, 3 `<` `<=` `>` `>=`, 4 `+` `-`, 5 `*` `/` `%`.
pub open spec fn level_operator(level: nat, s: Symbol) -> Option<BinaryOp> {
    if level == 0 {
        if s == Symbol::OrOr { Some(BinaryOp::Or) } else { None }
    } else if level == 1 {
        if s == Symbol::AndAnd { Some(BinaryOp::And) } else { None }
    } else if level == 2 {
        if s == Symbol::EqualEqual {
            Some(BinaryOp::Equal)
        } else if s == Symbol::BangEqual {
            Some(BinaryOp::NotEqual)
        } else {
            None
        }
    } else if level == 3 {
        if s == Symbol::Less {
            Some(BinaryOp::Less)
        } else if s == Symbol::LessEqual {
            Some(BinaryOp::LessEqual)
        } else if s == Symbol::Greater {
            Some(BinaryOp::Greater)
        } else if s == Symbol::GreaterEqual {
            Some(BinaryOp::GreaterEqual)
        } else {
            None
        }
    } else if level == 4 {
        if s == Symbol::Plus {
            Some(BinaryOp::Add)
        } else if s == Symbol::Minus {
            Some(BinaryOp::Subtract)
        } else {
            None
        }
    } else if s == Symbol::Star {
        Some(BinaryOp::Multiply)
    } else if s == Symbol::Slash {
        Some(BinaryOp::Divide)
    } else if s == Symbol::Percent {
        Some(BinaryOp::Remainder)
    } else {
        None
    }
}

/// The operator of a level at position `j`, if there is one.
pub open spec fn level_op(t: Seq<(TokenView, int, Reading)>, j: int, level: nat) -> Option<BinaryOp> {
    if 0 <= j < t.len() {
        match t[j].0 {
            TokenView::Symbol(s) => level_operator(level, s),
            _ => None,
        }
    } else {
        None
    }
}

/// How many levels lie above `level`.
pub open spec fn levels_above(level: nat) -> nat {
    if level < 5 {
        (5 - level) as nat
    } else {
        0
    }
}

/// `or`: the lowest precedence level.
pub open spec fn p_expression(t: Seq<(TokenView, int, Reading)>, i: int) -> Parsed<ExprView>
    decreases t.len() - i, 15nat, 0nat,
{
    p_binary(t, i, 0)
}

/// One precedence level: operands of the next level joined left to right by its operators.
pub open spec fn p_binary(t: Seq<(TokenView, int, Reading)>, i: int, level: nat) -> Parsed<ExprView>
    decreases t.len() - i, 14nat, 2 * levels_above(level) + 1,
{
    match p_operand(t, i, level) {
        Parsed::Done(e, j) => if forward(t, i, j) {
            binary_rest(t, j, level, e)
        } else {
            Parsed::Failed(Seq::empty())
        },
        Parsed::Failed(m) => Parsed::Failed(m),
    }
}

/// The operators of a level and their right operands, after the operands read so far.
pub open spec fn binary_rest(t: Seq<(TokenView, int, Reading)>, j: int, level: nat, left: ExprView) -> Parsed<ExprView>
    decreases t.len() - j, 14nat, 2 * levels_above(level) + 1,
{
    match level_op(t, j, level) {
        Some(operator) => match p_operand(t, j + 1, level) {
            Parsed::Done(right, k) => if forward(t, j, k) {
                binary_rest(
                    t,
                    k,
                    level,
                    ExprView::Binary { left: Box::new(left), operator, right: Box::new(right), line: t[j].1 },
                )
            } else {
                Parsed::Failed(Seq::empty())
            },
            Parsed::Failed(m) => Parsed::Failed(m),
        },
        None => Parsed::Done(left, j),
    }
}

/// An operand of a level: the next level, or a unary expression below `*`.
pub open spec fn p_operand(t: Seq<(TokenView, int, Reading)>, i: int, level: nat) -> Parsed<ExprView>
    decreases t.len() - i, 14nat, 2 * levels_above(level),
{
    if level < 5 {
        p_binary(t, i, level + 1)
    } else {
        p_unary(t, i)
    }
}

/// `("!" | "-" | "+") unary | postfix`; a `-` directly before a number literal is read with it.
pub open spec fn p_unary(t: Seq<(TokenView, int, Reading)>, i: int) -> Parsed<ExprView>
    decreases t.len() - i, 13nat, 0nat,
{
    if at(t, i, Symbol::Plus) || at(t, i, Symbol::Minus) || at(t, i, Symbol::Bang) {
        let operator = if at(t, i, Symbol::Plus) {
            UnaryOp::Plus
        } else if at(t, i, Symbol::Minus) {
            UnaryOp::Minus
        } else {
            UnaryOp::Not
        };
        if operator == UnaryOp::Minus && 0 <= i + 1 < t.len() && t[i + 1].0 is Number {
            match p_number(t, i + 1, true, t[i].1) {
                Parsed::Done(number, j) => if forward(t, i, j) {
                    p_finish(t, j, number)
                } else {
                    Parsed::Failed(Seq::empty())
                },
                Parsed::Failed(m) => Parsed::Failed(m),
            }
        } else {
            match p_unary(t, i + 1) {
                Parsed::Done(operand, j) => Parsed::Done(
                    ExprView::Unary { operator, operand: Box::new(operand), line: t[i].1 },
                    j,
                ),
                Parsed::Failed(m) => Parsed::Failed(m),
            }
        }
    } else {
        p_postfix(t, i)
    }
}

/// A primary expression followed by indexing and method calls.
pub open spec fn p_postfix(t: Seq<(TokenView, int, Reading)>, i: int) -> Parsed<ExprView>
    decreases t.len() - i, 12nat, 0nat,
{
    match p_primary(t, i) {
        Parsed::Done(e, j) => if forward(t, i, j) {
            p_finish(t, j, e)
        } else {
            Parsed::Failed(Seq::empty())
        },
        Parsed::Failed(m) => Parsed::Failed(m),
    }
}

/// Indexing and method calls after the expression `e`, left to right.
pub open spec fn p_finish(t: Seq<(TokenView, int, Reading)>, j: int, e: ExprView) -> Parsed<ExprView>
    decreases t.len() - j, 11nat, 0nat,
{
    if at(t, j, Symbol::LeftBracket) {
        match p_index(t, j) {
            Parsed::Done((index, line), k) => if forward(t, j, k) {
                p_finish(t, k, ExprView::Index { array: Box::new(e), index: Box::new(index), line })
            } else {
                Parsed::Failed(Seq::empty())
            },
            Parsed::Failed(m) => Parsed::Failed(m),
        }
    } else if at(t, j, Symbol::Dot) {
        match p_name(t, j + 1) {
            Parsed::Done(name, k) => if at(t, k, Symbol::LeftParen) {
                match p_list(t, k + 1, Symbol::RightParen, "Se esperaba ')' después de los argumentos."@) {
                    Parsed::Done(arguments, m) => if forward(t, j, m) {
                        p_finish(t, m, ExprView::Call { path: seq![name], receiver: Some(Box::new(e)), arguments })
                    } else {
                        Parsed::Failed(Seq::empty())
                    },
                    Parsed::Failed(m) => Parsed::Failed(m),
                }
            } else {
                fail_at(t, k, "Se esperaba '(' después del nombre del método."@)
            },
            Parsed::Failed(m) => Parsed::Failed(m),
        }
    } else {
        Parsed::Done(e, j)
    }
}

/// `"[" expression "]"`, with the line of the `[`; the rules read one only where a `[` stands.
pub open spec fn p_index(t: Seq<(TokenView, int, Reading)>, i: int) -> Parsed<(ExprView, int)>
    decreases t.len() - i, 10nat, 0nat,
{
    if at(t, i, Symbol::LeftBracket) {
        match p_expression(t, i + 1) {
            Parsed::Done(e, j) => if at(t, j, Symbol::RightBracket) {
                Parsed::Done((e, t[i].1), j + 1)
            } else {
                fail_at(t, j, "Se esperaba ']' después del índice."@)
            },
            Parsed::Failed(m) => Parsed::Failed(m),
        }
    } else {
        Parsed::Failed(Seq::empty())
    }
}

/// `(expression ("," expression)*)? close`: a list of expressions up to the symbol `close`;
/// `message` is the error where something else stands after an expression.
pub open spec fn p_list(t: Seq<(TokenView, int, Reading)>, i: int, close: Symbol, message: Seq<char>) -> Parsed<Seq<ExprView>>
    decreases t.len() - i, 16nat, 1nat,
{
    if at(t, i, close) {
        Parsed::Done(Seq::empty(), i + 1)
    } else {
        list_rest(t, i, close, message, Seq::empty())
    }
}

/// The expressions of a list after those read so far.
pub open spec fn list_rest(
    t: Seq<(TokenView, int, Reading)>,
    j: int,
    close: Symbol,
    message: Seq<char>,
    read: Seq<ExprView>,
) -> Parsed<Seq<ExprView>>
    decreases t.len() - j, 16nat, 0nat,
{
    match p_expression(t, j) {
        Parsed::Done(e, k) => if at(t, k, Symbol::Comma) {
            if forward(t, j, k) {
                list_rest(t, k + 1, close, message, read.push(e))
            } else {
                Parsed::Failed(Seq::empty())
            }
        } else if at(t, k, close) {
            Parsed::Done(read.push(e), k + 1)
        } else {
            fail_at(t, k, message)
        },
        Parsed::Failed(m) => Parsed::Failed(m),
    }
}

/// An array literal, a number, a parenthesized expression, a literal, a library call by path
/// or a variable.
pub open spec fn p_primary(t: Seq<(TokenView, int, Reading)>, i: int) -> Parsed<ExprView>
    decreases t.len() - i, 10nat, 0nat,
{
    if at(t, i, Symbol::LeftBracket) {
        match p_list(t, i + 1, Symbol::RightBracket, "Se esperaba ']' después de los elementos del array."@) {
            Parsed::Done(elements, j) => Parsed::Done(ExprView::Array { elements, line: t[i].1 }, j),
            Parsed::Failed(m) => Parsed::Failed(m),
        }
    } else if 0 <= i < t.len() && t[i].0 is Number {
        p_number(t, i, false, t[i].1)
    } else if at(t, i, Symbol::LeftParen) {
        match p_expression(t, i + 1) {
            Parsed::Done(e, j) => if at(t, j, Symbol::RightParen) {
                Parsed::Done(e, j + 1)
            } else {
                fail_at(t, j, "Se esperaba ')' después de la expresión agrupada."@)
            },
            Parsed::Failed(m) => Parsed::Failed(m),
        }
    } else if 0 <= i < t.len() && t[i].0 is Literal {
        Parsed::Done(ExprView::Literal(t[i].0->Literal_0), i + 1)
    } else if 0 <= i < t.len() && t[i].0 is Identifier {
        if at(t, i + 1, Symbol::ColonColon) || at(t, i + 1, Symbol::LeftParen) {
            match p_path(t, i) {
                Parsed::Done(path, j) => if !at(t, j, Symbol::LeftParen) {
                    fail_at(t, j, "Se esperaba '(' después de la ruta de la llamada."@)
                } else if !forward(t, i, j) {
                    Parsed::Failed(Seq::empty())
                } else {
                    match p_list(t, j + 1, Symbol::RightParen, "Se esperaba ')' después de los argumentos."@) {
                        Parsed::Done(arguments, k) => Parsed::Done(ExprView::Call { path, receiver: None, arguments }, k),
                        Parsed::Failed(m) => Parsed::Failed(m),
                    }
                },
                Parsed::Failed(m) => Parsed::Failed(m),
            }
        } else {
            Parsed::Done(ExprView::Variable((t[i].0->Identifier_0, t[i].1)), i + 1)
        }
    } else {
        fail_at(
            t,
            i,
            "Se esperaba un literal (int, float, bool, char, string o array), una variable o una expresión entre paréntesis."@,
        )
    }
}

/// A statement: `if` and the loops end with their block; the others end with `;`.
pub open spec fn p_statement(t: Seq<(TokenView, int, Reading)>, i: int) -> Parsed<StmtView>
    decreases t.len() - i, 30nat, 0nat,
{
    if at(t, i, Symbol::If) {
        p_if(t, i)
    } else if at(t, i, Symbol::While) {
        p_while(t, i)
    } else if at(t, i, Symbol::For) {
        p_for(t, i)
    } else if at(t, i, Symbol::Foreach) {
        p_foreach(t, i)
    } else {
        match p_simple(t, i) {
            Parsed::Done(s, j) => if at(t, j, Symbol::Semicolon) {
                Parsed::Done(s, j + 1)
            } else {
                fail_at(t, j, "Se esperaba ';' al final de la instrucción."@)
            },
            Parsed::Failed(m) => Parsed::Failed(m),
        }
    }
}

/// A declaration, an import, a print, a library call or an assignment. A statement that starts
/// like an expression is a call when it reads as one; otherwise it is an assignment.
pub open spec fn p_simple(t: Seq<(TokenView, int, Reading)>, i: int) -> Parsed<StmtView>
    decreases t.len() - i, 25nat, 0nat,
{
    if at(t, i, Symbol::Const) || (0 <= i < t.len() && t[i].0 is Type) {
        p_declaration(t, i)
    } else if at(t, i, Symbol::Import) || at(t, i, Symbol::Use) {
        p_import(t, i)
    } else if at(t, i, Symbol::Print) || at(t, i, Symbol::Println) {
        p_print(t, i + 1, at(t, i, Symbol::Println))
    } else if (0 <= i < t.len() && t[i].0 is Identifier) || at(t, i, Symbol::LeftParen) || at(t, i, Symbol::LeftBracket) {
        match p_postfix(t, i) {
            Parsed::Done(e, j) => if e is Call && i < j {
                Parsed::Done(StmtView::Call(e), j)
            } else {
                p_assignment(t, i)
            },
            Parsed::Failed(m) => Parsed::Failed(m),
        }
    } else {
        fail_at(
            t,
            i,
            "Se esperaba una instrucción: una declaración con tipo, una asignación, una llamada, 'import', 'use', 'if', 'while', 'for', 'foreach', 'print' o 'println'."@,
        )
    }
}

/// `"const"? type IDENTIFIER "=" expression`
pub open spec fn p_declaration(t: Seq<(TokenView, int, Reading)>, i: int) -> Parsed<StmtView>
    decreases t.len() - i, 20nat, 0nat,
{
    let is_constant = at(t, i, Symbol::Const);
    let start = if is_constant { i + 1 } else { i };
    match p_array_type(t, start, "Se esperaba un tipo (int, float, bool, char o string) después de 'const'."@) {
        Parsed::Done(declared_type, j) => match p_name(t, j) {
            Parsed::Done(name, k) => if !at(t, k, Symbol::Equal) {
                fail_at(t, k, "Se esperaba '=' y un valor inicial después del nombre."@)
            } else if !forward(t, i, k) {
                Parsed::Failed(Seq::empty())
            } else {
                match p_expression(t, k + 1) {
                    Parsed::Done(initializer, m) => Parsed::Done(
                        StmtView::Declare { declared_type, is_constant, name, initializer },
                        m,
                    ),
                    Parsed::Failed(m) => Parsed::Failed(m),
                }
            },
            Parsed::Failed(m) => Parsed::Failed(m),
        },
        Parsed::Failed(m) => Parsed::Failed(m),
    }
}

/// `IDENTIFIER ("[" expression "]")* ("=" expression | "+=" expression | "-=" expression | "++" | "--")`
pub open spec fn p_assignment(t: Seq<(TokenView, int, Reading)>, i: int) -> Parsed<StmtView>
    decreases t.len() - i, 21nat, 0nat,
{
    match p_name(t, i) {
        Parsed::Done(name, j) => if forward(t, i, j) {
            assign_rest(t, j, name, Seq::empty())
        } else {
            Parsed::Failed(Seq::empty())
        },
        Parsed::Failed(m) => Parsed::Failed(m),
    }
}

/// The rest of an assignment, after its name and the indices read so far.
pub open spec fn assign_rest(t: Seq<(TokenView, int, Reading)>, j: int, name: NameView, indices: Seq<(ExprView, int)>) -> Parsed<StmtView>
    decreases t.len() - j, 20nat, 0nat,
{
    if at(t, j, Symbol::LeftBracket) {
        match p_index(t, j) {
            Parsed::Done(index, k) => if forward(t, j, k) {
                assign_rest(t, k, name, indices.push(index))
            } else {
                Parsed::Failed(Seq::empty())
            },
            Parsed::Failed(m) => Parsed::Failed(m),
        }
    } else if at(t, j, Symbol::Equal) {
        match p_expression(t, j + 1) {
            Parsed::Done(value, k) => Parsed::Done(StmtView::Assign { name, indices, value }, k),
            Parsed::Failed(m) => Parsed::Failed(m),
        }
    } else if at(t, j, Symbol::PlusEqual) || at(t, j, Symbol::MinusEqual) {
        let operator = if at(t, j, Symbol::PlusEqual) { AssignOp::Add } else { AssignOp::Subtract };
        match p_expression(t, j + 1) {
            Parsed::Done(value, k) => Parsed::Done(StmtView::CompoundAssign { name, indices, operator, value, line: t[j].1 }, k),
            Parsed::Failed(m) => Parsed::Failed(m),
        }
    } else if at(t, j, Symbol::PlusPlus) || at(t, j, Symbol::MinusMinus) {
        let operator = if at(t, j, Symbol::PlusPlus) { IncrementOp::Increment } else { IncrementOp::Decrement };
        Parsed::Done(StmtView::Increment { name, indices, operator, line: t[j].1 }, j + 1)
    } else {
        fail_at(
            t,
            j,
            "Se esperaba '=', '+=', '-=', '++' o '--' para modificar una variable ya declarada. Para declararla hay que indicar su tipo."@,
        )
    }
}

/// `"(" expression ")"` after `print` (or `println`, when `newline`).
pub open spec fn p_print(t: Seq<(TokenView, int, Reading)>, i: int, newline: bool) -> Parsed<StmtView>
    decreases t.len() - i, 20nat, 0nat,
{
    if at(t, i, Symbol::LeftParen) {
        match p_expression(t, i + 1) {
            Parsed::Done(e, j) => if at(t, j, Symbol::RightParen) {
                Parsed::Done(if newline { StmtView::Println(e) } else { StmtView::Print(e) }, j + 1)
            } else {
                fail_at(t, j, "Se esperaba ')' después de la expresión."@)
            },
            Parsed::Failed(m) => Parsed::Failed(m),
        }
    } else {
        fail_at(t, i, "Se esperaba '(' después de 'print' o 'println'."@)
    }
}

/// `"(" expression ")" block ("else" (ifStmt | block))?` after the `if` at `i`.
pub open spec fn p_if(t: Seq<(TokenView, int, Reading)>, i: int) -> Parsed<StmtView>
    decreases t.len() - i, 28nat, 0nat,
{
    if !at(t, i + 1, Symbol::LeftParen) {
        fail_at(t, i + 1, "Se esperaba '(' después de 'if'."@)
    } else {
        match p_expression(t, i + 2) {
            Parsed::Done(condition, j) => if !at(t, j, Symbol::RightParen) {
                fail_at(t, j, "Se esperaba ')' después de la condición."@)
            } else if !forward(t, i, j) {
                Parsed::Failed(Seq::empty())
            } else {
                match p_block(t, j + 1) {
                    Parsed::Done(then_branch, k) => if !forward(t, j, k) {
                        Parsed::Failed(Seq::empty())
                    } else if at(t, k, Symbol::Else) {
                        if at(t, k + 1, Symbol::If) {
                            match p_if(t, k + 1) {
                                Parsed::Done(nested, m) => Parsed::Done(
                                    StmtView::If { condition, then_branch, else_branch: Some(seq![nested]), line: t[i].1 },
                                    m,
                                ),
                                Parsed::Failed(m) => Parsed::Failed(m),
                            }
                        } else {
                            match p_block(t, k + 1) {
                                Parsed::Done(branch, m) => Parsed::Done(
                                    StmtView::If { condition, then_branch, else_branch: Some(branch), line: t[i].1 },
                                    m,
                                ),
                                Parsed::Failed(m) => Parsed::Failed(m),
                            }
                        }
                    } else {
                        Parsed::Done(StmtView::If { condition, then_branch, else_branch: None, line: t[i].1 }, k)
                    },
                    Parsed::Failed(m) => Parsed::Failed(m),
                }
            },
            Parsed::Failed(m) => Parsed::Failed(m),
        }
    }
}

/// `"(" expression ")" block` after the `while` at `i`.
pub open spec fn p_while(t: Seq<(TokenView, int, Reading)>, i: int) -> Parsed<StmtView>
    decreases t.len() - i, 28nat, 0nat,
{
    if !at(t, i + 1, Symbol::LeftParen) {
        fail_at(t, i + 1, "Se esperaba '(' después de 'while'."@)
    } else {
        match p_expression(t, i + 2) {
            Parsed::Done(condition, j) => if !at(t, j, Symbol::RightParen) {
                fail_at(t, j, "Se esperaba ')' después de la condición."@)
            } else if !forward(t, i, j) {
                Parsed::Failed(Seq::empty())
            } else {
                match p_block(t, j + 1) {
                    Parsed::Done(body, k) => Parsed::Done(StmtView::While { condition, body, line: t[i].1 }, k),
                    Parsed::Failed(m) => Parsed::Failed(m),
                }
            },
            Parsed::Failed(m) => Parsed::Failed(m),
        }
    }
}

/// The first part of a `for` at `k`: a declaration, or else an assignment.
pub open spec fn p_for_start(t: Seq<(TokenView, int, Reading)>, k: int) -> Parsed<StmtView>
    decreases t.len() - k, 22nat, 0nat,
{
    if at(t, k, Symbol::Const) || (0 <= k < t.len() && t[k].0 is Type) {
        p_declaration(t, k)
    } else {
        p_assignment(t, k)
    }
}

/// `"(" (declaration | assignment) ";" expression ";" assignment ")" block` after the `for`
/// at `i`.
pub open spec fn p_for(t: Seq<(TokenView, int, Reading)>, i: int) -> Parsed<StmtView>
    decreases t.len() - i, 28nat, 0nat,
{
    if !at(t, i + 1, Symbol::LeftParen) {
        fail_at(t, i + 1, "Se esperaba '(' después de 'for'."@)
    } else {
        match p_for_start(t, i + 2) {
            Parsed::Done(initializer, j) => if !at(t, j, Symbol::Semicolon) {
                fail_at(t, j, "Se esperaba ';' después de la inicialización del 'for'."@)
            } else if !forward(t, i, j) {
                Parsed::Failed(Seq::empty())
            } else {
                match p_expression(t, j + 1) {
                    Parsed::Done(condition, k) => if !at(t, k, Symbol::Semicolon) {
                        fail_at(t, k, "Se esperaba ';' después de la condición del 'for'."@)
                    } else if !forward(t, j, k) {
                        Parsed::Failed(Seq::empty())
                    } else {
                        match p_assignment(t, k + 1) {
                            Parsed::Done(update, m) => if !at(t, m, Symbol::RightParen) {
                                fail_at(t, m, "Se esperaba ')' después de la actualización del 'for'."@)
                            } else if !forward(t, k, m) {
                                Parsed::Failed(Seq::empty())
                            } else {
                                match p_block(t, m + 1) {
                                    Parsed::Done(body, n) => Parsed::Done(
                                        StmtView::For {
                                            initializer: Box::new(initializer),
                                            condition,
                                            update: Box::new(update),
                                            body,
                                            line: t[i].1,
                                        },
                                        n,
                                    ),
                                    Parsed::Failed(e) => Parsed::Failed(e),
                                }
                            },
                            Parsed::Failed(e) => Parsed::Failed(e),
                        }
                    },
                    Parsed::Failed(e) => Parsed::Failed(e),
                }
            },
            Parsed::Failed(e) => Parsed::Failed(e),
        }
    }
}

/// `"(" type IDENTIFIER "in" expression ")" block` after the `foreach` at `i`.
pub open spec fn p_foreach(t: Seq<(TokenView, int, Reading)>, i: int) -> Parsed<StmtView>
    decreases t.len() - i, 28nat, 0nat,
{
    if !at(t, i + 1, Symbol::LeftParen) {
        fail_at(t, i + 1, "Se esperaba '(' después de 'foreach'."@)
    } else {
        match p_array_type(t, i + 2, "Se esperaba el tipo de los elementos en 'foreach'."@) {
            Parsed::Done(declared_type, j) => match p_name(t, j) {
                Parsed::Done(name, k) => if !at(t, k, Symbol::In) {
                    fail_at(t, k, "Se esperaba 'in' después del nombre en 'foreach'."@)
                } else if !forward(t, i, k) {
                    Parsed::Failed(Seq::empty())
                } else {
                    match p_expression(t, k + 1) {
                        Parsed::Done(iterable, m) => if !at(t, m, Symbol::RightParen) {
                            fail_at(t, m, "Se esperaba ')' después del array de 'foreach'."@)
                        } else if !forward(t, k, m) {
                            Parsed::Failed(Seq::empty())
                        } else {
                            match p_block(t, m + 1) {
                                Parsed::Done(body, n) => Parsed::Done(
                                    StmtView::Foreach { declared_type, name, iterable, body, line: t[i].1 },
                                    n,
                                ),
                                Parsed::Failed(e) => Parsed::Failed(e),
                            }
                        },
                        Parsed::Failed(e) => Parsed::Failed(e),
                    }
                },
                Parsed::Failed(e) => Parsed::Failed(e),
            },
            Parsed::Failed(e) => Parsed::Failed(e),
        }
    }
}

/// `"{" statement* "}"`
pub open spec fn p_block(t: Seq<(TokenView, int, Reading)>, i: int) -> Parsed<Seq<StmtView>>
    decreases t.len() - i, 27nat, 0nat,
{
    if at(t, i, Symbol::LeftBrace) {
        block_rest(t, i + 1, Seq::empty())
    } else {
        fail_at(t, i, "Se esperaba '{' para abrir el bloque."@)
    }
}

/// The statements of a block after those read so far, up to its `}`.
pub open spec fn block_rest(t: Seq<(TokenView, int, Reading)>, j: int, read: Seq<StmtView>) -> Parsed<Seq<StmtView>>
    decreases t.len() - j, 31nat, 0nat,
{
    if at(t, j, Symbol::RightBrace) {
        Parsed::Done(read, j + 1)
    } else if at(t, j, Symbol::Eof) {
        fail_at(t, j, "Se esperaba '}' para cerrar el bloque."@)
    } else {
        match p_statement(t, j) {
            Parsed::Done(s, k) => if forward(t, j, k) {
                block_rest(t, k, read.push(s))
            } else {
                Parsed::Failed(Seq::empty())
            },
            Parsed::Failed(m) => Parsed::Failed(m),
        }
    }
}

/// The statements from position `j` up to the end of the file, after those read so far.
pub open spec fn p_program(t: Seq<(TokenView, int, Reading)>, j: int, read: Seq<StmtView>) -> Parsed<Seq<StmtView>>
    decreases t.len() - j,
{
    if at(t, j, Symbol::Eof) {
        Parsed::Done(read, j)
    } else {
        match p_statement(t, j) {
            Parsed::Done(s, k) => if forward(t, j, k) {
                p_program(t, k, read.push(s))
            } else {
                Parsed::Failed(Seq::empty())
            },
            Parsed::Failed(m) => Parsed::Failed(m),
        }
    }
}

}
