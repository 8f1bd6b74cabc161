use vstd::prelude::*;

use crate::parser::{BinaryOp, Expr, Name, Stmt, UnaryOp};
use crate::stdlib::{ArrayFunction, ArrayLibrary};
use crate::soundness::{expr_ready, indices_ready, lemma_exprs_ready, stmt_ready, stmts_ready};
use crate::text::{chars_equal, copy_chars, line_message, names_line, push_chars, push_str, string_of};
use crate::type_errors::{
    assignment_error, block_error, call_error, chain_error, condition_error, elements_error, expr_error, for_error, index_error, mismatch_message,
    program_error, stmt_error, stmts_error, target_error, undeclared_message, variable_target_error,
};
use crate::typing::{
    lemma_block_restores, lemma_statement_frame,
    assignment_type, block_env, call_type, close_scope, element_of, elements_have_type, expr_type, find_variable,
    for_env, indexed_chain, initial_env, lookup_variable, open_scope, program_checks, stmt_env, stmts_env, target_type,
    with_variable, TypeEnv, Variable,
};
use crate::value::{copy_type, push_type, same_type, Type};

verus! {

/// What the checker knows of a variable: its type and whether it is a constant.
pub struct VariableInfo {
    pub declared_type: Type,
    pub is_constant: bool,
}

struct Binding {
    name: Vec<char>,
    info: VariableInfo,
}

/// Checks names and types before a program runs. Each block opens a scope; the last scope
/// of the stack is the current one. Only types are kept, no values.
pub struct TypeChecker {
    scopes: Vec<Vec<Binding>>,
    library: ArrayLibrary,
}

impl TypeChecker {
    /// A checker with an empty global scope and no library enabled.
    pub fn new() -> (r: Self)
        ensures
            r.wf(),
            r.env() == initial_env(),
    {
        let mut scopes: Vec<Vec<Binding>> = Vec::new();
        scopes.push(Vec::new());
        let r = TypeChecker { scopes, library: ArrayLibrary::new() };
        assert(r.env() == initial_env()) by {
            assert(scope_of(r.scopes@[0]@) =~= Seq::<Variable>::empty());
            assert(r.env().scopes =~= initial_env().scopes);
        }
        r
    }

    /// The checker's invariant: the global scope is open.
    pub closed spec fn wf(&self) -> bool {
        self.scopes@.len() > 0
    }

    /// What the checker knows now (see `TypeEnv`).
    pub closed spec fn env(&self) -> TypeEnv {
        TypeEnv { scopes: self.scopes@.map_values(|s: Vec<Binding>| scope_of(s@)), library: self.library }
    }

    /// Checks a whole program from a fresh global scope, with no library enabled (see
    /// `program_checks`). Runs leave nothing behind: each check starts afresh.
    pub fn check(&mut self, statements: &Vec<Stmt>) -> (r: Result<(), String>)
        ensures
            r matches Err(e) ==> e@ == program_error(statements@),
            stmts_ready(statements@) ==> (r matches Err(e) ==> names_line(e@)),
            final(self).wf(),
            r is Ok <==> program_checks(statements@),
    {
        self.library = ArrayLibrary::new();
        self.scopes = Vec::new();
        self.scopes.push(Vec::new());
        assert(self.env() == initial_env()) by {
            assert(scope_of(self.scopes@[0]@) =~= Seq::<Variable>::empty());
            assert(self.env().scopes =~= initial_env().scopes);
        }
        let result = self.check_statements(statements);
        self.scopes = Vec::new();
        self.scopes.push(Vec::new());
        result
    }

    fn check_statements(&mut self, statements: &Vec<Stmt>) -> (r: Result<(), String>)
        requires
            old(self).wf(),
        ensures
            r is Err && old(self).scopes@.len() > 1 ==> final(self).env().library == old(self).env().library && final(self).env().scopes.drop_last() == old(self).env().scopes.drop_last(),
            r matches Err(e) ==> e@ == stmts_error(old(self).env(), statements@),
            stmts_ready(statements@) ==> (r matches Err(e) ==> names_line(e@)),
            final(self).wf(),
            final(self).scopes@.len() == old(self).scopes@.len(),
            match r {
                Ok(_) => stmts_env(old(self).env(), statements@) == Some(final(self).env()),
                Err(_) => stmts_env(old(self).env(), statements@) is None,
            },
        decreases statements, 0nat,
    {
        let mut k: usize = 0;
        assert(statements@.skip(0) =~= statements@);
        while k < statements.len()
            invariant
                self.wf(),
                self.scopes@.len() == old(self).scopes@.len(),
                k <= statements@.len(),
                stmts_env(old(self).env(), statements@) == stmts_env(self.env(), statements@.skip(k as int)),
                stmts_error(old(self).env(), statements@) == stmts_error(self.env(), statements@.skip(k as int)),
                old(self).scopes@.len() > 1 ==> self.env().library == old(self).env().library
                    && self.env().scopes.drop_last() == old(self).env().scopes.drop_last(),
                stmts_ready(statements@) ==> stmts_ready(statements@.skip(k as int)),
            decreases statements@.len() - k,
        {
            proof {
                assert(decreases_to!(statements => statements@));
                assert(decreases_to!(statements@ => statements@[k as int]));
                let rest = statements@.skip(k as int);
                assert(rest[0] == statements@[k as int]);
                assert(rest.drop_first() =~= statements@.skip(k + 1));
            }
            let ghost before = self.env();
            self.check_statement(&statements[k])?;
            proof {
                if old(self).scopes@.len() > 1 {
                    lemma_statement_frame(before, statements@[k as int]);
                }
            }
            k = k + 1;
        }
        assert(statements@.skip(k as int) =~= Seq::<Stmt>::empty());
        Ok(())
    }

    /// Opens a scope for a block, checks it and closes the scope.
    fn check_block(&mut self, statements: &Vec<Stmt>) -> (r: Result<(), String>)
        requires
            old(self).wf(),
        ensures
            r is Err ==> final(self).env() == old(self).env(),
            r matches Err(e) ==> e@ == block_error(old(self).env(), statements@),
            stmts_ready(statements@) ==> (r matches Err(e) ==> names_line(e@)),
            final(self).wf(),
            final(self).scopes@.len() == old(self).scopes@.len(),
            match r {
                Ok(_) => block_env(old(self).env(), statements@) == Some(final(self).env()),
                Err(_) => block_env(old(self).env(), statements@) is None,
            },
        decreases statements, 1nat,
    {
        self.open_scope(Vec::new());
        let ghost inner = self.env();
        let result = self.check_statements(statements);
        self.close_scope();
        proof {
            if result is Err {
                assert(inner.scopes.drop_last() =~= old(self).env().scopes);
                assert(self.env().scopes =~= old(self).env().scopes);
            }
        }
        result
    }

    /// Opens an innermost scope holding `scope`.
    fn open_scope(&mut self, scope: Vec<Binding>)
        ensures
            final(self).env() == open_scope(old(self).env(), scope_of(scope@)),
            scope@.len() == 0 ==> final(self).env() == open_scope(old(self).env(), Seq::empty()),
            final(self).scopes@.len() == old(self).scopes@.len() + 1,
            final(self).wf(),
    {
        let ghost added = scope@;
        self.scopes.push(scope);
        assert(self.env().scopes =~= old(self).env().scopes.push(scope_of(added)));
        proof {
            if added.len() == 0 {
                assert(scope_of(added) =~= Seq::<Variable>::empty());
            }
        }
    }

    /// Closes the innermost scope.
    fn close_scope(&mut self)
        requires
            old(self).scopes@.len() > 1,
        ensures
            final(self).env() == close_scope(old(self).env()),
            final(self).scopes@.len() == old(self).scopes@.len() - 1,
            final(self).wf(),
    {
        let _ = self.scopes.pop();
        assert(self.env().scopes =~= old(self).env().scopes.drop_last());
    }

    #[verifier::rlimit(60)]
    fn check_statement(&mut self, statement: &Stmt) -> (r: Result<(), String>)
        requires
            old(self).wf(),
        ensures
            r is Err ==> final(self).env() == old(self).env(),
            r matches Err(e) ==> e@ == stmt_error(old(self).env(), *statement),
            stmt_ready(*statement) ==> (r matches Err(e) ==> names_line(e@)),
            final(self).wf(),
            final(self).scopes@.len() == old(self).scopes@.len(),
            match r {
                Ok(_) => stmt_env(old(self).env(), *statement) == Some(final(self).env()),
                Err(_) => stmt_env(old(self).env(), *statement) is None,
            },
        decreases statement, 3nat,
    {
        match statement {
            Stmt::Call(expression) => {
                self.check_call(expression)?;
            },
            Stmt::Import { path, is_use, line } => {
                if self.scopes.len() != 1 {
                    let mut m: Vec<char> = Vec::new();
                    push_str(&mut m, "'import' y 'use' solo se permiten en el ámbito global del archivo.");
                    return Err(line_message(*line, &m));
                }
                self.library.import(path, *is_use, *line)?;
            },
            Stmt::Declare { declared_type, is_constant, name, initializer } => {
                let last = self.scopes.len() - 1;
                if find_in_scope(&self.scopes[last], &name.text).is_some() {
                    let mut m: Vec<char> = Vec::new();
                    push_str(&mut m, "La variable '");
                    push_chars(&mut m, &name.text);
                    push_str(&mut m, "' ya está declarada.");
                    return Err(name.error_chars(&m));
                }
                let actual = self.expression_type_expected(initializer, Some(declared_type))?;
                Self::require_type(name, declared_type, &actual)?;
                // Registering after the initializer rejects `int x = x;`.
                self.declare(name, copy_type(declared_type), *is_constant);
            },
            Stmt::Assign { name, indices, value } => {
                let target_type = self.assignment_target(name, indices)?;
                let actual = self.expression_type_expected(value, Some(&target_type))?;
                Self::require_type(name, &target_type, &actual)?;
            },
            Stmt::CompoundAssign { name, indices, operator, value, line } => {
                let target_type = self.assignment_target(name, indices)?;
                let operand_type = self.expression_type_expected(value, Some(&target_type))?;
                if Self::binary_result(&target_type, operator.binary(), &operand_type).is_none() {
                    let mut m: Vec<char> = Vec::new();
                    push_str(&mut m, "el operador '");
                    push_str(&mut m, operator.symbol());
                    push_str(&mut m, "' no admite ");
                    push_type(&mut m, &target_type);
                    push_str(&mut m, " y ");
                    push_type(&mut m, &operand_type);
                    push_str(&mut m, ". No hay conversiones implícitas.");
                    return Err(line_message(*line, &m));
                }
            },
            Stmt::Increment { name, indices, operator, line } => {
                let target_type = self.assignment_target(name, indices)?;
                if !matches!(target_type, Type::Int | Type::Float) {
                    let mut m: Vec<char> = Vec::new();
                    push_str(&mut m, "el operador '");
                    push_str(&mut m, operator.symbol());
                    push_str(&mut m, "' no admite ");
                    push_type(&mut m, &target_type);
                    push_str(&mut m, ".");
                    return Err(line_message(*line, &m));
                }
            },
            Stmt::If { condition, then_branch, else_branch, line } => {
                self.require_bool(condition, "if", *line)?;
                self.check_block(then_branch)?;
                proof {
                    lemma_block_restores(old(self).env(), then_branch@);
                }
                match else_branch {
                    Some(branch) => {
                        self.check_block(branch)?;
                    },
                    None => {},
                }
            },
            Stmt::While { condition, body, line } => {
                self.require_bool(condition, "while", *line)?;
                self.check_block(body)?;
            },
            Stmt::For { initializer, condition, update, body, line } => {
                // The counter's scope covers the header and the body; the body opens its own too.
                self.open_scope(Vec::new());
                let ghost inner = self.env();
                let result = self.check_for(statement);
                self.close_scope();
                proof {
                    if result is Err {
                        assert(inner.scopes.drop_last() =~= old(self).env().scopes);
                        assert(self.env().scopes =~= old(self).env().scopes);
                    }
                }
                result?;
            },
            Stmt::Foreach { declared_type, name, iterable, body, line } => {
                let iterable_type = self.expression_type(iterable)?;
                let element = match &iterable_type {
                    Type::Array(element) => copy_type(element),
                    _ => {
                        let mut m: Vec<char> = Vec::new();
                        push_str(&mut m, "'foreach' solo recorre arrays; se recibió ");
                        push_type(&mut m, &iterable_type);
                        push_str(&mut m, ".");
                        return Err(line_message(*line, &m));
                    },
                };
                Self::require_type(name, declared_type, &element)?;
                self.open_scope(Vec::new());
                self.declare(name, copy_type(declared_type), false);
                let ghost inner = self.env();
                let result = self.check_block(body);
                self.close_scope();
                proof {
                    if result is Err {
                        assert(inner.scopes.drop_last() =~= old(self).env().scopes);
                        assert(self.env().scopes =~= old(self).env().scopes);
                    }
                }
                result?;
            },
            Stmt::Print(expression) => {
                self.expression_type(expression)?;
            },
            Stmt::Println(expression) => {
                self.expression_type(expression)?;
            },
        }
        Ok(())
    }

    /// The header and body of a `for`, in the scope that holds its counter.
    fn check_for(&mut self, statement: &Stmt) -> (r: Result<(), String>)
        requires
            old(self).wf(),
            *statement is For,
        ensures
            r is Err && old(self).scopes@.len() > 1 ==> final(self).env().library == old(self).env().library && final(self).env().scopes.drop_last() == old(self).env().scopes.drop_last(),
            r matches Err(e) ==> e@ == for_error(old(self).env(), *statement),
            stmt_ready(*statement) ==> (r matches Err(e) ==> names_line(e@)),
            final(self).wf(),
            final(self).scopes@.len() == old(self).scopes@.len(),
            match r {
                Ok(_) => for_env(old(self).env(), *statement) == Some(final(self).env()),
                Err(_) => for_env(old(self).env(), *statement) is None,
            },
        decreases statement, 2nat,
    {
        match statement {
            Stmt::For { initializer, condition, update, body, line } => {
                let ghost start = self.env();
                self.check_statement(initializer)?;
                proof {
                    if start.scopes.len() > 1 {
                        lemma_statement_frame(start, **initializer);
                    }
                }
                let ghost header = self.env();
                self.require_bool(condition, "for", *line)?;
                self.check_statement(update)?;
                proof {
                    if start.scopes.len() > 1 {
                        lemma_statement_frame(header, **update);
                    }
                }
                self.check_block(body)
            },
            _ => Ok(()),
        }
    }

    /// Adds a variable to the current scope.
    fn declare(&mut self, name: &Name, declared_type: Type, is_constant: bool)
        requires
            old(self).wf(),
        ensures
            final(self).wf(),
            final(self).scopes@.len() == old(self).scopes@.len(),
            final(self).env() == with_variable(
                old(self).env(),
                Variable { name: name.text@, declared_type, is_constant },
            ),
    {
        let last = self.scopes.len() - 1;
        let mut scope = self.scopes.remove(last);
        let ghost before = scope@;
        scope.push(Binding { name: copy_chars(&name.text), info: VariableInfo { declared_type, is_constant } });
        assert(scope_of(scope@) =~= scope_of(before).push(Variable { name: name.text@, declared_type, is_constant }));
        self.scopes.push(scope);
        assert(self.env().scopes =~= old(self).env().scopes.update(
            last as int,
            old(self).env().scopes.last().push(Variable { name: name.text@, declared_type, is_constant }),
        ));
    }

    fn require_bool(&self, condition: &Expr, keyword: &str, line: usize) -> (r: Result<(), String>)
        requires
            self.wf(),
        ensures
            r matches Err(e) ==> e@ == condition_error(self.env(), *condition, keyword@, line as nat),
            expr_ready(*condition) ==> (r matches Err(e) ==> names_line(e@)),
            r is Ok <==> expr_type(self.env(), *condition, None) == Some(Type::Bool),
    {
        let actual = self.expression_type(condition)?;
        if !matches!(actual, Type::Bool) {
            let mut m: Vec<char> = Vec::new();
            push_str(&mut m, "la condición de '");
            push_str(&mut m, keyword);
            push_str(&mut m, "' debe ser bool; se recibió ");
            push_type(&mut m, &actual);
            push_str(&mut m, ".");
            return Err(line_message(line, &m));
        }
        Ok(())
    }

    fn expression_type(&self, expression: &Expr) -> (r: Result<Type, String>)
        requires
            self.wf(),
        ensures
            r matches Err(e) ==> e@ == expr_error(self.env(), *expression, None),
            expr_ready(*expression) ==> (r matches Err(e) ==> names_line(e@)),
            match r {
                Ok(t) => expr_type(self.env(), *expression, None) == Some(t),
                Err(_) => expr_type(self.env(), *expression, None) is None,
            },
        decreases expression, 4nat,
    {
        self.expression_type_expected(expression, None)
    }

    /// The type of an expression. The expected type, when there is one, gives `[]` its element
    /// type; it never converts a value.
    fn expression_type_expected(&self, expression: &Expr, expected: Option<&Type>) -> (r: Result<Type, String>)
        requires
            self.wf(),
        ensures
            r matches Err(e) ==> e@ == expr_error(self.env(), *expression, expected_type(expected)),
            expr_ready(*expression) ==> (r matches Err(e) ==> names_line(e@)),
            match r {
                Ok(t) => expr_type(self.env(), *expression, expected_type(expected)) == Some(t),
                Err(_) => expr_type(self.env(), *expression, expected_type(expected)) is None,
            },
        decreases expression, 3nat,
    {
        match expression {
            Expr::LibraryCall { path, .. } => {
                match self.check_call(expression)? {
                    Some(t) => Ok(t),
                    None => {
                        if path.len() == 0 {
                            return Err(string_of(&Vec::new()));
                        }
                        Err(path[path.len() - 1].error("'push' no devuelve un valor; úsalo como instrucción con ';'."))
                    },
                }
            },
            Expr::Literal(value) => match value.value_type() {
                Some(t) => Ok(t),
                None => {
                    let mut m: Vec<char> = Vec::new();
                    push_str(&mut m, "Literal sin tipo de elemento.");
                    Err(string_of(&m))
                },
            },
            Expr::Variable(name) => {
                let info = self.lookup(name)?;
                Ok(copy_type(&info.declared_type))
            },
            Expr::Array { elements, line } => {
                let element_type = match expected {
                    Some(Type::Array(element)) => copy_type(element),
                    _ => {
                        if elements.len() == 0 {
                            let mut m: Vec<char> = Vec::new();
                            push_str(&mut m, "un array vacío necesita un tipo declarado, por ejemplo int[] datos = [];");
                            return Err(line_message(*line, &m));
                        }
                        proof {
                            let w = expression->Array_elements;
                            assert(decreases_to!(*expression => expression->Array_elements));
                            assert(decreases_to!(w => w@));
                            assert(decreases_to!(w@ => w@[0]));
                        }
                        proof {
                            if expr_ready(*expression) {
                                lemma_exprs_ready(elements@);
                            }
                        }
                        self.expression_type(&elements[0])?
                    },
                };
                proof {
                    if expr_ready(*expression) {
                        lemma_exprs_ready(elements@);
                    }
                }
                let ghost whole = elements_have_type(self.env(), elements@, element_type);
                assert(expr_error(self.env(), *expression, expected_type(expected)) == elements_error(
                    self.env(),
                    elements@,
                    element_type,
                    *line as nat,
                ));
                assert(expr_type(self.env(), *expression, expected_type(expected)) == if whole {
                    Some(Type::Array(Box::new(element_type)))
                } else {
                    None
                });
                let mut k: usize = 0;
                assert(elements@.skip(0) =~= elements@);
                while k < elements.len()
                    invariant
                        self.wf(),
                        *expression == (Expr::Array { elements: *elements, line: *line }),
                        k <= elements@.len(),
                        whole == elements_have_type(self.env(), elements@, element_type),
                        whole == elements_have_type(self.env(), elements@.skip(k as int), element_type),
                        expr_error(self.env(), *expression, expected_type(expected)) == elements_error(
                            self.env(),
                            elements@.skip(k as int),
                            element_type,
                            *line as nat,
                        ),
                        expr_ready(*expression) ==> forall|j: int| 0 <= j < elements@.len() ==> expr_ready(#[trigger] elements@[j]),
                        expr_type(self.env(), *expression, expected_type(expected)) == if whole {
                            Some(Type::Array(Box::new(element_type)))
                        } else {
                            None
                        },
                    decreases elements@.len() - k,
                {
                    proof {
                        let w = expression->Array_elements;
                        assert(decreases_to!(*expression => expression->Array_elements));
                        assert(decreases_to!(w => w@));
                        assert(decreases_to!(w@ => w@[k as int]));
                        let rest = elements@.skip(k as int);
                        assert(rest[0] == elements@[k as int]);
                        assert(rest.drop_first() =~= elements@.skip(k + 1));
                    }
                    let actual = self.expression_type_expected(&elements[k], Some(&element_type))?;
                    if !same_type(&actual, &element_type) {
                        let mut m: Vec<char> = Vec::new();
                        push_str(&mut m, "elemento de array incompatible: se esperaba ");
                        push_type(&mut m, &element_type);
                        push_str(&mut m, ", se recibió ");
                        push_type(&mut m, &actual);
                        push_str(&mut m, ". No hay conversiones implícitas.");
                        return Err(line_message(*line, &m));
                    }
                    k = k + 1;
                }
                assert(elements@.skip(k as int) =~= Seq::<Expr>::empty());
                Ok(Type::Array(Box::new(element_type)))
            },
            Expr::Index { array, index, line } => {
                let array_type = self.expression_type(array)?;
                self.indexed_type(array_type, index, *line)
            },
            Expr::Unary { operator, operand, line } => {
                let kind = self.expression_type(operand)?;
                let valid = match operator {
                    UnaryOp::Plus | UnaryOp::Minus => matches!(kind, Type::Int | Type::Float),
                    UnaryOp::Not => matches!(kind, Type::Bool),
                };
                if valid {
                    Ok(kind)
                } else {
                    let mut m: Vec<char> = Vec::new();
                    push_str(&mut m, "el operador '");
                    push_str(&mut m, operator.symbol());
                    push_str(&mut m, "' no admite ");
                    push_type(&mut m, &kind);
                    push_str(&mut m, ".");
                    Err(line_message(*line, &m))
                }
            },
            Expr::Binary { left, operator, right, line } => {
                // Both operands must have valid names and types, even when evaluation
                // would skip one of them.
                let left = self.expression_type(left)?;
                let right = self.expression_type(right)?;
                match Self::binary_result(&left, *operator, &right) {
                    Some(t) => Ok(t),
                    None => {
                        let mut m: Vec<char> = Vec::new();
                        push_str(&mut m, "el operador '");
                        push_str(&mut m, operator.symbol());
                        push_str(&mut m, "' no admite ");
                        push_type(&mut m, &left);
                        push_str(&mut m, " y ");
                        push_type(&mut m, &right);
                        push_str(&mut m, ". No hay conversiones implícitas.");
                        Err(line_message(*line, &m))
                    },
                }
            },
        }
    }

    /// Checks a library call: the function, its number of arguments, the array's type, that
    /// `push` and `pop` change a variable that is not a constant, and the type of `push`'s
    /// element. The result type is `None` for `push`, which gives no value.
    fn check_call(&self, expression: &Expr) -> (r: Result<Option<Type>, String>)
        requires
            self.wf(),
        ensures
            r matches Err(e) ==> e@ == call_error(self.env(), *expression),
            expr_ready(*expression) && *expression is LibraryCall ==> (r matches Err(e) ==> names_line(e@)),
            match r {
                Ok(t) => call_type(self.env(), *expression) == Some(t),
                Err(_) => call_type(self.env(), *expression) is None,
            },
        decreases expression, 2nat,
    {
        match expression {
            Expr::LibraryCall { path, receiver, arguments } => {
                if path.len() == 0 {
                    return Err(string_of(&Vec::new()));
                }
                let function = self.library.resolve(path, receiver.is_some())?;
                let name = &path[path.len() - 1];
                function.check_arity(arguments.len(), receiver.is_some(), name)?;
                let array: &Expr = match receiver {
                    Some(r) => {
                        proof {
                            assert(decreases_to!(*expression => expression->receiver));
                        }
                        &**r
                    },
                    None => {
                        if arguments.len() == 0 {
                            return Err(string_of(&Vec::new()));
                        }
                        proof {
                            let w = expression->arguments;
                            assert(decreases_to!(*expression => expression->arguments));
                            assert(decreases_to!(w => w@));
                            assert(decreases_to!(w@ => w@[0]));
                        }
                        &arguments[0]
                    },
                };
                proof {
                    if expr_ready(*expression) {
                        lemma_exprs_ready(arguments@);
                    }
                }
                let array_type = self.expression_type(array)?;
                let result = function.result_type(&array_type, name)?;
                if function != ArrayFunction::Len {
                    self.target_type(array, name)?;
                }
                if function == ArrayFunction::Push {
                    let element = match &array_type {
                        Type::Array(element) => copy_type(element),
                        _ => {
                            return Err(string_of(&Vec::new()));
                        },
                    };
                    if arguments.len() == 0 {
                        return Err(string_of(&Vec::new()));
                    }
                    proof {
                        let w = expression->arguments;
                        assert(decreases_to!(*expression => expression->arguments));
                        assert(decreases_to!(w => w@));
                        assert(decreases_to!(w@ => w@[arguments@.len() - 1]));
                    }
                    let value = &arguments[arguments.len() - 1];
                    let actual = self.expression_type_expected(value, Some(&element))?;
                    Self::require_type(name, &element, &actual)?;
                }
                Ok(result)
            },
            _ => {
                let mut m: Vec<char> = Vec::new();
                push_str(&mut m, "Se esperaba una llamada de biblioteca.");
                Err(string_of(&m))
            },
        }
    }

    /// The type of an array that a call changes: a variable, not a constant, followed by indices.
    fn target_type(&self, expression: &Expr, call: &Name) -> (r: Result<Type, String>)
        requires
            self.wf(),
        ensures
            r matches Err(e) ==> e@ == target_error(self.env(), *expression, *call),
            expr_ready(*expression) ==> (r matches Err(e) ==> names_line(e@)),
            match r {
                Ok(t) => target_type(self.env(), *expression) == Some(t),
                Err(_) => target_type(self.env(), *expression) is None,
            },
        decreases expression, 1nat,
    {
        match expression {
            Expr::Variable(name) => self.variable_target(name),
            Expr::Index { array, index, line } => {
                let array_type = self.target_type(array, call)?;
                self.indexed_type(array_type, index, *line)
            },
            _ => Err(call.error("Se necesita una variable array modificable o uno de sus subarrays.")),
        }
    }

    /// The type of a variable that may be changed: declared and not a constant.
    fn variable_target(&self, name: &Name) -> (r: Result<Type, String>)
        requires
            self.wf(),
        ensures
            r matches Err(e) ==> e@ == variable_target_error(self.env(), *name),
            r matches Err(e) ==> names_line(e@),
            match r {
                Ok(t) => lookup_variable(self.env().scopes, name.text@) matches Some(v) && !v.is_constant
                    && v.declared_type == t,
                Err(_) => !(lookup_variable(self.env().scopes, name.text@) matches Some(v) && !v.is_constant),
            },
    {
        let info = self.lookup(name)?;
        if info.is_constant {
            let mut m: Vec<char> = Vec::new();
            push_str(&mut m, "No se puede reasignar la constante '");
            push_chars(&mut m, &name.text);
            push_str(&mut m, "'.");
            return Err(name.error_chars(&m));
        }
        Ok(copy_type(&info.declared_type))
    }

    /// The type of an assignment's target: the variable must be declared and not a constant,
    /// and each index must be an `int` applied to an array. Shared by `=`, `+=`/`-=` and `++`/`--`.
    fn assignment_target(&self, name: &Name, indices: &Vec<(Expr, usize)>) -> (r: Result<Type, String>)
        requires
            self.wf(),
        ensures
            r matches Err(e) ==> e@ == assignment_error(self.env(), *name, indices@),
            indices_ready(indices@) ==> (r matches Err(e) ==> names_line(e@)),
            match r {
                Ok(t) => assignment_type(self.env(), *name, indices@) == Some(t),
                Err(_) => assignment_type(self.env(), *name, indices@) is None,
            },
    {
        let mut target_type = self.variable_target(name)?;
        let ghost whole = assignment_type(self.env(), *name, indices@);
        let ghost whole_error = assignment_error(self.env(), *name, indices@);
        let mut k: usize = 0;
        assert(indices@.skip(0) =~= indices@);
        while k < indices.len()
            invariant
                self.wf(),
                k <= indices@.len(),
                whole == assignment_type(self.env(), *name, indices@),
                whole == indexed_chain(self.env(), target_type, indices@.skip(k as int)),
                whole_error == assignment_error(self.env(), *name, indices@),
                whole_error == chain_error(self.env(), target_type, indices@.skip(k as int)),
            decreases indices@.len() - k,
        {
            let (index, line) = &indices[k];
            let ghost rest = indices@.skip(k as int);
            assert(rest[0] == indices@[k as int]);
            assert(rest.drop_first() =~= indices@.skip(k + 1));
            target_type = self.indexed_type(target_type, index, *line)?;
            k = k + 1;
        }
        Ok(target_type)
    }

    /// The element type of indexing a value of type `array` with `index`.
    fn indexed_type(&self, array: Type, index: &Expr, line: usize) -> (r: Result<Type, String>)
        requires
            self.wf(),
        ensures
            r matches Err(e) ==> e@ == index_error(self.env(), array, *index, line as nat),
            expr_ready(*index) ==> (r matches Err(e) ==> names_line(e@)),
            match r {
                Ok(t) => element_of(array, expr_type(self.env(), *index, None)) == Some(t),
                Err(_) => element_of(array, expr_type(self.env(), *index, None)) is None,
            },
        decreases index, 5nat,
    {
        let element = match array {
            Type::Array(element) => *element,
            other => {
                let mut m: Vec<char> = Vec::new();
                push_str(&mut m, "solo se pueden indexar arrays; se recibió ");
                push_type(&mut m, &other);
                push_str(&mut m, ".");
                return Err(line_message(line, &m));
            },
        };
        let actual = self.expression_type(index)?;
        if !matches!(actual, Type::Int) {
            let mut m: Vec<char> = Vec::new();
            push_str(&mut m, "el índice debe ser int; se recibió ");
            push_type(&mut m, &actual);
            push_str(&mut m, ".");
            return Err(line_message(line, &m));
        }
        Ok(element)
    }

    /// The variable a name refers to, searching from the innermost scope outwards (see
    /// `lookup_variable`).
    pub fn lookup(&self, name: &Name) -> (r: Result<&VariableInfo, String>)
        requires
            self.wf(),
        ensures
            r matches Err(e) ==> e@ == undeclared_message(*name),
            r matches Err(e) ==> names_line(e@),
            match r {
                Ok(info) => lookup_variable(self.env().scopes, name.text@) == Some(
                    Variable { name: name.text@, declared_type: info.declared_type, is_constant: info.is_constant },
                ),
                Err(_) => lookup_variable(self.env().scopes, name.text@) is None,
            },
    {
        let ghost all = self.env().scopes;
        let mut k = self.scopes.len();
        assert(all.take(k as int) =~= all);
        while k > 0
            invariant
                k <= self.scopes@.len(),
                all == self.env().scopes,
                lookup_variable(all, name.text@) == lookup_variable(all.take(k as int), name.text@),
            decreases k,
        {
            let ghost prefix = all.take(k as int);
            k = k - 1;
            assert(prefix.last() == scope_of(self.scopes@[k as int]@));
            assert(prefix.drop_last() =~= all.take(k as int));
            match find_in_scope(&self.scopes[k], &name.text) {
                Some(j) => {
                    return Ok(&self.scopes[k][j].info);
                },
                None => {},
            }
        }
        let mut m: Vec<char> = Vec::new();
        push_str(&mut m, "La variable '");
        push_chars(&mut m, &name.text);
        push_str(&mut m, "' no está declarada. Debe declararse antes de usarla, indicando su tipo.");
        Err(name.error_chars(&m))
    }
}

/// The type a context expects, if any.
pub open spec fn expected_type(expected: Option<&Type>) -> Option<Type> {
    match expected {
        Some(t) => Some(*t),
        None => None,
    }
}

/// A binding as the checker's environment sees it.
spec fn variable_of(b: Binding) -> Variable {
    Variable { name: b.name@, declared_type: b.info.declared_type, is_constant: b.info.is_constant }
}

/// A scope as the checker's environment sees it.
spec fn scope_of(s: Seq<Binding>) -> Seq<Variable> {
    s.map_values(|b: Binding| variable_of(b))
}

/// The position of a name in a scope, searching from the most recent declaration.
fn find_in_scope(scope: &Vec<Binding>, name: &Vec<char>) -> (r: Option<usize>)
    ensures
        r matches Some(j) ==> j < scope@.len() && scope@[j as int].name@ == name@,
        find_variable(scope_of(scope@), name@) == (match r {
            Some(j) => Some(variable_of(scope@[j as int])),
            None => None::<Variable>,
        }),
{
    let ghost all = scope_of(scope@);
    let mut j = scope.len();
    assert(all.take(j as int) =~= all);
    while j > 0
        invariant
            j <= scope@.len(),
            all == scope_of(scope@),
            find_variable(all, name@) == find_variable(all.take(j as int), name@),
        decreases j,
    {
        let ghost prefix = all.take(j as int);
        j = j - 1;
        assert(prefix.last() == variable_of(scope@[j as int]));
        assert(prefix.drop_last() =~= all.take(j as int));
        if chars_equal(&scope[j].name, name) {
            return Some(j);
        }
    }
    None
}

/// The type of a binary operation, or `None` when the operator does not take these operands.
/// Both operands must have the same type: `+` takes numbers and strings; `-`, `*`, `/`, `%`
/// numbers; `==` and `!=` any type; `<`, `<=`, `>`, `>=` numbers, characters and strings;
/// `&&` and `||` booleans. Arithmetic keeps the operand type; the rest give `bool`.
pub open spec fn binary_type(left: Type, operator: BinaryOp, right: Type) -> Option<Type> {
    let numeric = left == Type::Int || left == Type::Float;
    if left != right {
        None
    } else {
        match operator {
            BinaryOp::Add => if numeric || left == Type::String { Some(left) } else { None },
            BinaryOp::Subtract | BinaryOp::Multiply | BinaryOp::Divide | BinaryOp::Remainder => if numeric {
                Some(left)
            } else {
                None
            },
            BinaryOp::Equal | BinaryOp::NotEqual => Some(Type::Bool),
            BinaryOp::Less | BinaryOp::LessEqual | BinaryOp::Greater | BinaryOp::GreaterEqual => if numeric
                || left == Type::Char || left == Type::String {
                Some(Type::Bool)
            } else {
                None
            },
            BinaryOp::And | BinaryOp::Or => if left == Type::Bool { Some(Type::Bool) } else { None },
        }
    }
}

/// The type of a unary operation, or `None` when the operator does not take the operand: `+`
/// and `-` take numbers, `!` takes `bool`; the result keeps the operand's type.
pub open spec fn unary_type(operator: UnaryOp, operand: Type) -> Option<Type> {
    match operator {
        UnaryOp::Plus | UnaryOp::Minus => if operand == Type::Int || operand == Type::Float {
            Some(operand)
        } else {
            None
        },
        UnaryOp::Not => if operand == Type::Bool { Some(operand) } else { None },
    }
}

/// Both operands of a binary operator have one type: no operator mixes types, and `==`
/// and `!=` take any type.
pub proof fn lemma_operands_share_type(left: Type, operator: BinaryOp, right: Type)
    ensures
        binary_type(left, operator, right) is Some ==> left == right,
        operator == BinaryOp::Equal || operator == BinaryOp::NotEqual ==> binary_type(left, operator, left)
            == Some(Type::Bool),
{
}

impl TypeChecker {
    /// The type rules of a binary operator (see `binary_type`); also used by `+=` and `-=`.
    pub fn binary_result(left: &Type, operator: BinaryOp, right: &Type) -> (r: Option<Type>)
        ensures
            r == binary_type(*left, operator, *right),
    {
        let numeric = matches!(left, Type::Int | Type::Float);
        let result = match operator {
            BinaryOp::Add => if numeric || matches!(left, Type::String) { Some(copy_type(left)) } else { None },
            BinaryOp::Subtract | BinaryOp::Multiply | BinaryOp::Divide | BinaryOp::Remainder => if numeric {
                Some(copy_type(left))
            } else {
                None
            },
            BinaryOp::Equal | BinaryOp::NotEqual => Some(Type::Bool),
            BinaryOp::Less | BinaryOp::LessEqual | BinaryOp::Greater | BinaryOp::GreaterEqual => if numeric
                || matches!(left, Type::Char | Type::String) {
                Some(Type::Bool)
            } else {
                None
            },
            BinaryOp::And | BinaryOp::Or => if matches!(left, Type::Bool) { Some(Type::Bool) } else { None },
        };
        if same_type(left, right) {
            result
        } else {
            None
        }
    }

    /// Requires the type of the value given to `name` to be exactly the expected one.
    pub fn require_type(name: &Name, expected: &Type, actual: &Type) -> (r: Result<(), String>)
        ensures
            r matches Err(e) ==> e@ == mismatch_message(*name, *expected, *actual),
            r matches Err(e) ==> names_line(e@),
            r is Ok <==> *expected == *actual,
    {
        if !same_type(expected, actual) {
            let mut m: Vec<char> = Vec::new();
            push_str(&mut m, "Tipo incompatible para '");
            push_chars(&mut m, &name.text);
            push_str(&mut m, "': se esperaba ");
            push_type(&mut m, expected);
            push_str(&mut m, ", se recibió ");
            push_type(&mut m, actual);
            push_str(&mut m, ". No hay conversiones implícitas.");
            return Err(name.error_chars(&m));
        }
        Ok(())
    }
}

}
