use vstd::prelude::*;

use crate::parser::{assign_binary, Expr, Name, Stmt};
use crate::stdlib::{call_result, library_after, library_function, ArrayFunction, ArrayLibrary};
use crate::type_checker::{binary_type, unary_type};
use crate::value::{value_type_of, Type};

verus! {

/// A declared variable as the checker sees it: its name, type and whether it is a constant.
pub struct Variable {
    pub name: Seq<char>,
    pub declared_type: Type,
    pub is_constant: bool,
}

/// What the checker knows at a point of the program: the scopes, innermost last, each with its
/// variables in the order of their declarations, and what of the library is enabled.
pub struct TypeEnv {
    pub scopes: Seq<Seq<Variable>>,
    pub library: ArrayLibrary,
}

/// The environment at the start of a program: one empty global scope, no library.
pub open spec fn initial_env() -> TypeEnv {
    TypeEnv { scopes: seq![Seq::empty()], library: ArrayLibrary { imported: false, short_name: false } }
}

/// The latest declaration of a name in one scope.
pub open spec fn find_variable(scope: Seq<Variable>, name: Seq<char>) -> Option<Variable>
    decreases scope.len(),
{
    if scope.len() == 0 {
        None
    } else if scope.last().name == name {
        Some(scope.last())
    } else {
        find_variable(scope.drop_last(), name)
    }
}

/// The variable a name refers to: its declaration in the innermost scope that has one.
pub open spec fn lookup_variable(scopes: Seq<Seq<Variable>>, name: Seq<char>) -> Option<Variable>
    decreases scopes.len(),
{
    if scopes.len() == 0 {
        None
    } else {
        match find_variable(scopes.last(), name) {
            Some(v) => Some(v),
            None => lookup_variable(scopes.drop_last(), name),
        }
    }
}

/// The environment with one more, empty, innermost scope.
pub open spec fn open_scope(env: TypeEnv, scope: Seq<Variable>) -> TypeEnv {
    TypeEnv { scopes: env.scopes.push(scope), library: env.library }
}

/// The environment without its innermost scope.
pub open spec fn close_scope(env: TypeEnv) -> TypeEnv {
    TypeEnv { scopes: env.scopes.drop_last(), library: env.library }
}

/// The environment with a variable declared in the innermost scope.
pub open spec fn with_variable(env: TypeEnv, v: Variable) -> TypeEnv {
    TypeEnv {
        scopes: env.scopes.update(env.scopes.len() - 1, env.scopes.last().push(v)),
        library: env.library,
    }
}

/// The type of an indexed element: indexing takes an array and an `int` index.
pub open spec fn element_of(array: Type, index: Option<Type>) -> Option<Type> {
    match array {
        Type::Array(element) => if index == Some(Type::Int) {
            Some(*element)
        } else {
            None
        },
        _ => None,
    }
}

/// The type of an expression, `None` when it is refused. `expected`, the type the context
/// wants, only gives an array literal its element type (so that `[]` can be typed); it never
/// converts. A literal has its value's type; a variable its declared type; an array literal
/// has elements all of one type, the expected element type or else that of its first element;
/// indexing takes an array and an `int`; operators follow `unary_type` and `binary_type`, and
/// check both operands even where evaluation skips one; a library call must give a value.
pub open spec fn expr_type(env: TypeEnv, e: Expr, expected: Option<Type>) -> Option<Type>
    decreases e, 2nat,
{
    match e {
        Expr::LibraryCall { .. } => match call_type(env, e) {
            Some(Some(t)) => Some(t),
            _ => None,
        },
        Expr::Literal(v) => value_type_of(v),
        Expr::Variable(name) => match lookup_variable(env.scopes, name.text@) {
            Some(v) => Some(v.declared_type),
            None => None,
        },
        Expr::Array { elements, .. } => {
            let element: Option<Type> = match expected {
                Some(Type::Array(el)) => Some(*el),
                _ => if elements@.len() == 0 {
                    None
                } else {
                    proof {
                        assert(decreases_to!(e => e->Array_elements));
                        assert(decreases_to!(e->Array_elements => e->Array_elements@));
                        assert(decreases_to!(e->Array_elements@ => e->Array_elements@[0]));
                    }
                    expr_type(env, elements@[0], None)
                },
            };
            match element {
                Some(el) => {
                    proof {
                        assert(decreases_to!(e => e->Array_elements));
                        assert(decreases_to!(e->Array_elements => e->Array_elements@));
                    }
                    if elements_have_type(env, elements@, el) {
                        Some(Type::Array(Box::new(el)))
                    } else {
                        None
                    }
                },
                None => None,
            }
        },
        Expr::Index { array, index, .. } => match expr_type(env, *array, None) {
            Some(t) => element_of(t, expr_type(env, *index, None)),
            None => None,
        },
        Expr::Unary { operator, operand, .. } => match expr_type(env, *operand, None) {
            Some(t) => unary_type(operator, t),
            None => None,
        },
        Expr::Binary { left, operator, right, .. } => match (expr_type(env, *left, None), expr_type(env, *right, None)) {
            (Some(l), Some(r)) => binary_type(l, operator, r),
            _ => None,
        },
    }
}

/// Whether every element of an array literal has the element type, each checked with it as the
/// expected type.
pub open spec fn elements_have_type(env: TypeEnv, elements: Seq<Expr>, element: Type) -> bool
    decreases elements, 0nat,
{
    if elements.len() == 0 {
        true
    } else {
        expr_type(env, elements[0], Some(element)) == Some(element)
            && elements_have_type(env, elements.drop_first(), element)
    }
}

/// The array expression a library call works on: the receiver of a method call, else the first
/// argument.
pub open spec fn call_array(e: Expr) -> Option<Expr> {
    match e {
        Expr::LibraryCall { receiver, arguments, .. } => match receiver {
            Some(r) => Some(*r),
            None => if arguments@.len() > 0 {
                Some(arguments@[0])
            } else {
                None
            },
        },
        _ => None,
    }
}

/// The type of a library call's result (`Some(None)` for `push`, which gives no value), `None`
/// when it is refused: the library must name the function (see `library_function`), the call
/// must have the function's number of arguments, its array must have an array type, `push` and
/// `pop` need an array that may be changed (see `target_type`), and `push`'s element must have
/// the element type.
pub open spec fn call_type(env: TypeEnv, e: Expr) -> Option<Option<Type>>
    decreases e, 1nat,
{
    match e {
        Expr::LibraryCall { path, receiver, arguments } => {
            let method = receiver is Some;
            if path@.len() == 0 {
                None
            } else {
                match library_function(env.library, path@, method) {
                    None => None,
                    Some(f) => if arguments@.len() != crate::stdlib::arity(f, method) {
                        None
                    } else {
                        match call_array(e) {
                            None => None,
                            Some(array) => {
                                proof {
                                    if receiver is Some {
                                        assert(decreases_to!(e => e->receiver));
                                    } else {
                                        assert(decreases_to!(e => e->arguments));
                                        assert(decreases_to!(e->arguments => e->arguments@));
                                        assert(decreases_to!(e->arguments@ => e->arguments@[0]));
                                    }
                                }
                                match expr_type(env, array, None) {
                                    None => None,
                                    Some(array_type) => match call_result(f, array_type) {
                                        None => None,
                                        Some(result) => {
                                            let changes_ok = f == ArrayFunction::Len || target_type(env, array) is Some;
                                            let element_ok = f != ArrayFunction::Push || ({
                                                proof {
                                                    assert(decreases_to!(e => e->arguments));
                                                    assert(decreases_to!(e->arguments => e->arguments@));
                                                    assert(decreases_to!(e->arguments@ => e->arguments@[arguments@.len() - 1]));
                                                }
                                                &&& arguments@.len() > 0
                                                &&& array_type is Array
                                                &&& expr_type(env, arguments@[arguments@.len() - 1], Some(*array_type->Array_0))
                                                    == Some(*array_type->Array_0)
                                            });
                                            if changes_ok && element_ok {
                                                Some(result)
                                            } else {
                                                None
                                            }
                                        },
                                    },
                                }
                            },
                        }
                    },
                }
            }
        },
        _ => None,
    }
}

/// The type of an array that a library call changes: a declared variable that is not a
/// constant, followed by `int` indices, each applied to an array.
pub open spec fn target_type(env: TypeEnv, e: Expr) -> Option<Type>
    decreases e, 0nat,
{
    match e {
        Expr::Variable(name) => match lookup_variable(env.scopes, name.text@) {
            Some(v) => if v.is_constant {
                None
            } else {
                Some(v.declared_type)
            },
            None => None,
        },
        Expr::Index { array, index, .. } => match target_type(env, *array) {
            Some(t) => element_of(t, expr_type(env, *index, None)),
            None => None,
        },
        _ => None,
    }
}

/// The type after applying `int` indices, from left to right, to a value of type `t`.
pub open spec fn indexed_chain(env: TypeEnv, t: Type, indices: Seq<(Expr, usize)>) -> Option<Type>
    decreases indices.len(),
{
    if indices.len() == 0 {
        Some(t)
    } else {
        match element_of(t, expr_type(env, indices[0].0, None)) {
            Some(u) => indexed_chain(env, u, indices.drop_first()),
            None => None,
        }
    }
}

/// The type of an assignment's target: a declared variable that is not a constant, then its
/// indices (see `indexed_chain`).
pub open spec fn assignment_type(env: TypeEnv, name: Name, indices: Seq<(Expr, usize)>) -> Option<Type> {
    match lookup_variable(env.scopes, name.text@) {
        Some(v) => if v.is_constant {
            None
        } else {
            indexed_chain(env, v.declared_type, indices)
        },
        None => None,
    }
}

/// The environment after a statement, `None` when the statement is refused. A declaration
/// needs a name that its scope has not declared yet and an initializer of exactly the declared
/// type, and then adds the variable; assignments need a target (see `assignment_type`) and a
/// value of exactly its type; `+=`/`-=` follow `binary_type`, `++`/`--` take numbers;
/// conditions are `bool`; `import` and `use` stand only in the global scope (see
/// `library_after`); `foreach` takes an array whose element type is the declared one. A block
/// is checked in a scope of its own (see `block_env`); the counter of a `for` or `foreach` lives
/// in a scope around the loop's block.
pub open spec fn stmt_env(env: TypeEnv, s: Stmt) -> Option<TypeEnv>
    decreases s, 2nat,
{
    match s {
        Stmt::Call(e) => if call_type(env, e) is Some {
            Some(env)
        } else {
            None
        },
        Stmt::Import { path, is_use, .. } => if env.scopes.len() == 1 {
            match library_after(env.library, path@, is_use) {
                Some(library) => Some(TypeEnv { scopes: env.scopes, library }),
                None => None,
            }
        } else {
            None
        },
        Stmt::Declare { declared_type, is_constant, name, initializer } => {
            if find_variable(env.scopes.last(), name.text@) is None && expr_type(env, initializer, Some(declared_type))
                == Some(declared_type) {
                Some(with_variable(env, Variable { name: name.text@, declared_type, is_constant }))
            } else {
                None
            }
        },
        Stmt::Assign { name, indices, value } => match assignment_type(env, name, indices@) {
            Some(t) => if expr_type(env, value, Some(t)) == Some(t) {
                Some(env)
            } else {
                None
            },
            None => None,
        },
        Stmt::CompoundAssign { name, indices, operator, value, .. } => match assignment_type(env, name, indices@) {
            Some(t) => match expr_type(env, value, Some(t)) {
                Some(o) => if binary_type(t, assign_binary(operator), o) is Some {
                    Some(env)
                } else {
                    None
                },
                None => None,
            },
            None => None,
        },
        Stmt::Increment { name, indices, .. } => match assignment_type(env, name, indices@) {
            Some(t) => if t == Type::Int || t == Type::Float {
                Some(env)
            } else {
                None
            },
            None => None,
        },
        Stmt::If { condition, then_branch, else_branch, .. } => {
            proof {
                assert(decreases_to!(s => s->If_then_branch));
                assert(decreases_to!(s->If_then_branch => s->If_then_branch@));
            }
            if expr_type(env, condition, None) != Some(Type::Bool) {
                None
            } else {
                match block_env(env, then_branch@) {
                    None => None,
                    Some(after) => match else_branch {
                        Some(branch) => {
                            proof {
                                assert(decreases_to!(s => s->If_else_branch));
                                assert(decreases_to!(s->If_else_branch => branch));
                                assert(decreases_to!(branch => branch@));
                            }
                            block_env(after, branch@)
                        },
                        None => Some(after),
                    },
                }
            }
        },
        Stmt::While { condition, body, .. } => {
            proof {
                assert(decreases_to!(s => s->While_body));
                assert(decreases_to!(s->While_body => s->While_body@));
            }
            if expr_type(env, condition, None) == Some(Type::Bool) {
                block_env(env, body@)
            } else {
                None
            }
        },
        Stmt::For { .. } => match for_env(open_scope(env, Seq::empty()), s) {
            Some(done) => Some(close_scope(done)),
            None => None,
        },
        Stmt::Foreach { declared_type, name, iterable, body, .. } => {
            proof {
                assert(decreases_to!(s => s->Foreach_body));
                assert(decreases_to!(s->Foreach_body => s->Foreach_body@));
            }
            match expr_type(env, iterable, None) {
                Some(Type::Array(element)) => if *element == declared_type {
                    let counter = Variable { name: name.text@, declared_type, is_constant: false };
                    match block_env(with_variable(open_scope(env, Seq::empty()), counter), body@) {
                        Some(done) => Some(close_scope(done)),
                        None => None,
                    }
                } else {
                    None
                },
                _ => None,
            }
        },
        Stmt::Print(e) => if expr_type(env, e, None) is Some {
            Some(env)
        } else {
            None
        },
        Stmt::Println(e) => if expr_type(env, e, None) is Some {
            Some(env)
        } else {
            None
        },
    }
}

/// The environment after the header and the block of a `for`, checked in the scope that holds
/// its counter: the initializer, a `bool` condition, the update, then the block.
pub open spec fn for_env(env: TypeEnv, s: Stmt) -> Option<TypeEnv>
    decreases s, 1nat,
{
    match s {
        Stmt::For { initializer, condition, update, body, .. } => {
            proof {
                assert(decreases_to!(s => s->For_initializer));
                assert(decreases_to!(s => s->For_update));
                assert(decreases_to!(s => s->For_body));
                assert(decreases_to!(s->For_body => s->For_body@));
            }
            match stmt_env(env, *initializer) {
                Some(header) => if expr_type(header, condition, None) == Some(Type::Bool) {
                    match stmt_env(header, *update) {
                        Some(after) => block_env(after, body@),
                        None => None,
                    }
                } else {
                    None
                },
                None => None,
            }
        },
        _ => None,
    }
}

/// The environment after a block: its statements checked in a scope of their own, which is
/// closed at its end.
pub open spec fn block_env(env: TypeEnv, statements: Seq<Stmt>) -> Option<TypeEnv>
    decreases statements, 1nat,
{
    match stmts_env(open_scope(env, Seq::empty()), statements) {
        Some(done) => Some(close_scope(done)),
        None => None,
    }
}

/// The environment after a sequence of statements, each checked in the environment the ones
/// before it left; `None` when one is refused.
pub open spec fn stmts_env(env: TypeEnv, statements: Seq<Stmt>) -> Option<TypeEnv>
    decreases statements, 0nat,
{
    if statements.len() == 0 {
        Some(env)
    } else {
        match stmt_env(env, statements[0]) {
            Some(next) => stmts_env(next, statements.drop_first()),
            None => None,
        }
    }
}

/// Whether a program passes the checker: its statements, from the initial environment.
pub open spec fn program_checks(statements: Seq<Stmt>) -> bool {
    stmts_env(initial_env(), statements) is Some
}

/// A constant never changes: assigning to it, with or without indices, updating it with
/// `+=`, `-=`, `++` or `--`, and handing it to `push` or `pop` are all refused.
pub proof fn lemma_constants_do_not_change(env: TypeEnv, name: Name, indices: Seq<(Expr, usize)>)
    requires
        lookup_variable(env.scopes, name.text@) matches Some(v) && v.is_constant,
    ensures
        assignment_type(env, name, indices) is None,
        target_type(env, Expr::Variable(name)) is None,
{
}

/// `import` and `use` are refused inside any block or loop, and a second declaration of a
/// name in the same scope is refused.
pub proof fn lemma_directives_global_and_names_unique(env: TypeEnv, s: Stmt)
    ensures
        s is Import && env.scopes.len() != 1 ==> stmt_env(env, s) is None,
        s matches Stmt::Declare { name, .. } && find_variable(env.scopes.last(), name.text@) is Some ==> stmt_env(env, s)
            is None,
{
}

/// Inside a block (an environment with more than the global scope) a statement keeps the
/// library and every scope but the innermost, whose earlier declarations it also keeps.
pub proof fn lemma_statement_frame(env: TypeEnv, s: Stmt)
    requires
        env.scopes.len() > 1,
    ensures
        stmt_env(env, s) matches Some(after) ==> {
            &&& after.library == env.library
            &&& after.scopes.len() == env.scopes.len()
            &&& after.scopes.drop_last() == env.scopes.drop_last()
        },
    decreases s, 2nat,
{
    match s {
        Stmt::If { then_branch, else_branch, .. } => {
            assert(decreases_to!(s => s->If_then_branch));
            assert(decreases_to!(s->If_then_branch => s->If_then_branch@));
            lemma_block_restores(env, then_branch@);
            if let Some(after) = block_env(env, then_branch@) {
                if let Some(branch) = else_branch {
                    assert(decreases_to!(s => s->If_else_branch));
                    assert(decreases_to!(s->If_else_branch => branch));
                    assert(decreases_to!(branch => branch@));
                    lemma_block_restores(after, branch@);
                }
            }
        },
        Stmt::While { body, .. } => {
            assert(decreases_to!(s => s->While_body));
            assert(decreases_to!(s->While_body => s->While_body@));
            lemma_block_restores(env, body@);
        },
        Stmt::For { .. } => {
            lemma_for_frame(open_scope(env, Seq::empty()), s);
            if let Some(done) = for_env(open_scope(env, Seq::empty()), s) {
                assert(close_scope(done).scopes =~= env.scopes);
            }
        },
        Stmt::Foreach { declared_type, name, iterable, body, .. } => {
            assert(decreases_to!(s => s->Foreach_body));
            assert(decreases_to!(s->Foreach_body => s->Foreach_body@));
            let counter = Variable { name: name.text@, declared_type, is_constant: false };
            let inner = with_variable(open_scope(env, Seq::empty()), counter);
            lemma_block_restores(inner, body@);
            if let Some(done) = block_env(inner, body@) {
                assert(inner.scopes.drop_last() =~= env.scopes);
                assert(close_scope(done).scopes =~= env.scopes);
            }
        },
        Stmt::Declare { .. } => {
            if let Some(after) = stmt_env(env, s) {
                assert(after.scopes.drop_last() =~= env.scopes.drop_last());
            }
        },
        _ => {},
    }
}

/// A statement that the checker accepts changes the environment only by what it declares: a
/// declaration adds its variable to the innermost scope and `import` or `use` changes the
/// library alone; every other statement, blocks and loops included, leaves the environment as
/// it was. No statement changes the number of scopes.
pub proof fn lemma_statement_changes_only_declarations(env: TypeEnv, s: Stmt)
    requires
        env.scopes.len() > 0,
    ensures
        stmt_env(env, s) matches Some(after) ==> {
            &&& after.scopes.len() == env.scopes.len()
            &&& match s {
                Stmt::Declare { declared_type, is_constant, name, .. } => after == with_variable(
                    env,
                    Variable { name: name.text@, declared_type, is_constant },
                ),
                Stmt::Import { path, is_use, .. } => after.scopes == env.scopes && library_after(
                    env.library,
                    path@,
                    is_use,
                ) == Some(after.library),
                _ => after == env,
            }
        },
{
    match s {
        Stmt::If { then_branch, else_branch, .. } => {
            lemma_block_restores(env, then_branch@);
            if let Some(after) = block_env(env, then_branch@) {
                if let Some(branch) = else_branch {
                    lemma_block_restores(after, branch@);
                }
            }
        },
        Stmt::While { body, .. } => {
            lemma_block_restores(env, body@);
        },
        Stmt::For { .. } => {
            lemma_for_frame(open_scope(env, Seq::empty()), s);
            if let Some(done) = for_env(open_scope(env, Seq::empty()), s) {
                assert(close_scope(done).scopes =~= env.scopes);
            }
        },
        Stmt::Foreach { declared_type, name, body, .. } => {
            let counter = Variable { name: name.text@, declared_type, is_constant: false };
            let inner = with_variable(open_scope(env, Seq::empty()), counter);
            lemma_block_restores(inner, body@);
            if let Some(done) = block_env(inner, body@) {
                assert(inner.scopes.drop_last() =~= env.scopes);
                assert(close_scope(done).scopes =~= env.scopes);
            }
        },
        _ => {},
    }
}

/// See `lemma_statement_frame`, for the header and block of a `for`.
pub proof fn lemma_for_frame(env: TypeEnv, s: Stmt)
    requires
        env.scopes.len() > 1,
    ensures
        for_env(env, s) matches Some(after) ==> {
            &&& after.library == env.library
            &&& after.scopes.len() == env.scopes.len()
            &&& after.scopes.drop_last() == env.scopes.drop_last()
        },
    decreases s, 1nat,
{
    if let Stmt::For { initializer, update, body, .. } = s {
        assert(decreases_to!(s => s->For_initializer));
        assert(decreases_to!(s => s->For_update));
        assert(decreases_to!(s => s->For_body));
        assert(decreases_to!(s->For_body => s->For_body@));
        lemma_statement_frame(env, *initializer);
        if let Some(header) = stmt_env(env, *initializer) {
            lemma_statement_frame(header, *update);
            if let Some(after) = stmt_env(header, *update) {
                lemma_block_restores(after, body@);
            }
        }
    }
}

/// See `lemma_statement_frame`, for a sequence of statements.
pub proof fn lemma_statements_frame(env: TypeEnv, statements: Seq<Stmt>)
    requires
        env.scopes.len() > 1,
    ensures
        stmts_env(env, statements) matches Some(after) ==> {
            &&& after.library == env.library
            &&& after.scopes.len() == env.scopes.len()
            &&& after.scopes.drop_last() == env.scopes.drop_last()
        },
    decreases statements, 0nat,
{
    if statements.len() > 0 {
        lemma_statement_frame(env, statements[0]);
        if let Some(next) = stmt_env(env, statements[0]) {
            lemma_statements_frame(next, statements.drop_first());
        }
    }
}

/// A block has a scope of its own: what it declares is gone after it, and the environment
/// after a block is the one before it.
pub proof fn lemma_block_restores(env: TypeEnv, statements: Seq<Stmt>)
    requires
        env.scopes.len() > 0,
    ensures
        block_env(env, statements) matches Some(after) ==> after == env,
    decreases statements, 1nat,
{
    let inner = open_scope(env, Seq::empty());
    lemma_statements_frame(inner, statements);
    if let Some(done) = stmts_env(inner, statements) {
        assert(inner.scopes.drop_last() =~= env.scopes);
        assert(close_scope(done).scopes =~= env.scopes);
    }
}

}
