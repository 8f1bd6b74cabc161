use vstd::prelude::*;

use crate::parser::{assign_symbol, binary_symbol, increment_symbol, unary_symbol, Expr, Name, Stmt};
use crate::stdlib::{
    arity, arity_error, array_type_error, call_result, import_error, library_error, library_function, name_message,
    ArrayFunction,
};
use crate::text::line_prefix;
use crate::typing::{
    assignment_type, block_env, call_array, close_scope, element_of, expr_type, find_variable, initial_env,
    lookup_variable, open_scope, stmt_env, stmts_env, target_type, with_variable, TypeEnv, Variable,
};
use crate::value::{type_text, Type};

verus! {

/// The message for a name that no scope declares.
pub open spec fn undeclared_message(name: Name) -> Seq<char> {
    name_message(
        name,
        "La variable '"@ + name.text@ + "' no está declarada. Debe declararse antes de usarla, indicando su tipo."@,
    )
}

/// The message for a constant that an assignment, an update, `push` or `pop` would change.
pub open spec fn constant_message(name: Name) -> Seq<char> {
    name_message(name, "No se puede reasignar la constante '"@ + name.text@ + "'."@)
}

/// The message for a value of type `actual` given to `name`, which needs `expected`.
pub open spec fn mismatch_message(name: Name, expected: Type, actual: Type) -> Seq<char> {
    name_message(
        name,
        "Tipo incompatible para '"@ + name.text@ + "': se esperaba "@ + type_text(expected) + ", se recibió "@
            + type_text(actual) + ". No hay conversiones implícitas."@,
    )
}

/// What the checker reports for an expression that `expr_type` refuses: the first refused part,
/// from left to right, with the line of the construct that refuses it.
pub open spec fn expr_error(env: TypeEnv, e: Expr, expected: Option<Type>) -> Seq<char>
    decreases e, 2nat,
{
    match e {
        Expr::LibraryCall { path, .. } => if call_type_refused(env, e) {
            call_error(env, e)
        } else {
            name_message(path@.last(), "'push' no devuelve un valor; úsalo como instrucción con ';'."@)
        },
        Expr::Literal(_) => "Literal sin tipo de elemento."@,
        Expr::Variable(name) => undeclared_message(name),
        Expr::Array { elements, line } => {
            proof {
                assert(decreases_to!(e => e->Array_elements));
                assert(decreases_to!(e->Array_elements => e->Array_elements@));
            }
            match expected {
                Some(Type::Array(el)) => elements_error(env, elements@, *el, line as nat),
                _ => if elements@.len() == 0 {
                    line_prefix(line as nat) + "un array vacío necesita un tipo declarado, por ejemplo int[] datos = [];"@
                } else {
                    proof {
                        assert(decreases_to!(e->Array_elements@ => e->Array_elements@[0]));
                    }
                    match expr_type(env, elements@[0], None) {
                        None => expr_error(env, elements@[0], None),
                        Some(el) => elements_error(env, elements@, el, line as nat),
                    }
                },
            }
        },
        Expr::Index { array, index, line } => match expr_type(env, *array, None) {
            None => expr_error(env, *array, None),
            Some(t) => index_error(env, t, *index, line as nat),
        },
        Expr::Unary { operator, operand, line } => match expr_type(env, *operand, None) {
            None => expr_error(env, *operand, None),
            Some(t) => line_prefix(line as nat) + ("el operador '"@ + unary_symbol(operator) + "' no admite "@
                + type_text(t) + "."@),
        },
        Expr::Binary { left, operator, right, line } => match expr_type(env, *left, None) {
            None => expr_error(env, *left, None),
            Some(l) => match expr_type(env, *right, None) {
                None => expr_error(env, *right, None),
                Some(r) => line_prefix(line as nat) + ("el operador '"@ + binary_symbol(operator) + "' no admite "@
                    + type_text(l) + " y "@ + type_text(r) + ". No hay conversiones implícitas."@),
            },
        },
    }
}

/// Whether a library call is refused (as opposed to a `push`, which is accepted but gives no value).
pub open spec fn call_type_refused(env: TypeEnv, e: Expr) -> bool {
    crate::typing::call_type(env, e) is None
}

/// What the checker reports for the elements of an array literal with element type `el`: the
/// first element that is refused or has another type.
pub open spec fn elements_error(env: TypeEnv, elements: Seq<Expr>, el: Type, line: nat) -> Seq<char>
    decreases elements, 0nat,
{
    if elements.len() == 0 {
        Seq::empty()
    } else {
        match expr_type(env, elements[0], Some(el)) {
            None => expr_error(env, elements[0], Some(el)),
            Some(t) => if t != el {
                line_prefix(line) + ("elemento de array incompatible: se esperaba "@ + type_text(el) + ", se recibió "@
                    + type_text(t) + ". No hay conversiones implícitas."@)
            } else {
                elements_error(env, elements.drop_first(), el, line)
            },
        }
    }
}

/// What the checker reports for indexing a value of type `array` with `index` at a line: a
/// value that is not an array, then a refused index, then an index that is not an `int`.
pub open spec fn index_error(env: TypeEnv, array: Type, index: Expr, line: nat) -> Seq<char>
    decreases index, 3nat,
{
    if !(array is Array) {
        line_prefix(line) + ("solo se pueden indexar arrays; se recibió "@ + type_text(array) + "."@)
    } else {
        match expr_type(env, index, None) {
            None => expr_error(env, index, None),
            Some(t) => line_prefix(line) + ("el índice debe ser int; se recibió "@ + type_text(t) + "."@),
        }
    }
}

/// What the checker reports for a refused library call (see `call_type`), in the order it
/// checks: the function and the library, the number of arguments, the array's type, the
/// array that `push` and `pop` change, and `push`'s element.
pub open spec fn call_error(env: TypeEnv, e: Expr) -> Seq<char>
    decreases e, 1nat,
{
    match e {
        Expr::LibraryCall { path, receiver, arguments } => {
            let method = receiver is Some;
            if path@.len() == 0 {
                Seq::empty()
            } else {
                let name = path@.last();
                match library_function(env.library, path@, method) {
                    None => library_error(env.library, path@, method),
                    Some(f) => if arguments@.len() != arity(f, method) {
                        arity_error(f, arity(f, method), arguments@.len(), name)
                    } else {
                        match call_array(e) {
                            None => Seq::empty(),
                            Some(array) => {
                                proof {
                                    if receiver is Some {
                                        assert(decreases_to!(e => e->receiver));
                                    } else {
                                        assert(decreases_to!(e => e->arguments));
                                        assert(decreases_to!(e->arguments => e->arguments@));
                                        assert(decreases_to!(e->arguments@ => e->arguments@[0]));
                                    }
                                }
                                match expr_type(env, array, None) {
                                    None => expr_error(env, array, None),
                                    Some(at) => match call_result(f, at) {
                                        None => array_type_error(f, at, name),
                                        Some(_) => if f != ArrayFunction::Len && target_type(env, array) is None {
                                            target_error(env, array, name)
                                        } else if f == ArrayFunction::Push && arguments@.len() > 0 && at is Array {
                                            proof {
                                                assert(decreases_to!(e => e->arguments));
                                                assert(decreases_to!(e->arguments => e->arguments@));
                                                assert(decreases_to!(e->arguments@ => e->arguments@[arguments@.len() - 1]));
                                            }
                                            let el = *at->Array_0;
                                            match expr_type(env, arguments@[arguments@.len() - 1], Some(el)) {
                                                None => expr_error(env, arguments@[arguments@.len() - 1], Some(el)),
                                                Some(t) => mismatch_message(name, el, t),
                                            }
                                        } else {
                                            Seq::empty()
                                        },
                                    },
                                }
                            },
                        }
                    },
                }
            }
        },
        _ => "Se esperaba una llamada de biblioteca."@,
    }
}

/// What the checker reports for the array that `push` or `pop` (named `call`) changes.
pub open spec fn target_error(env: TypeEnv, e: Expr, call: Name) -> Seq<char>
    decreases e, 0nat,
{
    match e {
        Expr::Variable(name) => variable_target_error(env, name),
        Expr::Index { array, index, line } => match target_type(env, *array) {
            None => target_error(env, *array, call),
            Some(t) => index_error(env, t, *index, line as nat),
        },
        _ => name_message(call, "Se necesita una variable array modificable o uno de sus subarrays."@),
    }
}

/// What the checker reports for a variable that may not be changed: undeclared, or constant.
pub open spec fn variable_target_error(env: TypeEnv, name: Name) -> Seq<char> {
    match lookup_variable(env.scopes, name.text@) {
        None => undeclared_message(name),
        Some(_) => constant_message(name),
    }
}

/// What the checker reports for applying `indices` to a value of type `t`: the first index
/// that is refused.
pub open spec fn chain_error(env: TypeEnv, t: Type, indices: Seq<(Expr, usize)>) -> Seq<char>
    decreases indices.len(),
{
    if indices.len() == 0 {
        Seq::empty()
    } else {
        match element_of(t, expr_type(env, indices[0].0, None)) {
            Some(u) => chain_error(env, u, indices.drop_first()),
            None => index_error(env, t, indices[0].0, indices[0].1 as nat),
        }
    }
}

/// What the checker reports for a refused assignment target (see `assignment_type`).
pub open spec fn assignment_error(env: TypeEnv, name: Name, indices: Seq<(Expr, usize)>) -> Seq<char> {
    match lookup_variable(env.scopes, name.text@) {
        None => undeclared_message(name),
        Some(v) => if v.is_constant {
            constant_message(name)
        } else {
            chain_error(env, v.declared_type, indices)
        },
    }
}

/// What the checker reports for a condition that is refused or not `bool`, for the keyword
/// `keyword` at a line.
pub open spec fn condition_error(env: TypeEnv, condition: Expr, keyword: Seq<char>, line: nat) -> Seq<char> {
    match expr_type(env, condition, None) {
        None => expr_error(env, condition, None),
        Some(t) => line_prefix(line) + ("la condición de '"@ + keyword + "' debe ser bool; se recibió "@ + type_text(t)
            + "."@),
    }
}

/// What the checker reports for a statement that `stmt_env` refuses, in the order it checks.
pub open spec fn stmt_error(env: TypeEnv, s: Stmt) -> Seq<char>
    decreases s, 2nat,
{
    match s {
        Stmt::Call(e) => call_error(env, e),
        Stmt::Import { path, line, .. } => if env.scopes.len() != 1 {
            line_prefix(line as nat) + "'import' y 'use' solo se permiten en el ámbito global del archivo."@
        } else {
            import_error(path@, line as nat)
        },
        Stmt::Declare { declared_type, name, initializer, .. } => if find_variable(env.scopes.last(), name.text@) is Some {
            name_message(name, "La variable '"@ + name.text@ + "' ya está declarada."@)
        } else {
            match expr_type(env, initializer, Some(declared_type)) {
                None => expr_error(env, initializer, Some(declared_type)),
                Some(t) => mismatch_message(name, declared_type, t),
            }
        },
        Stmt::Assign { name, indices, value } => match assignment_type(env, name, indices@) {
            None => assignment_error(env, name, indices@),
            Some(t) => match expr_type(env, value, Some(t)) {
                None => expr_error(env, value, Some(t)),
                Some(u) => mismatch_message(name, t, u),
            },
        },
        Stmt::CompoundAssign { name, indices, operator, value, line } => match assignment_type(env, name, indices@) {
            None => assignment_error(env, name, indices@),
            Some(t) => match expr_type(env, value, Some(t)) {
                None => expr_error(env, value, Some(t)),
                Some(o) => line_prefix(line as nat) + ("el operador '"@ + assign_symbol(operator) + "' no admite "@
                    + type_text(t) + " y "@ + type_text(o) + ". No hay conversiones implícitas."@),
            },
        },
        Stmt::Increment { name, indices, operator, line } => match assignment_type(env, name, indices@) {
            None => assignment_error(env, name, indices@),
            Some(t) => line_prefix(line as nat) + ("el operador '"@ + increment_symbol(operator) + "' no admite "@
                + type_text(t) + "."@),
        },
        Stmt::If { condition, then_branch, else_branch, line } => {
            proof {
                assert(decreases_to!(s => s->If_then_branch));
                assert(decreases_to!(s->If_then_branch => s->If_then_branch@));
            }
            if expr_type(env, condition, None) != Some(Type::Bool) {
                condition_error(env, condition, "if"@, line as nat)
            } else {
                match block_env(env, then_branch@) {
                    None => block_error(env, then_branch@),
                    Some(after) => match else_branch {
                        Some(branch) => {
                            proof {
                                assert(decreases_to!(s => s->If_else_branch));
                                assert(decreases_to!(s->If_else_branch => branch));
                                assert(decreases_to!(branch => branch@));
                            }
                            block_error(after, branch@)
                        },
                        None => Seq::empty(),
                    },
                }
            }
        },
        Stmt::While { condition, body, line } => {
            proof {
                assert(decreases_to!(s => s->While_body));
                assert(decreases_to!(s->While_body => s->While_body@));
            }
            if expr_type(env, condition, None) != Some(Type::Bool) {
                condition_error(env, condition, "while"@, line as nat)
            } else {
                block_error(env, body@)
            }
        },
        Stmt::For { .. } => for_error(open_scope(env, Seq::empty()), s),
        Stmt::Foreach { declared_type, name, iterable, body, line } => {
            proof {
                assert(decreases_to!(s => s->Foreach_body));
                assert(decreases_to!(s->Foreach_body => s->Foreach_body@));
            }
            match expr_type(env, iterable, None) {
                None => expr_error(env, iterable, None),
                Some(Type::Array(element)) => if *element != declared_type {
                    mismatch_message(name, declared_type, *element)
                } else {
                    let counter = Variable { name: name.text@, declared_type, is_constant: false };
                    block_error(with_variable(open_scope(env, Seq::empty()), counter), body@)
                },
                Some(t) => line_prefix(line as nat) + ("'foreach' solo recorre arrays; se recibió "@ + type_text(t) + "."@),
            }
        },
        Stmt::Print(e) => expr_error(env, e, None),
        Stmt::Println(e) => expr_error(env, e, None),
    }
}

/// What the checker reports for the header or block of a `for`, in the scope of its counter.
pub open spec fn for_error(env: TypeEnv, s: Stmt) -> Seq<char>
    decreases s, 1nat,
{
    match s {
        Stmt::For { initializer, condition, update, body, line } => {
            proof {
                assert(decreases_to!(s => s->For_initializer));
                assert(decreases_to!(s => s->For_update));
                assert(decreases_to!(s => s->For_body));
                assert(decreases_to!(s->For_body => s->For_body@));
            }
            match stmt_env(env, *initializer) {
                None => stmt_error(env, *initializer),
                Some(header) => if expr_type(header, condition, None) != Some(Type::Bool) {
                    condition_error(header, condition, "for"@, line as nat)
                } else {
                    match stmt_env(header, *update) {
                        None => stmt_error(header, *update),
                        Some(after) => block_error(after, body@),
                    }
                },
            }
        },
        _ => Seq::empty(),
    }
}

/// What the checker reports for a block: its statements in a scope of their own.
pub open spec fn block_error(env: TypeEnv, statements: Seq<Stmt>) -> Seq<char>
    decreases statements, 1nat,
{
    stmts_error(open_scope(env, Seq::empty()), statements)
}

/// What the checker reports for a sequence of statements: the error of the first refused one.
pub open spec fn stmts_error(env: TypeEnv, statements: Seq<Stmt>) -> Seq<char>
    decreases statements, 0nat,
{
    if statements.len() == 0 {
        Seq::empty()
    } else {
        match stmt_env(env, statements[0]) {
            None => stmt_error(env, statements[0]),
            Some(next) => stmts_error(next, statements.drop_first()),
        }
    }
}

/// What the checker reports for a program it refuses.
pub open spec fn program_error(statements: Seq<Stmt>) -> Seq<char> {
    stmts_error(initial_env(), statements)
}

}
