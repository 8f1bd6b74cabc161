use vstd::prelude::*;

use crate::floats::ONE_BITS;
use crate::operators::{lemma_operators_respect_types, lemma_unary_respects_types};
use crate::parser::{assign_binary, BinaryOp, Expr, IncrementOp, Name, Stmt};
use crate::semantics::{
    assigned, called_function, content_at, declared, eval, eval_call, eval_elements, fresh_store,
    lemma_read_after_write, Failure, leave_scope, locate, operation, position, resolve_path, run_block, run_each,
    run_for, run_stmt, run_stmts, run_while, slot_in, store_with, target_of, then_run, update_at, CallEval, Eval,
    Outcome, Run, Store, TargetEval,
};
use crate::stdlib::{call_effect, library_function, ArrayFunction, ArrayLibrary};
use crate::typing::{
    assignment_type, block_env, call_array, call_type, close_scope, elements_have_type, expr_type, find_variable,
    for_env, indexed_chain, initial_env, lemma_block_restores, lemma_for_frame, lookup_variable, open_scope,
    program_checks, stmt_env, stmts_env, target_type, with_variable, TypeEnv, Variable,
};

use crate::value::{has_type, value_type_of, Content, Type};

verus! {

/// The store holds the variables that the environment declares, scope by scope and in the same
/// order, each with a value of its declared type.
pub open spec fn store_agrees(store: Store, env: TypeEnv) -> bool {
    &&& store.len() == env.scopes.len()
    &&& forall|i: int| 0 <= i < store.len() ==> #[trigger] store[i].len() == env.scopes[i].len()
    &&& forall|i: int, j: int|
        #![trigger store[i][j]]
        0 <= i < store.len() && 0 <= j < store[i].len() ==> store[i][j].0 == env.scopes[i][j].name && has_type(
            store[i][j].1,
            env.scopes[i][j].declared_type,
        )
}

/// The type of what `n` indexings reach in a value of type `t`.
pub open spec fn element_at_depth(t: Type, n: nat) -> Option<Type>
    decreases n,
{
    if n == 0 {
        Some(t)
    } else {
        match t {
            Type::Array(e) => element_at_depth(*e, (n - 1) as nat),
            _ => None,
        }
    }
}

/// One more indexing takes the element type of what `n` indexings reach.
proof fn lemma_depth_step(t: Type, n: nat)
    ensures
        element_at_depth(t, n + 1) == match element_at_depth(t, n) {
            Some(Type::Array(e)) => Some(*e),
            _ => None,
        },
    decreases n,
{
    reveal_with_fuel(element_at_depth, 2);
    if n > 0 {
        if let Type::Array(e) = t {
            lemma_depth_step(*e, (n - 1) as nat);
        }
    }
}

/// What a path reaches in a value of a type has the type at that depth.
proof fn lemma_content_at_typed(x: Content, t: Type, path: Seq<int>)
    requires
        has_type(x, t),
        content_at(x, path) is Some,
    ensures
        element_at_depth(t, path.len()) is Some,
        has_type(content_at(x, path)->0, element_at_depth(t, path.len())->0),
    decreases path.len(),
{
    if path.len() > 0 {
        if let (Content::Array(xs), Type::Array(e)) = (x, t) {
            assert(has_type(xs[path[0]], *e));
            lemma_content_at_typed(xs[path[0]], *e, path.drop_first());
        }
    }
}

/// Writing a value of the type at a path's depth keeps a value of its type.
proof fn lemma_update_at_typed(x: Content, t: Type, path: Seq<int>, new: Content)
    requires
        has_type(x, t),
        content_at(x, path) is Some,
        element_at_depth(t, path.len()) matches Some(u) && has_type(new, u),
    ensures
        update_at(x, path, new) matches Some(y) && has_type(y, t),
    decreases path.len(),
{
    if path.len() > 0 {
        if let (Content::Array(xs), Type::Array(e)) = (x, t) {
            let k = path[0];
            assert(has_type(xs[k], *e));
            lemma_update_at_typed(xs[k], *e, path.drop_first(), new);
            let inner = update_at(xs[k], path.drop_first(), new)->0;
            assert forall|m: int| 0 <= m < xs.update(k, inner).len() implies has_type(#[trigger] xs.update(k, inner)[m], *e) by {
                if m != k {
                    assert(has_type(xs[m], *e));
                }
            }
        }
    }
}

/// Replacing the value of a variable by one of its declared type keeps the store in
/// agreement.
proof fn lemma_store_with_agrees(store: Store, env: TypeEnv, i: int, j: int, c: Content)
    requires
        store_agrees(store, env),
        0 <= i < store.len(),
        0 <= j < store[i].len(),
        has_type(c, env.scopes[i][j].declared_type),
    ensures
        store_agrees(store_with(store, i, j, c), env),
{
    let after = store_with(store, i, j, c);
    assert forall|a: int| 0 <= a < after.len() implies #[trigger] after[a].len() == env.scopes[a].len() by {
        assert(store[a].len() == env.scopes[a].len());
    }
    assert forall|a: int, b: int| #![trigger after[a][b]] 0 <= a < after.len() && 0 <= b < after[a].len() implies after[a][b].0
        == env.scopes[a][b].name && has_type(after[a][b].1, env.scopes[a][b].declared_type) by {
        assert(store[a].len() == env.scopes[a].len());
        assert(store[a][b].0 == env.scopes[a][b].name);
    }
}

/// One scope of the store holds the variables of one scope of the environment.
pub open spec fn scope_agrees(values: Seq<(Seq<char>, Content)>, variables: Seq<Variable>) -> bool {
    &&& values.len() == variables.len()
    &&& forall|j: int| 0 <= j < values.len() ==> #[trigger] values[j].0 == variables[j].name
}

proof fn lemma_slot_agrees(values: Seq<(Seq<char>, Content)>, variables: Seq<Variable>, name: Seq<char>)
    requires
        scope_agrees(values, variables),
    ensures
        match find_variable(variables, name) {
            Some(v) => slot_in(values, name) matches Some(j) && 0 <= j < values.len() && variables[j] == v,
            None => slot_in(values, name) is None,
        },
    decreases values.len(),
{
    if values.len() > 0 {
        assert(values.last().0 == variables.last().name);
        if values.last().0 != name {
            assert(scope_agrees(values.drop_last(), variables.drop_last()));
            lemma_slot_agrees(values.drop_last(), variables.drop_last(), name);
        }
    }
}

/// Without their innermost scopes, the store and the environment still agree.
pub proof fn lemma_agrees_drop_last(store: Store, env: TypeEnv)
    requires
        store_agrees(store, env),
        store.len() > 0,
    ensures
        store_agrees(store.drop_last(), TypeEnv { scopes: env.scopes.drop_last(), library: env.library }),
{
    let inner = TypeEnv { scopes: env.scopes.drop_last(), library: env.library };
    let s = store.drop_last();
    assert forall|i: int| 0 <= i < s.len() implies #[trigger] s[i].len() == inner.scopes[i].len() by {
        assert(s[i] == store[i]);
        assert(inner.scopes[i] == env.scopes[i]);
        assert(store[i].len() == env.scopes[i].len());
    }
    assert forall|i: int, j: int| #![trigger s[i][j]] 0 <= i < s.len() && 0 <= j < s[i].len() implies s[i][j].0
        == inner.scopes[i][j].name && has_type(s[i][j].1, inner.scopes[i][j].declared_type) by {
        assert(s[i] == store[i]);
        assert(inner.scopes[i] == env.scopes[i]);
        assert(store[i][j].0 == env.scopes[i][j].name);
    }
}

/// A name finds the same variable in the store as in the environment.
pub proof fn lemma_locate_agrees(store: Store, env: TypeEnv, name: Seq<char>)
    requires
        store_agrees(store, env),
    ensures
        match lookup_variable(env.scopes, name) {
            Some(v) => locate(store, name) matches Some((i, j)) && 0 <= i < store.len() && 0 <= j < store[i].len()
                && env.scopes[i][j] == v,
            None => locate(store, name) is None,
        },
    decreases store.len(),
{
    if store.len() > 0 {
        let last = store.len() - 1;
        assert(store[last].len() == env.scopes[last].len());
        assert forall|j: int| 0 <= j < store.last().len() implies #[trigger] store.last()[j].0 == env.scopes.last()[j].name by {
            assert(store[last][j].0 == env.scopes[last][j].name);
        }
        lemma_slot_agrees(store.last(), env.scopes.last(), name);
        if find_variable(env.scopes.last(), name) is None {
            let inner = TypeEnv { scopes: env.scopes.drop_last(), library: env.library };
            lemma_agrees_drop_last(store, env);
            lemma_locate_agrees(store.drop_last(), inner, name);
        }
    }
}


/// Whether an expression has the shape the parser gives it: every library call names its
/// function (its path is not empty), and every literal has a type and holds a value of it.
/// The parser writes literals of the basic types only, for which the latter always holds; an
/// array value written as a literal would be typed by its first element alone.
pub open spec fn expr_ready(e: Expr) -> bool
    decreases e, 1nat,
{
    match e {
        Expr::LibraryCall { path, receiver, arguments } => {
            proof {
                assert(decreases_to!(e => e->arguments));
                assert(decreases_to!(e->arguments => e->arguments@));
            }
            path@.len() > 0 && (match receiver {
                Some(r) => expr_ready(*r),
                None => true,
            }) && exprs_ready(arguments@)
        },
        Expr::Literal(v) => value_type_of(v) matches Some(t) && has_type(v@, t),
        Expr::Variable(_) => true,
        Expr::Array { elements, .. } => {
            proof {
                assert(decreases_to!(e => e->Array_elements));
                assert(decreases_to!(e->Array_elements => e->Array_elements@));
            }
            exprs_ready(elements@)
        },
        Expr::Index { array, index, .. } => expr_ready(*array) && expr_ready(*index),
        Expr::Unary { operand, .. } => expr_ready(*operand),
        Expr::Binary { left, right, .. } => expr_ready(*left) && expr_ready(*right),
    }
}

/// Whether every expression of a sequence is ready (see `expr_ready`).
pub open spec fn exprs_ready(es: Seq<Expr>) -> bool
    decreases es, 0nat,
{
    if es.len() == 0 {
        true
    } else {
        expr_ready(es[0]) && exprs_ready(es.drop_first())
    }
}

/// Appending a ready expression keeps a sequence ready.
pub proof fn lemma_exprs_ready_push(es: Seq<Expr>, e: Expr)
    requires
        exprs_ready(es),
        expr_ready(e),
    ensures
        exprs_ready(es.push(e)),
    decreases es.len(),
{
    if es.len() > 0 {
        assert(es.push(e).drop_first() =~= es.drop_first().push(e));
        assert(es.push(e)[0] == es[0]);
        lemma_exprs_ready_push(es.drop_first(), e);
    } else {
        assert(es.push(e).drop_first() =~= Seq::<Expr>::empty());
        assert(es.push(e)[0] == e);
        assert(exprs_ready(Seq::<Expr>::empty()));
    }
}

/// Appending a ready statement keeps a sequence ready.
pub proof fn lemma_stmts_ready_push(ss: Seq<Stmt>, s: Stmt)
    requires
        stmts_ready(ss),
        stmt_ready(s),
    ensures
        stmts_ready(ss.push(s)),
    decreases ss.len(),
{
    if ss.len() > 0 {
        assert(ss.push(s).drop_first() =~= ss.drop_first().push(s));
        assert(ss.push(s)[0] == ss[0]);
        lemma_stmts_ready_push(ss.drop_first(), s);
    } else {
        assert(ss.push(s).drop_first() =~= Seq::<Stmt>::empty());
        assert(ss.push(s)[0] == s);
        assert(stmts_ready(Seq::<Stmt>::empty()));
    }
}

/// Each expression of a ready sequence is ready.
pub proof fn lemma_exprs_ready(es: Seq<Expr>)
    requires
        exprs_ready(es),
    ensures
        forall|k: int| 0 <= k < es.len() ==> expr_ready(#[trigger] es[k]),
    decreases es.len(),
{
    if es.len() > 0 {
        lemma_exprs_ready(es.drop_first());
        assert forall|k: int| 0 <= k < es.len() implies expr_ready(#[trigger] es[k]) by {
            if k > 0 {
                assert(es.drop_first()[k - 1] == es[k]);
            }
        }
    }
}

/// The function a checked call runs is the one its last name gives.
proof fn lemma_called_function(library: ArrayLibrary, e: Expr, f: ArrayFunction)
    requires
        e is LibraryCall,
        library_function(library, e->path@, e->receiver is Some) == Some(f),
    ensures
        e->path@.len() > 0,
        called_function(e->path@.last().text@) == f,
{
    reveal_strlit("len");
    reveal_strlit("push");
    reveal_strlit("pop");
    assert("len"@[0] != "push"@[0]);
    assert("len"@[0] != "pop"@[0]);
    assert("pop"@.len() != "push"@.len());
}

/// A changeable array has the type of the expression that names it.
proof fn lemma_target_type(env: TypeEnv, e: Expr)
    requires
        target_type(env, e) is Some,
    ensures
        target_type(env, e) == expr_type(env, e, None),
    decreases e,
{
    if let Expr::Index { array, .. } = e {
        lemma_target_type(env, *array);
    }
}

/// Evaluating a checked expression keeps the store in agreement with the environment, and a
/// value it gives has the type that the checker gave the expression.
pub proof fn lemma_eval_typed(store: Store, env: TypeEnv, e: Expr, expected: Option<Type>)
    requires
        store_agrees(store, env),
        expr_type(env, e, expected) is Some,
        expr_ready(e),
    ensures
        eval(store, e) matches Eval::Value(c, after) ==> has_type(c, expr_type(env, e, expected)->0) && store_agrees(after, env),
        eval(store, e) matches Eval::Error(f) ==> !(f is Unchecked),
    decreases e, 2nat,
{
    match e {
        Expr::LibraryCall { .. } => {
            lemma_call_typed(store, env, e);
        },
        Expr::Literal(v) => {},
        Expr::Variable(name) => {
            lemma_locate_agrees(store, env, name.text@);
        },
        Expr::Array { elements, .. } => {
            assert(decreases_to!(e => e->Array_elements));
            assert(decreases_to!(e->Array_elements => e->Array_elements@));
            let element = expr_type(env, e, expected)->0->Array_0;
            lemma_elements_typed(store, env, elements@, *element);
        },
        Expr::Index { array, index, .. } => {
            lemma_eval_typed(store, env, *array, None);
            if let Eval::Value(a, s1) = eval(store, *array) {
                lemma_eval_typed(s1, env, *index, None);
                if let (Content::Array(xs), Type::Array(u)) = (a, expr_type(env, *array, None)->0) {
                    if let Eval::Value(ix, s2) = eval(s1, *index) {
                        if let Some(k) = position(Some(a), ix) {
                            assert(has_type(xs[k], *u));
                        }
                    }
                }
            }
        },
        Expr::Unary { operator, operand, .. } => {
            lemma_eval_typed(store, env, *operand, None);
            if let Eval::Value(c, s1) = eval(store, *operand) {
                lemma_unary_respects_types(operator, c, expr_type(env, *operand, None)->0);
            }
        },
        Expr::Binary { left, operator, right, .. } => {
            lemma_eval_typed(store, env, *left, None);
            if let Eval::Value(l, s1) = eval(store, *left) {
                lemma_eval_typed(s1, env, *right, None);
                if let Eval::Value(r, s2) = eval(s1, *right) {
                    lemma_operators_respect_types(l, operator, r, expr_type(env, *left, None)->0, expr_type(env, *right, None)->0);
                }
            }
        },
    }
}

/// Evaluating checked elements, each of the element type, gives an array of that type.
proof fn lemma_elements_typed(store: Store, env: TypeEnv, elements: Seq<Expr>, element: Type)
    requires
        store_agrees(store, env),
        elements_have_type(env, elements, element),
        exprs_ready(elements),
    ensures
        eval_elements(store, elements) matches Eval::Value(c, after) ==> has_type(c, Type::Array(Box::new(element)))
            && store_agrees(after, env),
        eval_elements(store, elements) matches Eval::Error(f) ==> !(f is Unchecked),
    decreases elements, 0nat,
{
    if elements.len() > 0 {
        lemma_eval_typed(store, env, elements[0], Some(element));
        if let Eval::Value(c, s1) = eval(store, elements[0]) {
            assert(decreases_to!(elements => elements.drop_first()));
            lemma_elements_typed(s1, env, elements.drop_first(), element);
            if let Eval::Value(Content::Array(cs), s2) = eval_elements(s1, elements.drop_first()) {
                assert forall|k: int| 0 <= k < (seq![c] + cs).len() implies has_type(#[trigger] (seq![c] + cs)[k], element) by {
                    if k > 0 {
                        assert((seq![c] + cs)[k] == cs[k - 1]);
                    }
                }
            }
        }
    }
}

/// A checked library call keeps the store in agreement, and a value it must give has the
/// type the checker gave it.
proof fn lemma_call_typed(store: Store, env: TypeEnv, e: Expr)
    requires
        store_agrees(store, env),
        call_type(env, e) is Some,
        expr_ready(e),
    ensures
        eval_call(store, e) matches CallEval::Done(result, after) ==> store_agrees(after, env) && (call_type(env, e)->0 matches Some(
            t,
        ) ==> result matches Some(c) && has_type(c, t)),
        eval_call(store, e) matches CallEval::Error(f) ==> !(f is Unchecked),
    decreases e, 1nat,
{
    if let Expr::LibraryCall { path, receiver, arguments } = e {
        let f = library_function(env.library, path@, receiver is Some)->0;
        lemma_called_function(env.library, e, f);
        let array = call_array(e)->0;
        lemma_exprs_ready(arguments@);
        if receiver is Some {
            assert(decreases_to!(e => e->receiver));
        } else {
            assert(decreases_to!(e => e->arguments));
            assert(decreases_to!(e->arguments => e->arguments@));
            assert(decreases_to!(e->arguments@ => e->arguments@[0]));
        }
        let array_type = expr_type(env, array, None)->0;
        if f == ArrayFunction::Len {
            lemma_eval_typed(store, env, array, None);
        } else {
            lemma_target_type(env, array);
            lemma_target_typed(store, env, array, path@.last());
            if let TargetEval::Found(i, j, ps, s1) = target_of(store, array, path@.last()) {
                let declared = env.scopes[i][j].declared_type;
                let element = *array_type->Array_0;
                let argument = if f == ArrayFunction::Push {
                    assert(decreases_to!(e => e->arguments));
                    assert(decreases_to!(e->arguments => e->arguments@));
                    assert(decreases_to!(e->arguments@ => e->arguments@[arguments@.len() - 1]));
                    lemma_eval_typed(s1, env, arguments@[arguments@.len() - 1], Some(element));
                    eval(s1, arguments@[arguments@.len() - 1])
                } else {
                    Eval::Value(Content::Int(0), s1)
                };
                if let Eval::Value(v, s2) = argument {
                    assert(s2[i].len() == env.scopes[i].len());
                    assert(has_type(s2[i][j].1, declared));
                    if content_at(s2[i][j].1, ps) is Some {
                        lemma_content_at_typed(s2[i][j].1, declared, ps);
                    }
                    if let Some(Content::Array(xs)) = content_at(s2[i][j].1, ps) {
                        let arg = if f == ArrayFunction::Push { Some(v) } else { None };
                        if let Some((result, after)) = call_effect(f, xs, arg) {
                            assert(has_type(Content::Array(after), array_type)) by {
                                if f == ArrayFunction::Pop {
                                    assert forall|k: int| 0 <= k < after.len() implies has_type(#[trigger] after[k], element) by {
                                        assert(after[k] == xs[k]);
                                    }
                                } else {
                                    assert forall|k: int| 0 <= k < after.len() implies has_type(#[trigger] after[k], element) by {
                                        if k < xs.len() {
                                            assert(after[k] == xs[k]);
                                        }
                                    }
                                }
                            }
                            if f == ArrayFunction::Pop {
                                assert(has_type(xs[xs.len() - 1], element));
                            }
                            lemma_update_at_typed(s2[i][j].1, declared, ps, Content::Array(after));
                            lemma_store_with_agrees(s2, env, i, j, update_at(s2[i][j].1, ps, Content::Array(after))->0);
                        }
                    }
                }
            }
        }
    }
}

/// Resolving the array that a checked `push` or `pop` changes keeps the store in agreement,
/// and finds a variable whose declared type, at the depth of the path, is the array's type.
proof fn lemma_target_typed(store: Store, env: TypeEnv, e: Expr, call: Name)
    requires
        store_agrees(store, env),
        target_type(env, e) is Some,
        expr_ready(e),
    ensures
        target_of(store, e, call) matches TargetEval::Found(i, j, ps, after) ==> {
            &&& store_agrees(after, env)
            &&& 0 <= i < env.scopes.len()
            &&& 0 <= j < env.scopes[i].len()
            &&& element_at_depth(env.scopes[i][j].declared_type, ps.len()) == target_type(env, e)
        },
        target_of(store, e, call) matches TargetEval::Error(f) ==> !(f is Unchecked),
    decreases e, 0nat,
{
    match e {
        Expr::Variable(name) => {
            lemma_locate_agrees(store, env, name.text@);
        },
        Expr::Index { array, index, .. } => {
            lemma_target_typed(store, env, *array, call);
            if let TargetEval::Found(i, j, ps, s1) = target_of(store, *array, call) {
                lemma_eval_typed(s1, env, *index, None);
                lemma_depth_step(env.scopes[i][j].declared_type, ps.len());
                if let Eval::Value(ix, s2) = eval(s1, *index) {
                    assert(s2[i].len() == env.scopes[i].len());
                    assert(has_type(s2[i][j].1, env.scopes[i][j].declared_type));
                    if content_at(s2[i][j].1, ps) is Some {
                        lemma_content_at_typed(s2[i][j].1, env.scopes[i][j].declared_type, ps);
                    }
                }
            }
        },
        _ => {},
    }
}


/// A new innermost scope whose variables have their declared types keeps the agreement.
proof fn lemma_push_agrees(store: Store, env: TypeEnv, values: Seq<(Seq<char>, Content)>, variables: Seq<Variable>)
    requires
        store_agrees(store, env),
        values.len() == variables.len(),
        forall|k: int| 0 <= k < values.len() ==> #[trigger] values[k].0 == variables[k].name && has_type(values[k].1, variables[k].declared_type),
    ensures
        store_agrees(store.push(values), TypeEnv { scopes: env.scopes.push(variables), library: env.library }),
{
    let after = store.push(values);
    let scopes = env.scopes.push(variables);
    assert forall|a: int| 0 <= a < after.len() implies #[trigger] after[a].len() == scopes[a].len() by {
        if a < store.len() {
            assert(store[a].len() == env.scopes[a].len());
        }
    }
    assert forall|a: int, b: int| #![trigger after[a][b]] 0 <= a < after.len() && 0 <= b < after[a].len() implies after[a][b].0
        == scopes[a][b].name && has_type(after[a][b].1, scopes[a][b].declared_type) by {
        if a < store.len() {
            assert(store[a].len() == env.scopes[a].len());
            assert(store[a][b].0 == env.scopes[a][b].name);
        } else {
            assert(values[b].0 == variables[b].name);
        }
    }
}

/// A declaration of a value of the declared type keeps the agreement.
proof fn lemma_declared_agrees(store: Store, env: TypeEnv, name: Seq<char>, c: Content, v: Variable)
    requires
        store_agrees(store, env),
        store.len() > 0,
        v.name == name,
        has_type(c, v.declared_type),
    ensures
        store_agrees(declared(store, name, c), with_variable(env, v)),
{
    let after = declared(store, name, c);
    let scopes = with_variable(env, v).scopes;
    let last = store.len() - 1;
    assert(store[last].len() == env.scopes[last].len());
    assert forall|a: int| 0 <= a < after.len() implies #[trigger] after[a].len() == scopes[a].len() by {
        assert(store[a].len() == env.scopes[a].len());
    }
    assert forall|a: int, b: int| #![trigger after[a][b]] 0 <= a < after.len() && 0 <= b < after[a].len() implies after[a][b].0
        == scopes[a][b].name && has_type(after[a][b].1, scopes[a][b].declared_type) by {
        assert(store[a].len() == env.scopes[a].len());
        if a != last || b < store[last].len() {
            assert(store[a][b].0 == env.scopes[a][b].name);
        }
    }
}

/// Storing a value of the target's type at a path of the variable keeps the agreement.
proof fn lemma_assigned_typed(store: Store, env: TypeEnv, i: int, j: int, path: Seq<int>, c: Content, t: Type, fuel: nat, line: nat)
    requires
        store_agrees(store, env),
        0 <= i < env.scopes.len(),
        0 <= j < env.scopes[i].len(),
        element_at_depth(env.scopes[i][j].declared_type, path.len()) == Some(t),
        has_type(c, t),
    ensures
        assigned(store, i, j, path, c, fuel, line) matches Run::Done(after, _, _) ==> store_agrees(after, env),
        assigned(store, i, j, path, c, fuel, line) matches Run::Error(_, f) ==> !(f is Unchecked),
{
    assert(store[i].len() == env.scopes[i].len());
    assert(has_type(store[i][j].1, env.scopes[i][j].declared_type));
    lemma_read_after_write(store[i][j].1, path, c);
    if update_at(store[i][j].1, path, c) is Some {
        lemma_update_at_typed(store[i][j].1, env.scopes[i][j].declared_type, path, c);
        lemma_store_with_agrees(store, env, i, j, update_at(store[i][j].1, path, c)->0);
    }
}

/// Whether every index expression of an assignment has typed literals.
pub open spec fn indices_ready(indices: Seq<(Expr, usize)>) -> bool {
    forall|k: int| 0 <= k < indices.len() ==> expr_ready(#[trigger] indices[k].0)
}

/// Resolving the indices of a checked assignment keeps the agreement and reaches a position
/// whose type, at the depth of the path, is the target's type.
proof fn lemma_resolve_typed(
    store: Store,
    env: TypeEnv,
    i: int,
    j: int,
    path: Seq<int>,
    indices: Seq<(Expr, usize)>,
    reached: Type,
    t: Type,
    line: nat,
)
    requires
        store_agrees(store, env),
        0 <= i < env.scopes.len(),
        0 <= j < env.scopes[i].len(),
        element_at_depth(env.scopes[i][j].declared_type, path.len()) == Some(reached),
        indexed_chain(env, reached, indices) == Some(t),
        indices_ready(indices),
    ensures
        resolve_path(store, i, j, path, indices, line) matches TargetEval::Found(_, _, ps, after) ==> store_agrees(after, env)
            && element_at_depth(env.scopes[i][j].declared_type, ps.len()) == Some(t),
        resolve_path(store, i, j, path, indices, line) matches TargetEval::Error(f) ==> !(f is Unchecked),
    decreases indices.len(),
{
    if indices.len() > 0 {
        assert(expr_ready(indices[0].0));
        lemma_eval_typed(store, env, indices[0].0, None);
        if let Eval::Value(ix, s1) = eval(store, indices[0].0) {
            assert(s1[i].len() == env.scopes[i].len());
            assert(has_type(s1[i][j].1, env.scopes[i][j].declared_type));
            if content_at(s1[i][j].1, path) is Some {
                lemma_content_at_typed(s1[i][j].1, env.scopes[i][j].declared_type, path);
            }
            if let Some(k) = position(content_at(s1[i][j].1, path), ix) {
                let u = *reached->Array_0;
                lemma_depth_step(env.scopes[i][j].declared_type, path.len());
                assert(path.push(k).len() == path.len() + 1);
                assert forall|m: int| 0 <= m < indices.drop_first().len() implies expr_ready(
                    #[trigger] indices.drop_first()[m].0,
                ) by {
                    assert(indices.drop_first()[m] == indices[m + 1]);
                }
                lemma_resolve_typed(s1, env, i, j, path.push(k), indices.drop_first(), u, t, line);
            }
        }
    }
}


/// A statement with the shape the parser gives it: its expressions are ready (see
/// `expr_ready`), a call statement holds a library call, and the update of each `for` is an
/// assignment (`=`, `+=`, `-=`, `++` or `--`). Type preservation needs this of a program
/// besides passing the checker.
pub open spec fn stmt_ready(s: Stmt) -> bool
    decreases s, 1nat,
{
    match s {
        Stmt::Call(e) => e is LibraryCall && expr_ready(e),
        Stmt::Import { .. } => true,
        Stmt::Declare { initializer, .. } => expr_ready(initializer),
        Stmt::Assign { indices, value, .. } => indices_ready(indices@) && expr_ready(value),
        Stmt::CompoundAssign { indices, value, .. } => indices_ready(indices@) && expr_ready(value),
        Stmt::Increment { indices, .. } => indices_ready(indices@),
        Stmt::If { condition, then_branch, else_branch, .. } => {
            proof {
                assert(decreases_to!(s => s->If_then_branch));
                assert(decreases_to!(s->If_then_branch => s->If_then_branch@));
            }
            expr_ready(condition) && stmts_ready(then_branch@) && match else_branch {
                Some(b) => {
                    proof {
                        assert(decreases_to!(s => s->If_else_branch));
                        assert(decreases_to!(s->If_else_branch => b));
                        assert(decreases_to!(b => b@));
                    }
                    stmts_ready(b@)
                },
                None => true,
            }
        },
        Stmt::While { condition, body, .. } => {
            proof {
                assert(decreases_to!(s => s->While_body));
                assert(decreases_to!(s->While_body => s->While_body@));
            }
            expr_ready(condition) && stmts_ready(body@)
        },
        Stmt::For { initializer, condition, update, body, .. } => {
            proof {
                assert(decreases_to!(s => s->For_body));
                assert(decreases_to!(s->For_body => s->For_body@));
            }
            &&& stmt_ready(*initializer)
            &&& expr_ready(condition)
            &&& (*update is Assign || *update is CompoundAssign || *update is Increment)
            &&& stmt_ready(*update)
            &&& stmts_ready(body@)
        },
        Stmt::Foreach { iterable, body, .. } => {
            proof {
                assert(decreases_to!(s => s->Foreach_body));
                assert(decreases_to!(s->Foreach_body => s->Foreach_body@));
            }
            expr_ready(iterable) && stmts_ready(body@)
        },
        Stmt::Print(e) => expr_ready(e),
        Stmt::Println(e) => expr_ready(e),
    }
}

/// Whether every statement of a sequence is ready (see `stmt_ready`).
pub open spec fn stmts_ready(statements: Seq<Stmt>) -> bool
    decreases statements, 0nat,
{
    if statements.len() == 0 {
        true
    } else {
        stmt_ready(statements[0]) && stmts_ready(statements.drop_first())
    }
}

/// A checked statement keeps the number of scopes.
proof fn lemma_scope_count(env: TypeEnv, s: Stmt)
    requires
        env.scopes.len() > 0,
    ensures
        stmt_env(env, s) matches Some(after) ==> after.scopes.len() == env.scopes.len(),
{
    match s {
        Stmt::If { then_branch, else_branch, .. } => {
            lemma_block_restores(env, then_branch@);
            if let Some(after) = block_env(env, then_branch@) {
                if let Some(branch) = else_branch {
                    lemma_block_restores(after, branch@);
                }
            }
        },
        Stmt::While { body, .. } => {
            lemma_block_restores(env, body@);
        },
        Stmt::For { .. } => {
            lemma_for_frame(open_scope(env, Seq::empty()), s);
        },
        Stmt::Foreach { declared_type, name, body, .. } => {
            let counter = Variable { name: name.text@, declared_type, is_constant: false };
            lemma_block_restores(with_variable(open_scope(env, Seq::empty()), counter), body@);
        },
        _ => {},
    }
}

/// Agreement depends only on the scopes.
proof fn lemma_agrees_same_scopes(store: Store, env: TypeEnv, other: TypeEnv)
    requires
        store_agrees(store, env),
        other.scopes == env.scopes,
    ensures
        store_agrees(store, other),
{
}

/// Running a checked statement keeps the store in agreement with the environment that the
/// checker reaches after it.
pub proof fn lemma_stmt_typed(store: Store, env: TypeEnv, s: Stmt, fuel: nat)
    requires
        store_agrees(store, env),
        env.scopes.len() > 0,
        stmt_env(env, s) is Some,
        stmt_ready(s),
    ensures
        run_stmt(store, s, fuel) matches Run::Done(after, _, _) ==> store_agrees(after, stmt_env(env, s)->0),
        run_stmt(store, s, fuel) matches Run::Error(_, f) ==> !(f is Unchecked),
    decreases s, 3nat, 1nat,
{
    match s {
        Stmt::Call(e) => {
            lemma_call_typed(store, env, e);
        },
        Stmt::Import { .. } => {},
        Stmt::Declare { declared_type, is_constant, name, initializer } => {
            lemma_eval_typed(store, env, initializer, Some(declared_type));
            if let Eval::Value(c, s1) = eval(store, initializer) {
                lemma_declared_agrees(s1, env, name.text@, c, Variable { name: name.text@, declared_type, is_constant });
            }
        },
        Stmt::Assign { .. } => {
            lemma_assignment_typed(store, env, s, fuel);
        },
        Stmt::CompoundAssign { .. } => {
            lemma_assignment_typed(store, env, s, fuel);
        },
        Stmt::Increment { .. } => {
            lemma_assignment_typed(store, env, s, fuel);
        },
        Stmt::If { .. } => {
            lemma_if_typed(store, env, s, fuel);
        },
        Stmt::While { body, .. } => {
            lemma_block_restores(env, body@);
            lemma_while_typed(store, env, s, fuel);
        },
        Stmt::For { .. } => {
            lemma_for_stmt_typed(store, env, s, fuel);
        },
        Stmt::Foreach { .. } => {
            lemma_foreach_stmt_typed(store, env, s, fuel);
        },
        Stmt::Print(e) => {
            lemma_eval_typed(store, env, e, None);
        },
        Stmt::Println(e) => {
            lemma_eval_typed(store, env, e, None);
        },
    }
}

/// See `lemma_stmt_typed`, for `=`, `+=`, `-=`, `++` and `--`.
proof fn lemma_assignment_typed(store: Store, env: TypeEnv, s: Stmt, fuel: nat)
    requires
        store_agrees(store, env),
        s is Assign || s is CompoundAssign || s is Increment,
        stmt_env(env, s) is Some,
        stmt_ready(s),
    ensures
        run_stmt(store, s, fuel) matches Run::Done(after, _, _) ==> store_agrees(after, env),
        run_stmt(store, s, fuel) matches Run::Error(_, f) ==> !(f is Unchecked),
{
    match s {
        Stmt::Assign { name, indices, value } => {
            let t = assignment_type(env, name, indices@)->0;
            lemma_locate_agrees(store, env, name.text@);
            if let Some((i, j)) = locate(store, name.text@) {
                lemma_resolve_typed(store, env, i, j, Seq::empty(), indices@, env.scopes[i][j].declared_type, t, name.line as nat);
                if let TargetEval::Found(_, _, ps, s1) = resolve_path(store, i, j, Seq::empty(), indices@, name.line as nat) {
                    lemma_eval_typed(s1, env, value, Some(t));
                    if let Eval::Value(c, s2) = eval(s1, value) {
                        lemma_assigned_typed(s2, env, i, j, ps, c, t, fuel, name.line as nat);
                    }
                }
            }
        },
        Stmt::CompoundAssign { name, indices, operator, value, line } => {
            let t = assignment_type(env, name, indices@)->0;
            lemma_locate_agrees(store, env, name.text@);
            if let Some((i, j)) = locate(store, name.text@) {
                lemma_resolve_typed(store, env, i, j, Seq::empty(), indices@, env.scopes[i][j].declared_type, t, name.line as nat);
                if let TargetEval::Found(_, _, ps, s1) = resolve_path(store, i, j, Seq::empty(), indices@, name.line as nat) {
                    lemma_eval_typed(s1, env, value, Some(t));
                    if let Eval::Value(o, s2) = eval(s1, value) {
                        if let Some(current) = content_at(s2[i][j].1, ps) {
                            assert(s2[i].len() == env.scopes[i].len());
                            assert(has_type(s2[i][j].1, env.scopes[i][j].declared_type));
                            lemma_content_at_typed(s2[i][j].1, env.scopes[i][j].declared_type, ps);
                            let ot = expr_type(env, value, Some(t))->0;
                            lemma_operators_respect_types(current, assign_binary(operator), o, t, ot);
                            if let Outcome::Known(c) = operation(current, assign_binary(operator), o, line as nat) {
                                lemma_assigned_typed(s2, env, i, j, ps, c, t, fuel, name.line as nat);
                            }
                        }
                    }
                }
            }
        },
        Stmt::Increment { name, indices, operator, line } => {
            let t = assignment_type(env, name, indices@)->0;
            lemma_locate_agrees(store, env, name.text@);
            if let Some((i, j)) = locate(store, name.text@) {
                lemma_resolve_typed(store, env, i, j, Seq::empty(), indices@, env.scopes[i][j].declared_type, t, name.line as nat);
                if let TargetEval::Found(_, _, ps, s1) = resolve_path(store, i, j, Seq::empty(), indices@, name.line as nat) {
                    if let Some(current) = content_at(s1[i][j].1, ps) {
                        assert(s1[i].len() == env.scopes[i].len());
                        assert(has_type(s1[i][j].1, env.scopes[i][j].declared_type));
                        lemma_content_at_typed(s1[i][j].1, env.scopes[i][j].declared_type, ps);
                        let unit = if current is Float { Content::Float(ONE_BITS) } else { Content::Int(1) };
                        let op = if operator == IncrementOp::Increment { BinaryOp::Add } else { BinaryOp::Subtract };
                        lemma_operators_respect_types(current, op, unit, t, t);
                        if let Outcome::Known(c) = operation(current, op, unit, line as nat) {
                            lemma_assigned_typed(s1, env, i, j, ps, c, t, fuel, name.line as nat);
                        }
                    }
                }
            }
        },
        _ => {},
    }
}

/// See `lemma_stmt_typed`, for `if`.
proof fn lemma_if_typed(store: Store, env: TypeEnv, s: Stmt, fuel: nat)
    requires
        s is If,
        store_agrees(store, env),
        env.scopes.len() > 0,
        stmt_env(env, s) is Some,
        stmt_ready(s),
    ensures
        run_stmt(store, s, fuel) matches Run::Done(after, _, _) ==> store_agrees(after, stmt_env(env, s)->0),
        run_stmt(store, s, fuel) matches Run::Error(_, f) ==> !(f is Unchecked),
    decreases s, 3nat, 0nat,
{
    if let Stmt::If { condition, then_branch, else_branch, .. } = s {
        assert(decreases_to!(s => s->If_then_branch));
        assert(decreases_to!(s->If_then_branch => s->If_then_branch@));
        lemma_eval_typed(store, env, condition, None);
        lemma_block_restores(env, then_branch@);
        if let Eval::Value(Content::Bool(b), s1) = eval(store, condition) {
            lemma_block_typed(s1, env, then_branch@, fuel);
            if let Some(branch) = else_branch {
                assert(decreases_to!(s => s->If_else_branch));
                assert(decreases_to!(s->If_else_branch => branch));
                assert(decreases_to!(branch => branch@));
                lemma_block_restores(env, branch@);
                lemma_block_typed(s1, env, branch@, fuel);
            }
        }
    }
}

/// See `lemma_stmt_typed`, for `for`.
proof fn lemma_for_stmt_typed(store: Store, env: TypeEnv, s: Stmt, fuel: nat)
    requires
        s is For,
        store_agrees(store, env),
        env.scopes.len() > 0,
        stmt_env(env, s) is Some,
        stmt_ready(s),
    ensures
        run_stmt(store, s, fuel) matches Run::Done(after, _, _) ==> store_agrees(after, stmt_env(env, s)->0),
        run_stmt(store, s, fuel) matches Run::Error(_, f) ==> !(f is Unchecked),
    decreases s, 3nat, 0nat,
{
    if let Stmt::For { initializer, update, body, .. } = s {
        assert(decreases_to!(s => s->For_initializer));
        let inner = open_scope(env, Seq::empty());
        lemma_push_agrees(store, env, Seq::empty(), Seq::empty());
        lemma_stmt_typed(store.push(Seq::empty()), inner, *initializer, fuel);
        lemma_scope_count(inner, *initializer);
        let header = stmt_env(inner, *initializer)->0;
        lemma_block_restores(header, body@);
        // The update is an assignment, so it leaves the environment as it is.
        assert(stmt_env(header, *update) == Some(header));
        assert(for_env(inner, s) == Some(header));
        assert(stmt_env(env, s) == Some(close_scope(header)));
        let first = run_stmt(store.push(Seq::empty()), *initializer, fuel);
        assert(run_stmt(store, s, fuel) == match first {
            Run::Done(s1, printed, left) => leave_scope(then_run(printed, run_for(s1, s, left))),
            other => other,
        });
        if let Run::Done(s1, printed, left) = first {
            lemma_for_typed(s1, header, s, left);
            if let Run::Done(s2, more, rest) = run_for(s1, s, left) {
                lemma_agrees_drop_last(s2, header);
            }
        }
    }
}

/// See `lemma_stmt_typed`, for `foreach`.
proof fn lemma_foreach_stmt_typed(store: Store, env: TypeEnv, s: Stmt, fuel: nat)
    requires
        s is Foreach,
        store_agrees(store, env),
        env.scopes.len() > 0,
        stmt_env(env, s) is Some,
        stmt_ready(s),
    ensures
        run_stmt(store, s, fuel) matches Run::Done(after, _, _) ==> store_agrees(after, stmt_env(env, s)->0),
        run_stmt(store, s, fuel) matches Run::Error(_, f) ==> !(f is Unchecked),
    decreases s, 3nat, 0nat,
{
    if let Stmt::Foreach { declared_type, name, iterable, body, .. } = s {
        lemma_eval_typed(store, env, iterable, None);
        let counter = Variable { name: name.text@, declared_type, is_constant: false };
        let inner = with_variable(open_scope(env, Seq::empty()), counter);
        lemma_block_restores(inner, body@);
        assert(close_scope(inner).scopes =~= env.scopes);
        if let Eval::Value(Content::Array(xs), s1) = eval(store, iterable) {
            lemma_each_typed(s1, env, s, xs, 0, fuel);
            if let Run::Done(after, _, _) = run_each(s1, s, xs, 0, fuel) {
                lemma_agrees_same_scopes(after, env, stmt_env(env, s)->0);
            }
        }
    }
}

/// The rounds of a checked `while` keep the store in agreement with the environment.
proof fn lemma_while_typed(store: Store, env: TypeEnv, s: Stmt, fuel: nat)
    requires
        s is While,
        store_agrees(store, env),
        env.scopes.len() > 0,
        expr_type(env, s->While_condition, None) == Some(Type::Bool),
        block_env(env, s->While_body@) == Some(env),
        stmt_ready(s),
    ensures
        run_while(store, s, fuel) matches Run::Done(after, _, _) ==> store_agrees(after, env),
        run_while(store, s, fuel) matches Run::Error(_, f) ==> !(f is Unchecked),
    decreases s, 2nat, fuel,
{
    if let Stmt::While { condition, body, .. } = s {
        assert(decreases_to!(s => s->While_body));
        assert(decreases_to!(s->While_body => s->While_body@));
        lemma_eval_typed(store, env, condition, None);
        if let Eval::Value(Content::Bool(b), s1) = eval(store, condition) {
            if b && fuel > 0 {
                lemma_block_typed(s1, env, body@, (fuel - 1) as nat);
                if let Run::Done(s2, printed, left) = run_block(s1, body@, (fuel - 1) as nat) {
                    lemma_while_typed(s2, env, s, if left < fuel { left } else { (fuel - 1) as nat });
                }
            }
        }
    }
}

/// The rounds of a checked `for`, in the scope of its counter (the environment `header`),
/// keep the store in agreement with it.
proof fn lemma_for_typed(store: Store, header: TypeEnv, s: Stmt, fuel: nat)
    requires
        s is For,
        store_agrees(store, header),
        header.scopes.len() > 0,
        expr_type(header, s->For_condition, None) == Some(Type::Bool),
        stmt_env(header, *s->For_update) == Some(header),
        block_env(header, s->For_body@) == Some(header),
        stmt_ready(s),
    ensures
        run_for(store, s, fuel) matches Run::Done(after, _, _) ==> store_agrees(after, header),
        run_for(store, s, fuel) matches Run::Error(_, f) ==> !(f is Unchecked),
    decreases s, 2nat, fuel,
{
    if let Stmt::For { condition, update, body, .. } = s {
        assert(decreases_to!(s => s->For_update));
        assert(decreases_to!(s => s->For_body));
        assert(decreases_to!(s->For_body => s->For_body@));
        lemma_eval_typed(store, header, condition, None);
        if let Eval::Value(Content::Bool(b), s1) = eval(store, condition) {
            if b && fuel > 0 {
                lemma_block_typed(s1, header, body@, (fuel - 1) as nat);
                if let Run::Done(s2, printed, left) = run_block(s1, body@, (fuel - 1) as nat) {
                    lemma_stmt_typed(s2, header, *update, left);
                    if let Run::Done(s3, more, rest) = run_stmt(s2, *update, left) {
                        lemma_for_typed(s3, header, s, if rest < fuel { rest } else { (fuel - 1) as nat });
                    }
                }
            }
        }
    }
}

/// The rounds of a checked `foreach` over elements of the declared type, from position `k`,
/// keep the store in agreement with the environment.
proof fn lemma_each_typed(store: Store, env: TypeEnv, s: Stmt, xs: Seq<Content>, k: int, fuel: nat)
    requires
        s is Foreach,
        store_agrees(store, env),
        env.scopes.len() > 0,
        forall|m: int| 0 <= m < xs.len() ==> has_type(#[trigger] xs[m], s->Foreach_declared_type),
        block_env(
            with_variable(
                open_scope(env, Seq::empty()),
                Variable { name: s->Foreach_name.text@, declared_type: s->Foreach_declared_type, is_constant: false },
            ),
            s->Foreach_body@,
        ) is Some,
        stmt_ready(s),
    ensures
        run_each(store, s, xs, k, fuel) matches Run::Done(after, _, _) ==> store_agrees(after, env),
        run_each(store, s, xs, k, fuel) matches Run::Error(_, f) ==> !(f is Unchecked),
    decreases s, 2nat, xs.len() - k,
{
    if let Stmt::Foreach { declared_type, name, body, .. } = s {
        assert(decreases_to!(s => s->Foreach_body));
        assert(decreases_to!(s->Foreach_body => s->Foreach_body@));
        if 0 <= k < xs.len() && fuel > 0 {
            let counter = Variable { name: name.text@, declared_type, is_constant: false };
            let inner = with_variable(open_scope(env, Seq::empty()), counter);
            let scope = seq![(name.text@, xs[k])];
            lemma_push_agrees(store, env, scope, seq![counter]);
            assert(inner.scopes =~= env.scopes.push(seq![counter]));
            lemma_agrees_same_scopes(store.push(scope), TypeEnv { scopes: env.scopes.push(seq![counter]), library: env.library }, inner);
            lemma_block_restores(inner, body@);
            lemma_block_typed(store.push(scope), inner, body@, (fuel - 1) as nat);
            if let Run::Done(s2, printed, left) = run_block(store.push(scope), body@, (fuel - 1) as nat) {
                lemma_agrees_drop_last(s2, inner);
                assert(inner.scopes.drop_last() =~= env.scopes);
                lemma_agrees_same_scopes(s2.drop_last(), TypeEnv { scopes: inner.scopes.drop_last(), library: inner.library }, env);
                lemma_each_typed(s2.drop_last(), env, s, xs, k + 1, left);
            }
        }
    }
}

/// Running a checked block keeps the store in agreement with the environment after it.
proof fn lemma_block_typed(store: Store, env: TypeEnv, statements: Seq<Stmt>, fuel: nat)
    requires
        store_agrees(store, env),
        env.scopes.len() > 0,
        block_env(env, statements) is Some,
        stmts_ready(statements),
    ensures
        run_block(store, statements, fuel) matches Run::Done(after, _, _) ==> store_agrees(after, block_env(env, statements)->0),
        run_block(store, statements, fuel) matches Run::Error(_, f) ==> !(f is Unchecked),
    decreases statements, 1nat, 0nat,
{
    let inner = open_scope(env, Seq::empty());
    lemma_push_agrees(store, env, Seq::empty(), Seq::empty());
    lemma_stmts_typed(store.push(Seq::empty()), inner, statements, fuel);
    lemma_stmts_count(inner, statements);
    if let Run::Done(s1, printed, left) = run_stmts(store.push(Seq::empty()), statements, fuel) {
        lemma_agrees_drop_last(s1, stmts_env(inner, statements)->0);
    }
}

/// A block has a scope of its own at run time too: after a checked block runs, the store has
/// the scopes and the variables, by name and position, that it had before the block, each
/// still holding a value of its declared type.
pub proof fn lemma_blocks_restore_store(store: Store, env: TypeEnv, statements: Seq<Stmt>, fuel: nat)
    requires
        store_agrees(store, env),
        env.scopes.len() > 0,
        block_env(env, statements) is Some,
        stmts_ready(statements),
    ensures
        run_block(store, statements, fuel) matches Run::Done(after, _, _) ==> {
            &&& store_agrees(after, env)
            &&& after.len() == store.len()
            &&& forall|i: int| 0 <= i < store.len() ==> #[trigger] after[i].len() == store[i].len()
            &&& forall|i: int, j: int| #![trigger after[i][j]] 0 <= i < store.len() && 0 <= j < store[i].len() ==> after[i][j].0 == store[i][j].0
        },
{
    lemma_block_restores(env, statements);
    lemma_block_typed(store, env, statements, fuel);
    if let Run::Done(after, _, _) = run_block(store, statements, fuel) {
        assert forall|i: int| 0 <= i < store.len() implies #[trigger] after[i].len() == store[i].len() by {
            assert(after[i].len() == env.scopes[i].len());
            assert(store[i].len() == env.scopes[i].len());
        }
        assert forall|i: int, j: int| #![trigger after[i][j]] 0 <= i < store.len() && 0 <= j < store[i].len() implies after[i][j].0
            == store[i][j].0 by {
            assert(after[i].len() == env.scopes[i].len());
            assert(store[i].len() == env.scopes[i].len());
            assert(after[i][j].0 == env.scopes[i][j].name);
            assert(store[i][j].0 == env.scopes[i][j].name);
        }
    }
}

/// A checked sequence of statements keeps the number of scopes.
proof fn lemma_stmts_count(env: TypeEnv, statements: Seq<Stmt>)
    requires
        env.scopes.len() > 0,
    ensures
        stmts_env(env, statements) matches Some(after) ==> after.scopes.len() == env.scopes.len(),
    decreases statements.len(),
{
    if statements.len() > 0 {
        lemma_scope_count(env, statements[0]);
        if let Some(next) = stmt_env(env, statements[0]) {
            lemma_stmts_count(next, statements.drop_first());
        }
    }
}

/// Running checked statements keeps the store in agreement with the environment after them.
proof fn lemma_stmts_typed(store: Store, env: TypeEnv, statements: Seq<Stmt>, fuel: nat)
    requires
        store_agrees(store, env),
        env.scopes.len() > 0,
        stmts_env(env, statements) is Some,
        stmts_ready(statements),
    ensures
        run_stmts(store, statements, fuel) matches Run::Done(after, _, _) ==> store_agrees(after, stmts_env(env, statements)->0),
        run_stmts(store, statements, fuel) matches Run::Error(_, f) ==> !(f is Unchecked),
    decreases statements, 0nat, 0nat,
{
    if statements.len() > 0 {
        lemma_stmt_typed(store, env, statements[0], fuel);
        lemma_scope_count(env, statements[0]);
        if let Run::Done(s1, printed, left) = run_stmt(store, statements[0], fuel) {
            assert(decreases_to!(statements => statements.drop_first()));
            lemma_stmts_typed(s1, stmt_env(env, statements[0])->0, statements.drop_first(), left);
        }
    }
}

/// Type soundness. Running a program that passes the checker keeps every variable at a value
/// of its declared type: whenever the run ends, the store holds exactly the variables of the
/// checker's final environment, each with a value of its type (and every expression evaluated
/// on the way gives a value of its checked type, see `lemma_eval_typed`). And a run that stops
/// with an error stops for a reason that the checker cannot rule out (an index outside its
/// array, `int` overflow or a division by zero, `pop` on an empty array, a target lost to an
/// earlier `pop`, or the bound on loop rounds), never for an undeclared name, an operand or
/// condition of the wrong type, or a value of the wrong shape.
pub proof fn lemma_type_soundness(statements: Seq<Stmt>, fuel: nat)
    requires
        program_checks(statements),
        stmts_ready(statements),
    ensures
        run_stmts(fresh_store(), statements, fuel) matches Run::Done(after, _, _) ==> store_agrees(
            after,
            stmts_env(initial_env(), statements)->0,
        ),
        run_stmts(fresh_store(), statements, fuel) matches Run::Error(_, f) ==> !(f is Unchecked),
{
    assert(store_agrees(fresh_store(), initial_env()));
    lemma_stmts_typed(fresh_store(), initial_env(), statements, fuel);
}

}
