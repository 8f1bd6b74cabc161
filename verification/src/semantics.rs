use vstd::prelude::*;

use crate::floats::{float_is_zero, ONE_BITS};
use crate::operators::{binary_error, binary_result, is_arithmetic, is_float_arithmetic, unary_error, unary_result};
use crate::parser::{assign_binary, BinaryOp, Expr, IncrementOp, Name, Stmt, UnaryOp};
use crate::stdlib::{call_effect, evaluate_error, name_message, ArrayFunction};
use crate::typing::call_array;
use crate::text::{int_text, line_prefix, nat_digits};
use crate::value::{display, has_float, Content};

verus! {

/// The variables of a running program: a stack of scopes, innermost last, each holding names
/// with their values in the order of their declarations.
pub type Store = Seq<Seq<(Seq<char>, Content)>>;

/// The store of a program that has not run yet: a global scope without variables.
pub open spec fn fresh_store() -> Store {
    seq![Seq::empty()]
}

/// The position of the latest variable of a name in one scope.
pub open spec fn slot_in(scope: Seq<(Seq<char>, Content)>, name: Seq<char>) -> Option<int>
    decreases scope.len(),
{
    if scope.len() == 0 {
        None
    } else if scope.last().0 == name {
        Some(scope.len() - 1)
    } else {
        slot_in(scope.drop_last(), name)
    }
}

/// Where the variable a name refers to lives: scope and slot, in the innermost scope that has it.
pub open spec fn locate(store: Store, name: Seq<char>) -> Option<(int, int)>
    decreases store.len(),
{
    if store.len() == 0 {
        None
    } else {
        match slot_in(store.last(), name) {
            Some(j) => Some((store.len() - 1, j)),
            None => locate(store.drop_last(), name),
        }
    }
}

/// The store with the value of one variable replaced.
pub open spec fn store_with(store: Store, i: int, j: int, c: Content) -> Store {
    store.update(i, store[i].update(j, (store[i][j].0, c)))
}

/// The store with a new variable in the innermost scope.
pub open spec fn declared(store: Store, name: Seq<char>, c: Content) -> Store {
    store.update(store.len() - 1, store.last().push((name, c)))
}

/// The part of a value that a path of positions reaches, through nested arrays.
pub open spec fn content_at(c: Content, path: Seq<int>) -> Option<Content>
    decreases path.len(),
{
    if path.len() == 0 {
        Some(c)
    } else {
        match c {
            Content::Array(xs) => if 0 <= path[0] < xs.len() {
                content_at(xs[path[0]], path.drop_first())
            } else {
                None
            },
            _ => None,
        }
    }
}

/// The value with the part a path reaches replaced by `new`; `None` when the path does not
/// exist in it.
pub open spec fn update_at(c: Content, path: Seq<int>, new: Content) -> Option<Content>
    decreases path.len(),
{
    if path.len() == 0 {
        Some(new)
    } else {
        match c {
            Content::Array(xs) => if 0 <= path[0] < xs.len() {
                match update_at(xs[path[0]], path.drop_first(), new) {
                    Some(inner) => Some(Content::Array(xs.update(path[0], inner))),
                    None => None,
                }
            } else {
                None
            },
            _ => None,
        }
    }
}

/// The position an index selects in an array: an `int` from 0 to the length less one.
pub open spec fn position(array: Option<Content>, index: Content) -> Option<int> {
    match (array, index) {
        (Some(Content::Array(xs)), Content::Int(k)) => if 0 <= k < xs.len() {
            Some(k as int)
        } else {
            None
        },
        _ => None,
    }
}

/// The message for an index that selects no element at a line: an `int` outside the array's
/// bounds, or values that are not an array and an `int`.
pub open spec fn index_message(array: Content, index: Content, line: nat) -> Seq<char> {
    match (array, index) {
        (Content::Array(xs), Content::Int(i)) => line_prefix(line) + ("índice "@ + int_text(i as int)
            + " fuera de rango para un array de longitud "@ + nat_digits(xs.len()) + ". Los índices empiezan en 0."@),
        _ => line_prefix(line) + "se esperaba un array y un índice int."@,
    }
}

/// The message for a target whose positions no longer exist (see `Failure::Lost`).
pub open spec fn lost_message(line: nat) -> Seq<char> {
    line_prefix(line) + "el destino quedó fuera de rango después de evaluar la expresión."@
}

/// The message for a loop that needs a round when none is left (see `Failure::Rounds`).
pub open spec fn rounds_message(line: nat) -> Seq<char> {
    line_prefix(line) + "el bucle superó el número máximo de vueltas."@
}

/// The message for a variable that no scope declares.
pub open spec fn unbound_message(name: Name) -> Seq<char> {
    line_prefix(name.line as nat) + ("La variable '"@ + name.text@ + "' no está declarada."@)
}

/// The message for a condition that is not a `bool`, at the line of its statement.
pub open spec fn condition_message(line: nat) -> Seq<char> {
    line_prefix(line) + "La condición no es bool."@
}

/// The message for a `foreach` over a value that is not an array.
pub open spec fn foreach_message(line: nat) -> Seq<char> {
    line_prefix(line) + "'foreach' solo recorre arrays."@
}

/// Why a run stopped with an error, with the message it reports.
pub enum Failure {
    /// A name without a declaration, an operand or a condition of the wrong type, an index
    /// into a value that is not an array, a library call without its array or its element:
    /// errors that the checker rules out. A statement or an expression of a shape that the
    /// parser never builds fails with an empty message.
    Unchecked(Seq<char>),
    /// An index outside its array (see `index_message`).
    Range(Seq<char>),
    /// An `int` operation that leaves `int` (including the negation of the least `int`), or a
    /// division or remainder by zero (see `binary_error` and `unary_error`).
    Arithmetic(Seq<char>),
    /// `pop` on an empty array, or `len` of an array longer than the largest `int` (see
    /// `evaluate_error`).
    Library(Seq<char>),
    /// A target whose position no longer exists once its indices or its new value have been
    /// evaluated (an earlier `pop` shortened the array; see `lost_message`).
    Lost(Seq<char>),
    /// A loop that needs a round when no rounds are left (see `rounds_message`).
    Rounds(Seq<char>),
}

/// Whether `m` is the message that a failure reports.
pub open spec fn reports(f: Failure, m: Seq<char>) -> bool {
    match f {
        Failure::Unchecked(x) => m == x,
        Failure::Range(x) => m == x,
        Failure::Arithmetic(x) => m == x,
        Failure::Library(x) => m == x,
        Failure::Lost(x) => m == x,
        Failure::Rounds(x) => m == x,
    }
}

/// The result of an operation on two values: known, failed, or open (float arithmetic, whose
/// value the host computes).
pub enum Outcome {
    Known(Content),
    Failed(Failure),
    Open,
}

/// Why a binary operation has no result: arithmetic on two `int`s or float arithmetic fails
/// on its values; any other failure is an operand of the wrong type.
pub open spec fn operation_failure(left: Content, operator: BinaryOp, right: Content, line: nat) -> Failure {
    if is_float_arithmetic(left, operator, right) || (is_arithmetic(operator) && left is Int && right is Int) {
        Failure::Arithmetic(binary_error(left, operator, right, line))
    } else {
        Failure::Unchecked(binary_error(left, operator, right, line))
    }
}

/// A binary operation on values (see `binary_result`). Float arithmetic fails on a zero
/// divisor of `/` or `%` and is open otherwise.
pub open spec fn operation(left: Content, operator: BinaryOp, right: Content, line: nat) -> Outcome {
    if is_float_arithmetic(left, operator, right) {
        if (operator == BinaryOp::Divide || operator == BinaryOp::Remainder) && float_is_zero(right->Float_0) {
            Outcome::Failed(Failure::Arithmetic(binary_error(left, operator, right, line)))
        } else {
            Outcome::Open
        }
    } else {
        match binary_result(left, operator, right) {
            Some(c) => Outcome::Known(c),
            None => Outcome::Failed(operation_failure(left, operator, right, line)),
        }
    }
}

/// Why a unary operation has no result: negating the least `int`, or an operand of the wrong
/// type.
pub open spec fn unary_failure(operator: UnaryOp, c: Content, line: nat) -> Failure {
    if operator == UnaryOp::Minus && c == Content::Int(i64::MIN) {
        Failure::Arithmetic(unary_error(operator, c, line))
    } else {
        Failure::Unchecked(unary_error(operator, c, line))
    }
}

/// Why an index selects no position: the array no longer exists at the target's position, the
/// index lies outside the array, or the values are not an array and an `int`.
pub open spec fn index_failure(array: Option<Content>, index: Content, line: nat, target_line: nat) -> Failure {
    match (array, index) {
        (None, _) => Failure::Lost(lost_message(target_line)),
        (Some(Content::Array(xs)), Content::Int(k)) => Failure::Range(index_message(Content::Array(xs), Content::Int(k), line)),
        (Some(a), _) => Failure::Unchecked(index_message(a, index, line)),
    }
}

/// What evaluating an expression gives: a value and the store after it (only `pop` and `push`
/// change variables), an error, or an open result (one that goes through float arithmetic).
pub enum Eval {
    Value(Content, Store),
    Error(Failure),
    Open,
}

/// What a library call gives: its result, if any, and the store after it; an error; or open.
pub enum CallEval {
    Done(Option<Content>, Store),
    Error(Failure),
    Open,
}

/// Where a target lies: scope, slot and positions, with the store after evaluating its
/// indices; an error; or open.
pub enum TargetEval {
    Found(int, int, Seq<int>, Store),
    Error(Failure),
    Open,
}

/// The value of an expression, from left to right. A literal is its value; a variable the
/// value of its latest declaration in the innermost scope that has it; an array literal its
/// elements in order; indexing needs an array and an `int` within its bounds; operators follow
/// `unary_result` and `operation`, with `&&` and `||` skipping their right operand when the
/// left one decides; a library call must give a value.
pub open spec fn eval(store: Store, e: Expr) -> Eval
    decreases e, 2nat,
{
    match e {
        Expr::Literal(v) => Eval::Value(v@, store),
        Expr::Variable(name) => match locate(store, name.text@) {
            Some((i, j)) => Eval::Value(store[i][j].1, store),
            None => Eval::Error(Failure::Unchecked(unbound_message(name))),
        },
        Expr::Array { elements, .. } => {
            proof {
                assert(decreases_to!(e => e->Array_elements));
                assert(decreases_to!(e->Array_elements => e->Array_elements@));
            }
            eval_elements(store, elements@)
        },
        Expr::Index { array, index, line } => match eval(store, *array) {
            Eval::Value(a, s1) => match eval(s1, *index) {
                Eval::Value(ix, s2) => match position(Some(a), ix) {
                    Some(k) => Eval::Value(a->Array_0[k], s2),
                    None => Eval::Error(index_failure(Some(a), ix, line as nat, line as nat)),
                },
                other => other,
            },
            other => other,
        },
        Expr::Unary { operator, operand, line } => match eval(store, *operand) {
            Eval::Value(c, s1) => match unary_result(operator, c) {
                Some(d) => Eval::Value(d, s1),
                None => Eval::Error(unary_failure(operator, c, line as nat)),
            },
            other => other,
        },
        Expr::Binary { left, operator, right, line } => match eval(store, *left) {
            Eval::Value(l, s1) => if (operator == BinaryOp::And && l == Content::Bool(false)) || (operator == BinaryOp::Or
                && l == Content::Bool(true)) {
                Eval::Value(l, s1)
            } else {
                match eval(s1, *right) {
                    Eval::Value(r, s2) => match operation(l, operator, r, line as nat) {
                        Outcome::Known(c) => Eval::Value(c, s2),
                        Outcome::Failed(f) => Eval::Error(f),
                        Outcome::Open => Eval::Open,
                    },
                    other => other,
                }
            },
            other => other,
        },
        Expr::LibraryCall { path, .. } => match eval_call(store, e) {
            CallEval::Done(Some(c), s1) => Eval::Value(c, s1),
            CallEval::Done(None, _) => Eval::Error(
                Failure::Unchecked(name_message(path@.last(), "'push' no devuelve un valor; úsalo como instrucción con ';'."@)),
            ),
            CallEval::Error(f) => Eval::Error(f),
            CallEval::Open => Eval::Open,
        },
    }
}

/// The values of array elements, left to right, as an array.
pub open spec fn eval_elements(store: Store, elements: Seq<Expr>) -> Eval
    decreases elements, 0nat,
{
    if elements.len() == 0 {
        Eval::Value(Content::Array(Seq::empty()), store)
    } else {
        match eval(store, elements[0]) {
            Eval::Value(c, s1) => match eval_elements(s1, elements.drop_first()) {
                Eval::Value(Content::Array(cs), s2) => Eval::Value(Content::Array(seq![c] + cs), s2),
                Eval::Value(_, _) => Eval::Error(Failure::Unchecked(Seq::empty())),
                other => other,
            },
            other => other,
        }
    }
}

/// The function a library call runs, by the last name of its path: `push`, `pop`, else `len`.
pub open spec fn called_function(name: Seq<char>) -> ArrayFunction {
    if name == "push"@ {
        ArrayFunction::Push
    } else if name == "pop"@ {
        ArrayFunction::Pop
    } else {
        ArrayFunction::Len
    }
}

/// A library call. `len` evaluates its array and counts it. `push` and `pop` first resolve the
/// array they change (see `target_of`), then `push` evaluates its element, and then the
/// function runs on the array the target holds at that moment (see `call_effect`); a target
/// whose positions no longer exist is an error.
pub open spec fn eval_call(store: Store, e: Expr) -> CallEval
    decreases e, 1nat,
{
    match e {
        Expr::LibraryCall { path, receiver, arguments } => if path@.len() == 0 {
            CallEval::Error(Failure::Unchecked(Seq::empty()))
        } else {
            let f = called_function(path@.last().text@);
            match call_array(e) {
                None => CallEval::Error(Failure::Unchecked(name_message(path@.last(), "Falta el array de la llamada."@))),
                Some(array) => {
                    proof {
                        if receiver is Some {
                            assert(decreases_to!(e => e->receiver));
                        } else {
                            assert(decreases_to!(e => e->arguments));
                            assert(decreases_to!(e->arguments => e->arguments@));
                            assert(decreases_to!(e->arguments@ => e->arguments@[0]));
                        }
                    }
                    if f == ArrayFunction::Len {
                        match eval(store, array) {
                            Eval::Value(Content::Array(xs), s1) => match call_effect(f, xs, None) {
                                Some((result, _)) => CallEval::Done(result, s1),
                                None => CallEval::Error(
                                    Failure::Library(evaluate_error(f, Content::Array(xs), None, path@.last())),
                                ),
                            },
                            Eval::Value(c, _) => CallEval::Error(Failure::Unchecked(evaluate_error(f, c, None, path@.last()))),
                            Eval::Error(failure) => CallEval::Error(failure),
                            Eval::Open => CallEval::Open,
                        }
                    } else {
                        match target_of(store, array, path@.last()) {
                            TargetEval::Found(i, j, ps, s1) => if f == ArrayFunction::Push {
                                if arguments@.len() == 0 {
                                    CallEval::Error(
                                        Failure::Unchecked(name_message(path@.last(), "'push' necesita un valor que añadir."@)),
                                    )
                                } else {
                                    proof {
                                        assert(decreases_to!(e => e->arguments));
                                        assert(decreases_to!(e->arguments => e->arguments@));
                                        assert(decreases_to!(e->arguments@ => e->arguments@[arguments@.len() - 1]));
                                    }
                                    match eval(s1, arguments@[arguments@.len() - 1]) {
                                        Eval::Value(v, s2) => apply_call(
                                            s2,
                                            i,
                                            j,
                                            ps,
                                            f,
                                            Some(v),
                                            path@.last(),
                                            target_line(array),
                                        ),
                                        Eval::Error(failure) => CallEval::Error(failure),
                                        Eval::Open => CallEval::Open,
                                    }
                                }
                            } else {
                                apply_call(s1, i, j, ps, f, None, path@.last(), target_line(array))
                            },
                            TargetEval::Error(failure) => CallEval::Error(failure),
                            TargetEval::Open => CallEval::Open,
                        }
                    }
                },
            }
        },
        _ => CallEval::Error(Failure::Unchecked(Seq::empty())),
    }
}

/// The line of the variable at the root of a target (see `target_of`).
pub open spec fn target_line(e: Expr) -> nat
    decreases e,
{
    match e {
        Expr::Variable(name) => name.line as nat,
        Expr::Index { array, .. } => target_line(*array),
        _ => 0,
    }
}

/// Runs an array function named by `name` on the array a target holds now; `line` is the
/// line of the target's variable.
pub open spec fn apply_call(
    store: Store,
    i: int,
    j: int,
    path: Seq<int>,
    f: ArrayFunction,
    argument: Option<Content>,
    name: Name,
    line: nat,
) -> CallEval {
    match content_at(store[i][j].1, path) {
        Some(Content::Array(xs)) => match call_effect(f, xs, argument) {
            Some((result, after)) => match update_at(store[i][j].1, path, Content::Array(after)) {
                Some(whole) => CallEval::Done(result, store_with(store, i, j, whole)),
                None => CallEval::Error(Failure::Lost(lost_message(line))),
            },
            None => CallEval::Error(Failure::Library(evaluate_error(f, Content::Array(xs), argument, name))),
        },
        Some(c) => CallEval::Error(Failure::Unchecked(evaluate_error(f, c, argument, name))),
        None => CallEval::Error(Failure::Lost(lost_message(line))),
    }
}

/// The array a `push` or `pop` changes: a variable, then indices applied from left to right,
/// each checked against the array the target holds when the index has been evaluated. Another
/// expression is refused at the line of `call`, the name of the call.
pub open spec fn target_of(store: Store, e: Expr, call: Name) -> TargetEval
    decreases e, 0nat,
{
    match e {
        Expr::Variable(name) => match locate(store, name.text@) {
            Some((i, j)) => TargetEval::Found(i, j, Seq::empty(), store),
            None => TargetEval::Error(Failure::Unchecked(unbound_message(name))),
        },
        Expr::Index { array, index, line } => match target_of(store, *array, call) {
            TargetEval::Found(i, j, ps, s1) => match eval(s1, *index) {
                Eval::Value(ix, s2) => match position(content_at(s2[i][j].1, ps), ix) {
                    Some(k) => TargetEval::Found(i, j, ps.push(k), s2),
                    None => TargetEval::Error(
                        index_failure(content_at(s2[i][j].1, ps), ix, line as nat, target_line(*array)),
                    ),
                },
                Eval::Error(failure) => TargetEval::Error(failure),
                Eval::Open => TargetEval::Open,
            },
            other => other,
        },
        _ => TargetEval::Error(
            Failure::Unchecked(name_message(call, "Se necesita una variable array modificable o uno de sus subarrays."@)),
        ),
    }
}

/// The indices of an assignment's target, evaluated and checked from left to right.
pub open spec fn resolve_path(store: Store, i: int, j: int, path: Seq<int>, indices: Seq<(Expr, usize)>, line: nat) -> TargetEval
    decreases indices.len(),
{
    if indices.len() == 0 {
        TargetEval::Found(i, j, path, store)
    } else {
        match eval(store, indices[0].0) {
            Eval::Value(ix, s1) => match position(content_at(s1[i][j].1, path), ix) {
                Some(k) => resolve_path(s1, i, j, path.push(k), indices.drop_first(), line),
                None => TargetEval::Error(index_failure(content_at(s1[i][j].1, path), ix, indices[0].1 as nat, line)),
            },
            Eval::Error(failure) => TargetEval::Error(failure),
            Eval::Open => TargetEval::Open,
        }
    }
}

/// An expression without library calls. Only `push` and `pop` change variables, so evaluating
/// such an expression changes none.
pub open spec fn call_free(e: Expr) -> bool
    decreases e, 1nat,
{
    match e {
        Expr::LibraryCall { .. } => false,
        Expr::Literal(_) => true,
        Expr::Variable(_) => true,
        Expr::Array { elements, .. } => {
            proof {
                assert(decreases_to!(e => e->Array_elements));
                assert(decreases_to!(e->Array_elements => e->Array_elements@));
            }
            calls_free(elements@)
        },
        Expr::Index { array, index, .. } => call_free(*array) && call_free(*index),
        Expr::Unary { operand, .. } => call_free(*operand),
        Expr::Binary { left, right, .. } => call_free(*left) && call_free(*right),
    }
}

/// Whether no expression of a sequence holds a library call (see `call_free`).
pub open spec fn calls_free(es: Seq<Expr>) -> bool
    decreases es, 0nat,
{
    if es.len() == 0 {
        true
    } else {
        call_free(es[0]) && calls_free(es.drop_first())
    }
}

/// An assignment, `+=`, `-=`, `++` or `--` whose indices and value hold no library call.
pub open spec fn plain_assignment(s: Stmt) -> bool {
    match s {
        Stmt::Assign { indices, value, .. } => indices_call_free(indices@) && call_free(value),
        Stmt::CompoundAssign { indices, value, .. } => indices_call_free(indices@) && call_free(value),
        Stmt::Increment { indices, .. } => indices_call_free(indices@),
        _ => false,
    }
}

/// Whether no index of an assignment's target holds a library call.
pub open spec fn indices_call_free(indices: Seq<(Expr, usize)>) -> bool {
    forall|k: int| 0 <= k < indices.len() ==> call_free(#[trigger] indices[k].0)
}

/// Each expression of a sequence without library calls has none.
pub proof fn lemma_calls_free(es: Seq<Expr>)
    requires
        calls_free(es),
    ensures
        forall|k: int| 0 <= k < es.len() ==> call_free(#[trigger] es[k]),
    decreases es.len(),
{
    if es.len() > 0 {
        lemma_calls_free(es.drop_first());
        assert forall|k: int| 0 <= k < es.len() implies call_free(#[trigger] es[k]) by {
            if k > 0 {
                assert(es.drop_first()[k - 1] == es[k]);
            }
        }
    }
}

/// What running statements gives: the store, the text printed and the loop rounds left; or an
/// error, with the text printed before it and its cause; or an open result, one that goes
/// through float arithmetic or prints a float, with the text printed before that point (what
/// comes after it is the host's).
pub enum Run {
    Done(Store, Seq<char>, nat),
    Error(Seq<char>, Failure),
    Open(Seq<char>),
}

/// The text printed by one statement followed by what comes after it.
pub open spec fn then_run(printed: Seq<char>, rest: Run) -> Run {
    match rest {
        Run::Done(s, more, fuel) => Run::Done(s, printed + more, fuel),
        Run::Error(more, failure) => Run::Error(printed + more, failure),
        Run::Open(more) => Run::Open(printed + more),
    }
}

/// An error that printed nothing.
pub open spec fn failed(failure: Failure) -> Run {
    Run::Error(Seq::empty(), failure)
}

/// Stores a value in an assignment's target, if its positions still exist.
pub open spec fn assigned(store: Store, i: int, j: int, path: Seq<int>, c: Content, fuel: nat, line: nat) -> Run {
    match update_at(store[i][j].1, path, c) {
        Some(whole) => Run::Done(store_with(store, i, j, whole), Seq::empty(), fuel),
        None => failed(Failure::Lost(lost_message(line))),
    }
}

/// Runs one statement with at most `fuel` more loop rounds. A declaration adds its variable to
/// the innermost scope; an assignment resolves its target (see `resolve_path`) before it
/// evaluates the value; `+=`, `-=`, `++` and `--` read the target after that and store the
/// operation's result; `print` and `println` print the value as `display` writes it; a block
/// runs in a scope of its own (see `run_block`); each round of a loop takes one unit of fuel,
/// and a loop that needs a round when none is left is an error.
pub open spec fn run_stmt(store: Store, s: Stmt, fuel: nat) -> Run
    decreases s, 3nat, 0nat,
{
    match s {
        Stmt::Call(e) => match eval_call(store, e) {
            CallEval::Done(_, s1) => Run::Done(s1, Seq::empty(), fuel),
            CallEval::Error(f) => failed(f),
            CallEval::Open => Run::Open(Seq::empty()),
        },
        Stmt::Import { .. } => Run::Done(store, Seq::empty(), fuel),
        Stmt::Declare { name, initializer, .. } => match eval(store, initializer) {
            Eval::Value(c, s1) => Run::Done(declared(s1, name.text@, c), Seq::empty(), fuel),
            Eval::Error(f) => failed(f),
            Eval::Open => Run::Open(Seq::empty()),
        },
        Stmt::Assign { name, indices, value } => match locate(store, name.text@) {
            None => failed(Failure::Unchecked(unbound_message(name))),
            Some((i, j)) => match resolve_path(store, i, j, Seq::empty(), indices@, name.line as nat) {
                TargetEval::Found(_, _, ps, s1) => match eval(s1, value) {
                    Eval::Value(c, s2) => assigned(s2, i, j, ps, c, fuel, name.line as nat),
                    Eval::Error(f) => failed(f),
                    Eval::Open => Run::Open(Seq::empty()),
                },
                TargetEval::Error(f) => failed(f),
                TargetEval::Open => Run::Open(Seq::empty()),
            },
        },
        Stmt::CompoundAssign { name, indices, operator, value, line } => match locate(store, name.text@) {
            None => failed(Failure::Unchecked(unbound_message(name))),
            Some((i, j)) => match resolve_path(store, i, j, Seq::empty(), indices@, name.line as nat) {
                TargetEval::Found(_, _, ps, s1) => match eval(s1, value) {
                    Eval::Value(o, s2) => match content_at(s2[i][j].1, ps) {
                        Some(current) => match operation(current, assign_binary(operator), o, line as nat) {
                            Outcome::Known(c) => assigned(s2, i, j, ps, c, fuel, name.line as nat),
                            Outcome::Failed(f) => failed(f),
                            Outcome::Open => Run::Open(Seq::empty()),
                        },
                        None => failed(Failure::Lost(lost_message(name.line as nat))),
                    },
                    Eval::Error(f) => failed(f),
                    Eval::Open => Run::Open(Seq::empty()),
                },
                TargetEval::Error(f) => failed(f),
                TargetEval::Open => Run::Open(Seq::empty()),
            },
        },
        Stmt::Increment { name, indices, operator, line } => match locate(store, name.text@) {
            None => failed(Failure::Unchecked(unbound_message(name))),
            Some((i, j)) => match resolve_path(store, i, j, Seq::empty(), indices@, name.line as nat) {
                TargetEval::Found(_, _, ps, s1) => match content_at(s1[i][j].1, ps) {
                    Some(current) => {
                        let unit = if current is Float { Content::Float(ONE_BITS) } else { Content::Int(1) };
                        let op = if operator == IncrementOp::Increment { BinaryOp::Add } else { BinaryOp::Subtract };
                        match operation(current, op, unit, line as nat) {
                            Outcome::Known(c) => assigned(s1, i, j, ps, c, fuel, name.line as nat),
                            Outcome::Failed(f) => failed(f),
                            Outcome::Open => Run::Open(Seq::empty()),
                        }
                    },
                    None => failed(Failure::Lost(lost_message(name.line as nat))),
                },
                TargetEval::Error(f) => failed(f),
                TargetEval::Open => Run::Open(Seq::empty()),
            },
        },
        Stmt::If { condition, then_branch, else_branch, line } => match eval(store, condition) {
            Eval::Value(Content::Bool(b), s1) => if b {
                proof {
                    assert(decreases_to!(s => s->If_then_branch));
                    assert(decreases_to!(s->If_then_branch => s->If_then_branch@));
                }
                run_block(s1, then_branch@, fuel)
            } else {
                match else_branch {
                    Some(branch) => {
                        proof {
                            assert(decreases_to!(s => s->If_else_branch));
                            assert(decreases_to!(s->If_else_branch => branch));
                            assert(decreases_to!(branch => branch@));
                        }
                        run_block(s1, branch@, fuel)
                    },
                    None => Run::Done(s1, Seq::empty(), fuel),
                }
            },
            Eval::Value(_, _) => failed(Failure::Unchecked(condition_message(line as nat))),
            Eval::Error(f) => failed(f),
            Eval::Open => Run::Open(Seq::empty()),
        },
        Stmt::While { .. } => run_while(store, s, fuel),
        Stmt::For { initializer, .. } => {
            proof {
                assert(decreases_to!(s => s->For_initializer));
            }
            match run_stmt(store.push(Seq::empty()), *initializer, fuel) {
                Run::Done(s1, printed, left) => leave_scope(then_run(printed, run_for(s1, s, left))),
                other => other,
            }
        },
        Stmt::Foreach { iterable, line, .. } => match eval(store, iterable) {
            Eval::Value(Content::Array(xs), s1) => run_each(s1, s, xs, 0, fuel),
            Eval::Value(_, _) => failed(Failure::Unchecked(foreach_message(line as nat))),
            Eval::Error(f) => failed(f),
            Eval::Open => Run::Open(Seq::empty()),
        },
        Stmt::Print(e) => match eval(store, e) {
            Eval::Value(c, s1) => if has_float(c) {
                Run::Open(Seq::empty())
            } else {
                Run::Done(s1, display(c), fuel)
            },
            Eval::Error(f) => failed(f),
            Eval::Open => Run::Open(Seq::empty()),
        },
        Stmt::Println(e) => match eval(store, e) {
            Eval::Value(c, s1) => if has_float(c) {
                Run::Open(Seq::empty())
            } else {
                Run::Done(s1, display(c) + seq!['\n'], fuel)
            },
            Eval::Error(f) => failed(f),
            Eval::Open => Run::Open(Seq::empty()),
        },
    }
}

/// The rounds of a `while`: while the condition is `true`, one unit of fuel and the body.
pub open spec fn run_while(store: Store, s: Stmt, fuel: nat) -> Run
    decreases s, 2nat, fuel,
{
    match s {
        Stmt::While { condition, body, line } => match eval(store, condition) {
            Eval::Value(Content::Bool(b), s1) => if !b {
                Run::Done(s1, Seq::empty(), fuel)
            } else if fuel == 0 {
                failed(Failure::Rounds(rounds_message(line as nat)))
            } else {
                proof {
                    assert(decreases_to!(s => s->While_body));
                    assert(decreases_to!(s->While_body => s->While_body@));
                }
                match run_block(s1, body@, (fuel - 1) as nat) {
                    // The fuel left never grows; the minimum only makes that evident.
                    Run::Done(s2, printed, left) => then_run(
                        printed,
                        run_while(s2, s, if left < fuel { left } else { (fuel - 1) as nat }),
                    ),
                    other => other,
                }
            },
            Eval::Value(_, _) => failed(Failure::Unchecked(condition_message(line as nat))),
            Eval::Error(f) => failed(f),
            Eval::Open => Run::Open(Seq::empty()),
        },
        _ => failed(Failure::Unchecked(Seq::empty())),
    }
}

/// The rounds of a `for`, in the scope of its counter: while the condition is `true`, one unit
/// of fuel, the body and the update.
pub open spec fn run_for(store: Store, s: Stmt, fuel: nat) -> Run
    decreases s, 2nat, fuel,
{
    match s {
        Stmt::For { condition, update, body, line, .. } => match eval(store, condition) {
            Eval::Value(Content::Bool(b), s1) => if !b {
                Run::Done(s1, Seq::empty(), fuel)
            } else if fuel == 0 {
                failed(Failure::Rounds(rounds_message(line as nat)))
            } else {
                proof {
                    assert(decreases_to!(s => s->For_update));
                    assert(decreases_to!(s => s->For_body));
                    assert(decreases_to!(s->For_body => s->For_body@));
                }
                match run_block(s1, body@, (fuel - 1) as nat) {
                    Run::Done(s2, printed, left) => match run_stmt(s2, *update, left) {
                        Run::Done(s3, more, rest) => then_run(
                            printed + more,
                            run_for(s3, s, if rest < fuel { rest } else { (fuel - 1) as nat }),
                        ),
                        other => then_run(printed, other),
                    },
                    other => other,
                }
            },
            Eval::Value(_, _) => failed(Failure::Unchecked(condition_message(line as nat))),
            Eval::Error(f) => failed(f),
            Eval::Open => Run::Open(Seq::empty()),
        },
        _ => failed(Failure::Unchecked(Seq::empty())),
    }
}

/// The rounds of a `foreach` over the elements `xs` from position `k`: for each, one unit of
/// fuel and the body, in a scope that holds the loop variable with a copy of the element.
pub open spec fn run_each(store: Store, s: Stmt, xs: Seq<Content>, k: int, fuel: nat) -> Run
    decreases s, 2nat, xs.len() - k,
{
    match s {
        Stmt::Foreach { name, body, line, .. } => if k < 0 || k >= xs.len() {
            Run::Done(store, Seq::empty(), fuel)
        } else if fuel == 0 {
            failed(Failure::Rounds(rounds_message(line as nat)))
        } else {
            proof {
                assert(decreases_to!(s => s->Foreach_body));
                assert(decreases_to!(s->Foreach_body => s->Foreach_body@));
            }
            match run_block(store.push(seq![(name.text@, xs[k])]), body@, (fuel - 1) as nat) {
                Run::Done(s2, printed, left) => then_run(printed, run_each(s2.drop_last(), s, xs, k + 1, left)),
                other => other,
            }
        },
        _ => failed(Failure::Unchecked(Seq::empty())),
    }
}

/// Runs a block in a scope of its own, closed at its end.
pub open spec fn run_block(store: Store, statements: Seq<Stmt>, fuel: nat) -> Run
    decreases statements, 1nat, 0nat,
{
    leave_scope(run_stmts(store.push(Seq::empty()), statements, fuel))
}

/// A run whose innermost scope is closed at its end.
pub open spec fn leave_scope(run: Run) -> Run {
    match run {
        Run::Done(s, printed, left) => Run::Done(s.drop_last(), printed, left),
        other => other,
    }
}

/// Runs statements in order; the first error stops them, keeping what was printed before it.
pub open spec fn run_stmts(store: Store, statements: Seq<Stmt>, fuel: nat) -> Run
    decreases statements, 0nat, 0nat,
{
    if statements.len() == 0 {
        Run::Done(store, Seq::empty(), fuel)
    } else {
        match run_stmt(store, statements[0], fuel) {
            Run::Done(s1, printed, left) => then_run(printed, run_stmts(s1, statements.drop_first(), left)),
            other => other,
        }
    }
}

/// A write into a value reads back: after `update_at` stores `c` at a path, `content_at` finds
/// `c` there. A write succeeds exactly where a read does, and it never changes the length of
/// an array on its path: writing out of range fails rather than growing the array.
pub proof fn lemma_read_after_write(x: Content, path: Seq<int>, c: Content)
    ensures
        update_at(x, path, c) is Some <==> content_at(x, path) is Some,
        update_at(x, path, c) matches Some(y) ==> content_at(y, path) == Some(c),
        path.len() > 0 && update_at(x, path, c) is Some ==> match (x, update_at(x, path, c)) {
            (Content::Array(xs), Some(Content::Array(ys))) => ys.len() == xs.len(),
            _ => false,
        },
    decreases path.len(),
{
    if path.len() > 0 {
        if let Content::Array(xs) = x {
            if 0 <= path[0] < xs.len() {
                lemma_read_after_write(xs[path[0]], path.drop_first(), c);
                if let Some(inner) = update_at(xs[path[0]], path.drop_first(), c) {
                    assert(xs.update(path[0], inner)[path[0]] == inner);
                }
            }
        }
    }
}

/// An assignment changes only the variable it names: every other variable, in any scope,
/// keeps its name and value, so a copy made earlier does not follow later writes; the
/// assigned variable keeps its name and holds the new value at the written position.
pub proof fn lemma_assignment_frame(store: Store, i: int, j: int, path: Seq<int>, c: Content, fuel: nat, line: nat)
    requires
        0 <= i < store.len(),
        0 <= j < store[i].len(),
    ensures
        assigned(store, i, j, path, c, fuel, line) matches Run::Done(after, printed, left) ==> {
            &&& printed == Seq::<char>::empty()
            &&& left == fuel
            &&& after.len() == store.len()
            &&& forall|a: int| 0 <= a < store.len() ==> #[trigger] after[a].len() == store[a].len()
            &&& forall|a: int, b: int|
                0 <= a < store.len() && 0 <= b < store[a].len() && (a, b) != (i, j) ==> #[trigger] after[a][b]
                    == store[a][b]
            &&& after[i][j].0 == store[i][j].0
            &&& content_at(after[i][j].1, path) == Some(c)
        },
        assigned(store, i, j, path, c, fuel, line) is Error <==> content_at(store[i][j].1, path) is None,
        assigned(store, i, j, path, c, fuel, line) is Error ==> assigned(store, i, j, path, c, fuel, line) == failed(Failure::Lost(lost_message(line))),
{
    lemma_read_after_write(store[i][j].1, path, c);
}

/// Replacing a value twice keeps the second.
pub proof fn lemma_store_with_twice(store: Store, i: int, j: int, a: Content, b: Content)
    requires
        0 <= i < store.len(),
        0 <= j < store[i].len(),
    ensures
        store_with(store_with(store, i, j, a), i, j, b) == store_with(store, i, j, b),
        store_with(store, i, j, a)[i][j].1 == a,
        store_with(store, i, j, a).len() == store.len(),
        store_with(store, i, j, a)[i].len() == store[i].len(),
{
    assert(store_with(store_with(store, i, j, a), i, j, b)[i] =~= store_with(store, i, j, b)[i]);
    assert(store_with(store_with(store, i, j, a), i, j, b) =~= store_with(store, i, j, b));
}

/// Closing a scope does not change what was printed before.
pub proof fn lemma_leave_scope(a: Seq<char>, x: Run)
    ensures
        then_run(a, leave_scope(x)) == leave_scope(then_run(a, x)),
{
}

/// Printed text accumulates in order.
pub proof fn lemma_then_run(a: Seq<char>, b: Seq<char>, x: Run)
    ensures
        then_run(a, then_run(b, x)) == then_run(a + b, x),
        then_run(Seq::empty(), x) == x,
{
    match x {
        Run::Done(st, m, f) => {
            assert(a + (b + m) =~= (a + b) + m);
            assert(Seq::<char>::empty() + m =~= m);
        },
        Run::Error(m, _) => {
            assert(a + (b + m) =~= (a + b) + m);
            assert(Seq::<char>::empty() + m =~= m);
        },
        Run::Open(m) => {
            assert(a + (b + m) =~= (a + b) + m);
            assert(Seq::<char>::empty() + m =~= m);
        },
    }
}

}
