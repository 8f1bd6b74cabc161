use vstd::prelude::*;

use crate::floats::{FloatArith, ONE_BITS};
use crate::operators::{binary, unary};
use crate::parser::{BinaryOp, Expr, Name, Stmt};
use crate::stdlib::{call_effect, evaluate_error, optional_content, ArrayFunction};
use crate::typing::call_array;
use crate::soundness::{expr_ready, indices_ready, lemma_exprs_ready, stmt_ready, stmts_ready};
use crate::text::{chars_equal, copy_chars, int_text, line_message, names_line, nat_digits, push_chars, push_int, push_nat, push_str, string_of};
use crate::semantics::{
    call_free, condition_message, foreach_message, indices_call_free, lemma_calls_free, plain_assignment, index_failure, index_message, lost_message, reports, rounds_message,
    target_line, unbound_message,
    content_at, declared, eval, fresh_store, eval_call, eval_elements, lemma_leave_scope, lemma_store_with_twice,
    lemma_then_run, leave_scope, locate, position, resolve_path, run_block, run_each, run_for, run_stmt, run_stmts,
    run_while, slot_in, store_with, target_of, then_run, update_at, CallEval, Eval, Failure, Run, Store, TargetEval,
};
use crate::value::{contents, copy_value, display, has_float, lemma_contents, push_value, Content, Value};

verus! {

struct Slot {
    name: Vec<char>,
    value: Value,
}

/// A target of an assignment or of `push`/`pop`: a variable (by scope and position), the
/// positions chosen by its indices, and the line of the variable's name.
struct Target {
    scope: usize,
    slot: usize,
    positions: Vec<usize>,
    line: usize,
}

/// Runs a checked program. Keeps a value for each variable, in a stack of scopes whose last
/// element is the current one, and collects what the program prints.
pub struct Interpreter<'f, F: FloatArith> {
    scopes: Vec<Vec<Slot>>,
    output: Vec<char>,
    floats: &'f F,
}

/// The most loop iterations a program may run before it is stopped.
pub const MAX_STEPS: u64 = 0xffff_ffff_ffff_ffff;

impl<'f, F: FloatArith> Interpreter<'f, F> {
    /// An interpreter with an empty global scope and no output. Float arithmetic is done by `floats`.
    pub fn new(floats: &'f F) -> (r: Self)
        ensures
            r.wf(),
            r.printed() == Seq::<char>::empty(),
            r.store() == fresh_store(),
    {
        let mut scopes: Vec<Vec<Slot>> = Vec::new();
        scopes.push(Vec::new());
        let r = Interpreter { scopes, output: Vec::new(), floats };
        proof {
            assert(scope_values(r.scopes@[0]@) =~= Seq::<(Seq<char>, Content)>::empty());
            assert(r.store() =~= fresh_store());
        }
        r
    }

    /// The interpreter's invariant: at least the global scope is open.
    pub closed spec fn wf(&self) -> bool {
        self.scopes@.len() > 0
    }

    /// What the program has printed so far.
    pub closed spec fn printed(&self) -> Seq<char> {
        self.output@
    }

    /// The variables with their values, scope by scope.
    pub closed spec fn store(&self) -> Store {
        self.scopes@.map_values(|s: Vec<Slot>| scope_values(s@))
    }

    /// The number of scopes and of variables in each: evaluating an expression never changes it.
    closed spec fn layout(&self) -> Seq<nat> {
        Seq::new(self.scopes@.len(), |i: int| self.scopes@[i]@.len())
    }

    /// What the program has printed so far.
    pub fn output(&self) -> (r: &Vec<char>)
        ensures
            r@ == self.printed(),
    {
        &self.output
    }

    /// Runs the statements in order (see `run_stmts`), with `MAX_STEPS` loop rounds in all.
    /// Stops at the first run-time error; what was printed before it stays printed.
    pub fn interpret(&mut self, statements: &Vec<Stmt>) -> (r: Result<(), String>)
        requires
            old(self).wf(),
        ensures
            stmts_ready(statements@) ==> (r matches Err(e) ==> names_line(e@)),
            final(self).wf(),
            old(self).printed().is_prefix_of(final(self).printed()),
            match run_stmts(old(self).store(), statements@, MAX_STEPS as nat) {
                Run::Done(st, printed, _) => r is Ok && final(self).store() == st && final(self).printed()
                    == old(self).printed() + printed,
                Run::Error(printed, f) => r matches Err(e) && reports(f, e@) && final(self).printed() == old(self).printed()
                    + printed,
                Run::Open(printed) => (old(self).printed() + printed).is_prefix_of(final(self).printed()),
            },
    {
        let ghost whole = run_stmts(old(self).store(), statements@, MAX_STEPS as nat);
        let ghost total = then_run(old(self).output@, whole);
        let mut fuel = MAX_STEPS;
        let mut k: usize = 0;
        proof {
            assert(statements@.skip(0) =~= statements@);
            assert(old(self).output@ =~= self.output@.subrange(0, old(self).output@.len() as int));
        }
        while k < statements.len()
            invariant
                self.wf(),
                old(self).output@.is_prefix_of(self.output@),
                k <= statements@.len(),
                whole == run_stmts(old(self).store(), statements@, MAX_STEPS as nat),
                total == then_run(old(self).output@, whole),
                opened(total, self.output@) || total == then_run(self.output@, run_stmts(self.store(), statements@.skip(k as int), fuel as nat)),
                stmts_ready(statements@) ==> stmts_ready(statements@.skip(k as int)),
            decreases statements@.len() - k,
        {
            let ghost before = self.output@;
            let ghost start = self.store();
            let ghost rest = statements@.skip(k as int);
            proof {
                assert(rest[0] == statements@[k as int]);
                assert(rest.drop_first() =~= statements@.skip(k + 1));
            }
            let step = self.execute(&statements[k], fuel);
            proof {
                lemma_statements_step(start, rest, fuel as nat, before, step, self.output@, self.store());
                lemma_prefix_chain(old(self).output@, before, self.output@);
            }
            match step {
                Ok(left) => {
                    fuel = left;
                },
                Err(e) => {
                    return Err(e);
                },
            }
            k = k + 1;
        }
        proof {
            assert(statements@.skip(k as int) =~= Seq::<Stmt>::empty());
            assert(self.output@ + Seq::<char>::empty() =~= self.output@);
        }
        Ok(())
    }

    /// Runs a block in a scope of its own (see `run_block`).
    fn execute_block(&mut self, statements: &Vec<Stmt>, fuel: u64) -> (r: Result<u64, String>)
        requires
            old(self).wf(),
        ensures
            stmts_ready(statements@) ==> (r matches Err(e) ==> names_line(e@)),
            final(self).wf(),
            old(self).printed().is_prefix_of(final(self).printed()),
            r matches Ok(left) ==> left <= fuel && final(self).scopes@.len() == old(self).scopes@.len(),
            outcome_holds(run_block(old(self).store(), statements@, fuel as nat), r, old(self).output@, final(self).output@, final(self).store()),
        decreases fuel, statements, 0nat,
    {
        let ghost whole = run_block(old(self).store(), statements@, fuel as nat);
        let ghost total = then_run(old(self).output@, whole);
        self.open_scope(Vec::new());
        let mut remaining = fuel;
        let mut k: usize = 0;
        proof {
            assert(scope_values(Seq::<Slot>::empty()) =~= Seq::<(Seq<char>, Content)>::empty());
            assert(statements@.skip(0) =~= statements@);
            assert(old(self).output@ =~= self.output@.subrange(0, old(self).output@.len() as int));
            lemma_leave_scope(old(self).output@, run_stmts(old(self).store().push(Seq::empty()), statements@, fuel as nat));
        }
        while k < statements.len()
            invariant
                self.wf(),
                self.scopes@.len() == old(self).scopes@.len() + 1,
                old(self).output@.is_prefix_of(self.output@),
                remaining <= fuel,
                k <= statements@.len(),
                whole == run_block(old(self).store(), statements@, fuel as nat),
                total == then_run(old(self).output@, whole),
                opened(total, self.output@) || total == leave_scope(
                    then_run(self.output@, run_stmts(self.store(), statements@.skip(k as int), remaining as nat)),
                ),
                stmts_ready(statements@) ==> stmts_ready(statements@.skip(k as int)),
            decreases statements@.len() - k,
        {
            proof {
                assert(decreases_to!(statements => statements@));
                assert(decreases_to!(statements@ => statements@[k as int]));
            }
            let ghost before = self.output@;
            let ghost start = self.store();
            let ghost rest = statements@.skip(k as int);
            proof {
                assert(rest[0] == statements@[k as int]);
                assert(rest.drop_first() =~= statements@.skip(k + 1));
            }
            let step = self.execute(&statements[k], remaining);
            proof {
                lemma_statements_step(start, rest, remaining as nat, before, step, self.output@, self.store());
                lemma_prefix_chain(old(self).output@, before, self.output@);
            }
            match step {
                Ok(left) => {
                    remaining = left;
                },
                Err(e) => {
                    proof {
                        lemma_failed(whole, old(self).output@, Err(e), self.output@, self.store());
                    }
                    return Err(e);
                },
            }
            k = k + 1;
        }
        proof {
            assert(statements@.skip(k as int) =~= Seq::<Stmt>::empty());
            assert(self.output@ + Seq::<char>::empty() =~= self.output@);
        }
        self.close_scope();
        proof {
            lemma_finished(whole, old(self).output@, remaining, self.output@, self.store());
        }
        Ok(remaining)
    }

    /// Opens an innermost scope holding `scope`.
    fn open_scope(&mut self, scope: Vec<Slot>)
        requires
            old(self).wf(),
        ensures
            final(self).wf(),
            final(self).store() == old(self).store().push(scope_values(scope@)),
            final(self).scopes@.len() == old(self).scopes@.len() + 1,
            final(self).output == old(self).output,
    {
        let ghost added = scope@;
        self.scopes.push(scope);
        assert(self.store() =~= old(self).store().push(scope_values(added)));
    }

    /// Closes the innermost scope.
    fn close_scope(&mut self)
        requires
            old(self).scopes@.len() > 1,
        ensures
            final(self).wf(),
            final(self).store() == old(self).store().drop_last(),
            final(self).scopes@.len() == old(self).scopes@.len() - 1,
            final(self).output == old(self).output,
    {
        let _ = self.scopes.pop();
        assert(self.store() =~= old(self).store().drop_last());
    }

    /// Adds a variable to the innermost scope.
    fn declare(&mut self, name: &Name, value: Value)
        requires
            old(self).wf(),
        ensures
            final(self).wf(),
            final(self).store() == declared(old(self).store(), name.text@, value@),
            final(self).scopes@.len() == old(self).scopes@.len(),
            final(self).output == old(self).output,
    {
        let ghost content = value@;
        let last = self.scopes.len() - 1;
        let slot = Slot { name: copy_chars(&name.text), value };
        let ghost scope_before = self.scopes@[last as int]@;
        self.scopes[last].push(slot);
        proof {
            assert(scope_values(self.scopes@[last as int]@) =~= scope_values(scope_before).push((name.text@, content)));
            assert(self.store() =~= declared(old(self).store(), name.text@, content));
        }
    }

    /// Runs one statement with at most `fuel` loop rounds; gives back the rounds left (see
    /// `run_stmt`).
    #[verifier::rlimit(80)]
    fn execute(&mut self, statement: &Stmt, fuel: u64) -> (r: Result<u64, String>)
        requires
            old(self).wf(),
        ensures
            stmt_ready(*statement) ==> (r matches Err(e) ==> names_line(e@)),
            final(self).wf(),
            old(self).printed().is_prefix_of(final(self).printed()),
            r matches Ok(left) ==> left <= fuel && final(self).scopes@.len() == old(self).scopes@.len(),
            outcome_holds(run_stmt(old(self).store(), *statement, fuel as nat), r, old(self).output@, final(self).output@, final(self).store()),
            plain_assignment(*statement) ==> (r is Err ==> final(self).store() == old(self).store()),
        decreases fuel, statement, 1nat,
    {
        proof {
            assert(self.output@ + Seq::<char>::empty() =~= self.output@);
            assert(self.output@ =~= self.output@.subrange(0, self.output@.len() as int));
        }
        match statement {
            Stmt::Call(expression) => {
                self.evaluate_call(expression)?;
                proof {
                    self.lemma_same_layout(*old(self));
                }
                Ok(fuel)
            },
            Stmt::Import { .. } => Ok(fuel),
            Stmt::Declare { name, initializer, .. } => {
                let value = self.evaluate(initializer)?;
                proof {
                    self.lemma_same_layout(*old(self));
                }
                self.declare(name, value);
                Ok(fuel)
            },
            Stmt::Assign { name, indices, value } => {
                // The target and its indices are resolved before the new value is evaluated.
                let target = self.resolve_assignment(name, indices)?;
                let value = self.evaluate(value)?;
                self.write(&target, value)?;
                proof {
                    self.lemma_same_layout(*old(self));
                }
                Ok(fuel)
            },
            Stmt::CompoundAssign { name, indices, operator, value, line } => {
                let target = self.resolve_assignment(name, indices)?;
                let operand = self.evaluate(value)?;
                let current = self.read(&target)?;
                let result = binary(current, operator.binary(), operand, *line, self.floats)?;
                self.write(&target, result)?;
                proof {
                    self.lemma_same_layout(*old(self));
                }
                Ok(fuel)
            },
            Stmt::Increment { name, indices, operator, line } => {
                let target = self.resolve_assignment(name, indices)?;
                let current = self.read(&target)?;
                let unit = match current {
                    Value::Float(_) => Value::Float(ONE_BITS),
                    _ => Value::Int(1),
                };
                let result = binary(current, operator.binary(), unit, *line, self.floats)?;
                self.write(&target, result)?;
                proof {
                    self.lemma_same_layout(*old(self));
                }
                Ok(fuel)
            },
            Stmt::If { condition, then_branch, else_branch, line } => {
                if self.evaluate_condition(condition, *line)? {
                    self.execute_block(then_branch, fuel)
                } else {
                    match else_branch {
                        Some(branch) => self.execute_block(branch, fuel),
                        None => Ok(fuel),
                    }
                }
            },
            Stmt::While { .. } => self.execute_while(statement, fuel),
            Stmt::For { .. } => self.execute_for(statement, fuel),
            Stmt::Foreach { .. } => self.execute_foreach(statement, fuel),
            Stmt::Print(expression) => {
                let value = self.evaluate(expression)?;
                proof {
                    self.lemma_same_layout(*old(self));
                }
                push_value(&mut self.output, &value, self.floats);
                Ok(fuel)
            },
            Stmt::Println(expression) => {
                let value = self.evaluate(expression)?;
                proof {
                    self.lemma_same_layout(*old(self));
                }
                let ghost before = self.output@;
                push_value(&mut self.output, &value, self.floats);
                let ghost middle = self.output@;
                self.output.push('\n');
                proof {
                    assert(middle =~= self.output@.subrange(0, middle.len() as int));
                    lemma_prefix_chain(before, middle, self.output@);
                    if !has_float(value@) {
                        assert(self.output@ =~= old(self).output@ + (display(value@) + seq!['\n']));
                    }
                }
                Ok(fuel)
            },
        }
    }

    /// The rounds of a `while` (see `run_while`).
    fn execute_while(&mut self, statement: &Stmt, fuel: u64) -> (r: Result<u64, String>)
        requires
            old(self).wf(),
            *statement is While,
        ensures
            stmt_ready(*statement) ==> (r matches Err(e) ==> names_line(e@)),
            final(self).wf(),
            old(self).printed().is_prefix_of(final(self).printed()),
            r matches Ok(left) ==> left <= fuel && final(self).scopes@.len() == old(self).scopes@.len(),
            outcome_holds(run_while(old(self).store(), *statement, fuel as nat), r, old(self).output@, final(self).output@, final(self).store()),
        decreases fuel, statement, 0nat,
    {
        let (condition, body, line) = match statement {
            Stmt::While { condition, body, line } => (condition, body, line),
            _ => {
                return Err(string_of(&Vec::new()));
            },
        };
        let ghost whole = run_while(old(self).store(), *statement, fuel as nat);
        let ghost total = then_run(old(self).output@, whole);
        let mut remaining = fuel;
        proof {
            assert(old(self).output@ =~= self.output@.subrange(0, old(self).output@.len() as int));
        }
        loop
            invariant_except_break
                self.wf(),
                self.scopes@.len() == old(self).scopes@.len(),
                old(self).output@.is_prefix_of(self.output@),
                remaining <= fuel,
                *statement == (Stmt::While { condition: *condition, body: *body, line: *line }),
                whole == run_while(old(self).store(), *statement, fuel as nat),
                total == then_run(old(self).output@, whole),
                opened(total, self.output@) || total == then_run(self.output@, run_while(self.store(), *statement, remaining as nat)),
            ensures
                self.wf(),
                self.scopes@.len() == old(self).scopes@.len(),
                old(self).output@.is_prefix_of(self.output@),
                remaining <= fuel,
                *statement == (Stmt::While { condition: *condition, body: *body, line: *line }),
                whole == run_while(old(self).store(), *statement, fuel as nat),
                total == then_run(old(self).output@, whole),
                opened(total, self.output@) || total == Run::Done(self.store(), self.output@, remaining as nat),
            decreases remaining,
        {
            let ghost before = self.output@;
            let ghost start = self.store();
            proof {
                assert(before + Seq::<char>::empty() =~= before);
            }
            let go = match self.evaluate_condition(condition, *line) {
                Ok(b) => b,
                Err(e) => {
                    proof {
                        lemma_failed(whole, old(self).output@, Err(e), self.output@, self.store());
                    }
                    return Err(e);
                },
            };
            if !go {
                break;
            }
            if remaining == 0 {
                let e = out_of_steps(*line);
                proof {
                    lemma_failed(whole, old(self).output@, Err(e), self.output@, self.store());
                }
                return Err(e);
            }
            let ghost inner = self.store();
            let block = self.execute_block(body, remaining - 1);
            proof {
                if eval(start, statement->While_condition) == Eval::Value(Content::Bool(true), inner) {
                    lemma_while_round(start, *statement, remaining as nat, inner, before, block, self.output@, self.store());
                }
                lemma_prefix_chain(old(self).output@, before, self.output@);
            }
            match block {
                Ok(left) => {
                    remaining = left;
                },
                Err(e) => {
                    proof {
                        lemma_failed(whole, old(self).output@, Err(e), self.output@, self.store());
                    }
                    return Err(e);
                },
            }
        }
        proof {
            lemma_finished(whole, old(self).output@, remaining, self.output@, self.store());
        }
        Ok(remaining)
    }

    /// A `for`: the counter's scope, the initializer, then the rounds (see `run_for`).
    fn execute_for(&mut self, statement: &Stmt, fuel: u64) -> (r: Result<u64, String>)
        requires
            old(self).wf(),
            *statement is For,
        ensures
            stmt_ready(*statement) ==> (r matches Err(e) ==> names_line(e@)),
            final(self).wf(),
            old(self).printed().is_prefix_of(final(self).printed()),
            r matches Ok(left) ==> left <= fuel && final(self).scopes@.len() == old(self).scopes@.len(),
            outcome_holds(run_stmt(old(self).store(), *statement, fuel as nat), r, old(self).output@, final(self).output@, final(self).store()),
        decreases fuel, statement, 0nat,
    {
        let (initializer, condition, update, body, line) = match statement {
            Stmt::For { initializer, condition, update, body, line } => (initializer, condition, update, body, line),
            _ => {
                return Err(string_of(&Vec::new()));
            },
        };
        let ghost whole = run_stmt(old(self).store(), *statement, fuel as nat);
        let ghost total = then_run(old(self).output@, whole);
        self.open_scope(Vec::new());
        proof {
            assert(scope_values(Seq::<Slot>::empty()) =~= Seq::<(Seq<char>, Content)>::empty());
        }
        let first = self.execute(initializer, fuel);
        proof {
            lemma_for_start(old(self).store(), *statement, fuel as nat, old(self).output@, first, self.output@, self.store());
        }
        let mut remaining = match first {
            Ok(left) => left,
            Err(e) => {
                proof {
                    lemma_failed(whole, old(self).output@, Err(e), self.output@, self.store());
                }
                return Err(e);
            },
        };
        loop
            invariant_except_break
                self.wf(),
                self.scopes@.len() == old(self).scopes@.len() + 1,
                old(self).output@.is_prefix_of(self.output@),
                remaining <= fuel,
                *statement == (Stmt::For { initializer: *initializer, condition: *condition, update: *update, body: *body, line: *line }),
                whole == run_stmt(old(self).store(), *statement, fuel as nat),
                total == then_run(old(self).output@, whole),
                opened(total, self.output@) || total == leave_scope(then_run(self.output@, run_for(self.store(), *statement, remaining as nat))),
            ensures
                self.wf(),
                self.scopes@.len() == old(self).scopes@.len() + 1,
                old(self).output@.is_prefix_of(self.output@),
                remaining <= fuel,
                *statement == (Stmt::For { initializer: *initializer, condition: *condition, update: *update, body: *body, line: *line }),
                whole == run_stmt(old(self).store(), *statement, fuel as nat),
                total == then_run(old(self).output@, whole),
                opened(total, self.output@) || total == Run::Done(self.store().drop_last(), self.output@, remaining as nat),
            decreases remaining,
        {
            let ghost before = self.output@;
            let ghost start = self.store();
            proof {
                assert(before + Seq::<char>::empty() =~= before);
            }
            let go = match self.evaluate_condition(condition, *line) {
                Ok(b) => b,
                Err(e) => {
                    proof {
                        lemma_failed(whole, old(self).output@, Err(e), self.output@, self.store());
                    }
                    return Err(e);
                },
            };
            if !go {
                break;
            }
            if remaining == 0 {
                let e = out_of_steps(*line);
                proof {
                    lemma_failed(whole, old(self).output@, Err(e), self.output@, self.store());
                }
                return Err(e);
            }
            let ghost inner = self.store();
            let block = self.execute_block(body, remaining - 1);
            proof {
                if eval(start, statement->For_condition) == Eval::Value(Content::Bool(true), inner) {
                    lemma_for_body(start, *statement, remaining as nat, inner, before, block, self.output@, self.store());
                }
                lemma_prefix_chain(old(self).output@, before, self.output@);
            }
            let left = match block {
                Ok(left) => left,
                Err(e) => {
                    proof {
                        lemma_failed(whole, old(self).output@, Err(e), self.output@, self.store());
                    }
                    return Err(e);
                },
            };
            let ghost middle = self.output@;
            let ghost after_body = self.store();
            let step = self.execute(update, left);
            proof {
                lemma_for_update(after_body, *statement, left as nat, remaining as nat, middle, step, self.output@, self.store());
                lemma_prefix_chain(old(self).output@, middle, self.output@);
            }
            match step {
                Ok(rest) => {
                    remaining = rest;
                },
                Err(e) => {
                    proof {
                        lemma_failed(whole, old(self).output@, Err(e), self.output@, self.store());
                    }
                    return Err(e);
                },
            }
        }
        self.close_scope();
        proof {
            lemma_finished(whole, old(self).output@, remaining, self.output@, self.store());
        }
        Ok(remaining)
    }

    /// A `foreach`: the array, evaluated once, then one round per element (see `run_each`).
    fn execute_foreach(&mut self, statement: &Stmt, fuel: u64) -> (r: Result<u64, String>)
        requires
            old(self).wf(),
            *statement is Foreach,
        ensures
            stmt_ready(*statement) ==> (r matches Err(e) ==> names_line(e@)),
            final(self).wf(),
            old(self).printed().is_prefix_of(final(self).printed()),
            r matches Ok(left) ==> left <= fuel && final(self).scopes@.len() == old(self).scopes@.len(),
            outcome_holds(run_stmt(old(self).store(), *statement, fuel as nat), r, old(self).output@, final(self).output@, final(self).store()),
        decreases fuel, statement, 0nat,
    {
        let (name, iterable, body, line) = match statement {
            Stmt::Foreach { name, iterable, body, line, .. } => (name, iterable, body, line),
            _ => {
                return Err(string_of(&Vec::new()));
            },
        };
        let ghost whole = run_stmt(old(self).store(), *statement, fuel as nat);
        let ghost total = then_run(old(self).output@, whole);
        proof {
            assert(self.output@ + Seq::<char>::empty() =~= self.output@);
            assert(old(self).output@ =~= self.output@.subrange(0, old(self).output@.len() as int));
        }
        // The array is evaluated once; each round gets a copy of one element.
        let array = self.evaluate(iterable)?;
        proof {
            self.lemma_same_layout(*old(self));
        }
        let elements = match array {
            Value::Array(elements) => elements,
            _ => {
                let mut m: Vec<char> = Vec::new();
                push_str(&mut m, "'foreach' solo recorre arrays.");
                assert(m@ =~= "'foreach' solo recorre arrays."@);
                return Err(line_message(*line, &m));
            },
        };
        let ghost xs = contents(elements@);
        proof {
            lemma_contents(elements@);
        }
        let mut remaining = fuel;
        let mut k: usize = 0;
        while k < elements.len()
            invariant
                self.wf(),
                self.scopes@.len() == old(self).scopes@.len(),
                old(self).output@.is_prefix_of(self.output@),
                remaining <= fuel,
                k <= elements@.len(),
                xs == contents(elements@),
                xs.len() == elements@.len(),
                forall|j: int| 0 <= j < elements@.len() ==> #[trigger] xs[j] == elements@[j]@,
                *statement == (Stmt::Foreach { declared_type: statement->Foreach_declared_type, name: *name, iterable: *iterable, body: *body, line: *line }),
                whole == run_stmt(old(self).store(), *statement, fuel as nat),
                total == then_run(old(self).output@, whole),
                opened(total, self.output@) || total == then_run(self.output@, run_each(self.store(), *statement, xs, k as int, remaining as nat)),
            decreases elements@.len() - k,
        {
            let ghost before = self.output@;
            let ghost start = self.store();
            proof {
                assert(before + Seq::<char>::empty() =~= before);
            }
            if remaining == 0 {
                let e = out_of_steps(*line);
                proof {
                    lemma_failed(whole, old(self).output@, Err(e), self.output@, self.store());
                }
                return Err(e);
            }
            let mut scope: Vec<Slot> = Vec::new();
            scope.push(Slot { name: copy_chars(&name.text), value: copy_value(&elements[k]) });
            proof {
                assert(scope_values(scope@) =~= seq![(name.text@, xs[k as int])]);
            }
            self.open_scope(scope);
            let block = self.execute_block(body, remaining - 1);
            proof {
                lemma_each_round(start, *statement, xs, k as int, remaining as nat, before, block, self.output@, self.store());
                lemma_prefix_chain(old(self).output@, before, self.output@);
            }
            match block {
                Ok(left) => {
                    remaining = left;
                },
                Err(e) => {
                    proof {
                        lemma_failed(whole, old(self).output@, Err(e), self.output@, self.store());
                    }
                    return Err(e);
                },
            }
            self.close_scope();
            k = k + 1;
        }
        proof {
            assert(self.output@ + Seq::<char>::empty() =~= self.output@);
            lemma_finished(whole, old(self).output@, remaining, self.output@, self.store());
        }
        Ok(remaining)
    }

    /// The value of a condition, which the checker has shown to be `bool`.
    fn evaluate_condition(&mut self, condition: &Expr, line: usize) -> (r: Result<bool, String>)
        requires
            old(self).wf(),
        ensures
            expr_ready(*condition) ==> (r matches Err(e) ==> names_line(e@)),
            final(self).wf(),
            final(self).layout() == old(self).layout(),
            final(self).scopes@.len() == old(self).scopes@.len(),
            final(self).output == old(self).output,
            match eval(old(self).store(), *condition) {
                Eval::Value(Content::Bool(b), st) => r == Ok::<bool, String>(b) && final(self).store() == st,
                Eval::Value(_, _) => r matches Err(e) && e@ == condition_message(line as nat),
                Eval::Error(f) => r matches Err(e) && reports(f, e@),
                Eval::Open => true,
            },
    {
        let value = self.evaluate(condition);
        proof {
            assert(self.layout().len() == old(self).layout().len());
        }
        match value? {
            Value::Bool(b) => Ok(b),
            _ => {
                let mut m: Vec<char> = Vec::new();
                push_str(&mut m, "La condición no es bool.");
                assert(m@ =~= "La condición no es bool."@);
                Err(line_message(line, &m))
            },
        }
    }

    /// The position of a variable: scope and slot, from the innermost scope outwards.
    fn find(&self, name: &Vec<char>) -> (r: Option<(usize, usize)>)
        ensures
            r matches Some((i, j)) ==> i < self.scopes@.len() && j < self.scopes@[i as int]@.len(),
            match r {
                Some((i, j)) => locate(self.store(), name@) == Some((i as int, j as int)),
                None => locate(self.store(), name@) is None,
            },
    {
        let ghost all = self.store();
        let mut i = self.scopes.len();
        assert(all.take(i as int) =~= all);
        while i > 0
            invariant
                i <= self.scopes@.len(),
                all == self.store(),
                locate(all, name@) == locate(all.take(i as int), name@),
            decreases i,
        {
            let ghost prefix = all.take(i as int);
            i = i - 1;
            let scope = &self.scopes[i];
            let ghost values = scope_values(scope@);
            assert(prefix.last() == values);
            assert(prefix.drop_last() =~= all.take(i as int));
            let mut j = scope.len();
            assert(values.take(j as int) =~= values);
            while j > 0
                invariant
                    j <= scope@.len(),
                    i < self.scopes@.len(),
                    *scope == self.scopes@[i as int],
                    values == scope_values(scope@),
                    slot_in(values, name@) == slot_in(values.take(j as int), name@),
                    prefix.len() == i + 1,
                    prefix.last() == values,
                    all == self.store(),
                    locate(all, name@) == locate(prefix, name@),
                decreases j,
            {
                let ghost part = values.take(j as int);
                j = j - 1;
                assert(part.last() == (scope@[j as int].name@, scope@[j as int].value@));
                assert(part.drop_last() =~= values.take(j as int));
                if chars_equal(&scope[j].name, name) {
                    proof {
                        assert(slot_in(part, name@) == Some(j as int));
                        assert(locate(prefix, name@) == Some((i as int, j as int)));
                    }
                    return Some((i, j));
                }
            }
            proof {
                assert(values.take(0) =~= Seq::<(Seq<char>, Content)>::empty());
            }
        }
        None
    }

    /// Resolves an assignment's target: the variable, then each index from left to right (see
    /// `resolve_path`).
    fn resolve_assignment(&mut self, name: &Name, indices: &Vec<(Expr, usize)>) -> (r: Result<Target, String>)
        requires
            old(self).wf(),
        ensures
            indices_ready(indices@) ==> (r matches Err(e) ==> names_line(e@)),
            final(self).wf(),
            final(self).layout() == old(self).layout(),
            final(self).output == old(self).output,
            r matches Ok(t) ==> final(self).valid_slot(t) && t.line == name.line,
            indices_call_free(indices@) ==> final(self).store() == old(self).store(),
            match locate(old(self).store(), name.text@) {
                None => r matches Err(e) && e@ == unbound_message(*name),
                Some((i, j)) => match resolve_path(old(self).store(), i, j, Seq::empty(), indices@, name.line as nat) {
                    TargetEval::Found(_, _, ps, st) => r matches Ok(t) && t.scope == i && t.slot == j && path_of(t.positions@)
                        == ps && final(self).store() == st,
                    TargetEval::Error(f) => r matches Err(e) && reports(f, e@),
                    TargetEval::Open => true,
                },
            },
    {
        let (scope, slot) = match self.find(&name.text) {
            Some(found) => found,
            None => {
                return Err(undeclared(name));
            },
        };
        let ghost whole = resolve_path(self.store(), scope as int, slot as int, Seq::empty(), indices@, name.line as nat);
        let mut target = Target { scope, slot, positions: Vec::new(), line: name.line };
        let mut k: usize = 0;
        proof {
            assert(indices@.skip(0) =~= indices@);
            assert(path_of(target.positions@) =~= Seq::<int>::empty());
        }
        while k < indices.len()
            invariant
                self.wf(),
                self.layout() == old(self).layout(),
                self.output == old(self).output,
                self.valid_slot(target),
                target.scope == scope,
                target.slot == slot,
                target.line == name.line,
                k <= indices@.len(),
                locate(old(self).store(), name.text@) == Some((scope as int, slot as int)),
                whole == resolve_path(old(self).store(), scope as int, slot as int, Seq::empty(), indices@, name.line as nat),
                whole is Open || whole == resolve_path(self.store(), scope as int, slot as int, path_of(target.positions@), indices@.skip(k as int), name.line as nat),
                indices_call_free(indices@) ==> self.store() == old(self).store(),
            decreases indices@.len() - k,
        {
            let ghost rest = indices@.skip(k as int);
            proof {
                assert(rest[0] == indices@[k as int]);
                assert(rest.drop_first() =~= indices@.skip(k + 1));
            }
            let (index_expression, line) = &indices[k];
            let index = self.evaluate(index_expression)?;
            let position = self.position_in_target(&target, index, *line)?;
            let ghost before = target.positions@;
            target.positions.push(position);
            proof {
                assert(path_of(target.positions@) =~= path_of(before).push(position as int));
            }
            k = k + 1;
        }
        proof {
            assert(indices@.skip(k as int) =~= Seq::<(Expr, usize)>::empty());
        }
        Ok(target)
    }

    /// Whether a target names an existing variable.
    closed spec fn valid_slot(&self, t: Target) -> bool {
        t.scope < self.layout().len() && t.slot < self.layout()[t.scope as int]
    }

    proof fn lemma_same_layout(&self, other: Self)
        requires
            self.layout() == other.layout(),
        ensures
            self.scopes@.len() == other.scopes@.len(),
    {
        assert(self.layout().len() == self.scopes@.len());
        assert(other.layout().len() == other.scopes@.len());
    }

    /// The store has a slot wherever the scopes have one.
    proof fn lemma_store_shape(&self, i: int, j: int)
        requires
            0 <= i < self.scopes@.len(),
            0 <= j < self.scopes@[i]@.len(),
        ensures
            self.store().len() == self.scopes@.len(),
            self.store()[i].len() == self.scopes@[i]@.len(),
            self.store()[i][j] == (self.scopes@[i]@[j].name@, self.scopes@[i]@[j].value@),
    {
    }

    proof fn lemma_valid_slot(&self, t: Target)
        requires
            self.valid_slot(t),
        ensures
            t.scope < self.scopes@.len(),
            t.slot < self.scopes@[t.scope as int]@.len(),
    {
    }

    /// The position that an index selects in the array a target holds now.
    fn position_in_target(&self, target: &Target, index: Value, line: usize) -> (r: Result<usize, String>)
        requires
            self.valid_slot(*target),
        ensures
            r matches Err(e) ==> names_line(e@),
            r matches Err(e) ==> reports(
                index_failure(
                    content_at(self.store()[target.scope as int][target.slot as int].1, path_of(target.positions@)),
                    index@,
                    line as nat,
                    target.line as nat,
                ),
                e@,
            ),
            match r {
                Ok(p) => position(content_at(self.store()[target.scope as int][target.slot as int].1, path_of(target.positions@)), index@)
                    == Some(p as int),
                Err(_) => position(content_at(self.store()[target.scope as int][target.slot as int].1, path_of(target.positions@)), index@)
                    is None,
            },
    {
        proof {
            assert(path_of(target.positions@).skip(0) =~= path_of(target.positions@));
        }
        let value = &self.scopes[target.scope][target.slot].value;
        match value_at(value, &target.positions, 0) {
            Some(array) => array_position(array, &index, line),
            None => Err(lost_target(target.line)),
        }
    }

    /// A copy of the value a target holds now.
    fn read(&self, target: &Target) -> (r: Result<Value, String>)
        requires
            self.valid_slot(*target),
        ensures
            r matches Err(e) ==> names_line(e@),
            r matches Err(e) ==> e@ == lost_message(target.line as nat),
            match r {
                Ok(v) => content_at(self.store()[target.scope as int][target.slot as int].1, path_of(target.positions@)) == Some(v@),
                Err(_) => content_at(self.store()[target.scope as int][target.slot as int].1, path_of(target.positions@)) is None,
            },
    {
        proof {
            assert(path_of(target.positions@).skip(0) =~= path_of(target.positions@));
        }
        let value = &self.scopes[target.scope][target.slot].value;
        match value_at(value, &target.positions, 0) {
            Some(v) => Ok(copy_value(v)),
            None => Err(lost_target(target.line)),
        }
    }

    /// Writes a value into a target, if its positions still exist.
    fn write(&mut self, target: &Target, value: Value) -> (r: Result<(), String>)
        requires
            old(self).wf(),
            old(self).valid_slot(*target),
        ensures
            r matches Err(e) ==> names_line(e@),
            r matches Err(e) ==> e@ == lost_message(target.line as nat),
            final(self).wf(),
            final(self).layout() == old(self).layout(),
            final(self).output == old(self).output,
            match update_at(old(self).store()[target.scope as int][target.slot as int].1, path_of(target.positions@), value@) {
                Some(c) => r is Ok && final(self).store() == store_with(old(self).store(), target.scope as int, target.slot as int, c),
                None => r is Err,
            },
            r is Err ==> final(self).store() == old(self).store(),
    {
        proof {
            assert(path_of(target.positions@).skip(0) =~= path_of(target.positions@));
        }
        proof {
            self.lemma_valid_slot(*target);
            self.lemma_store_shape(target.scope as int, target.slot as int);
        }
        let ghost start = self.store();
        let mut current = self.take(target.scope, target.slot);
        let written = write_at(&mut current, &target.positions, 0, value);
        self.put(target.scope, target.slot, current);
        proof {
            lemma_store_with_twice(start, target.scope as int, target.slot as int, Content::Int(0), current@);
            if !written {
                let i = target.scope as int;
                let j = target.slot as int;
                assert(start[i].update(j, (start[i][j].0, start[i][j].1)) =~= start[i]);
                assert(store_with(start, i, j, start[i][j].1) =~= start);
            }
        }
        if written {
            Ok(())
        } else {
            Err(lost_target(target.line))
        }
    }

    /// Takes the value of a variable out, leaving a placeholder.
    fn take(&mut self, scope: usize, slot: usize) -> (r: Value)
        requires
            old(self).wf(),
            scope < old(self).scopes@.len(),
            slot < old(self).scopes@[scope as int]@.len(),
        ensures
            final(self).wf(),
            final(self).layout() == old(self).layout(),
            final(self).output == old(self).output,
            r@ == old(self).store()[scope as int][slot as int].1,
            final(self).store() == store_with(old(self).store(), scope as int, slot as int, Content::Int(0)),
    {
        let mut s = self.scopes.remove(scope);
        let mut entry = s.remove(slot);
        let mut value = Value::Int(0);
        std::mem::swap(&mut entry.value, &mut value);
        s.insert(slot, entry);
        self.scopes.insert(scope, s);
        proof {
            assert(self.layout() =~= old(self).layout());
            let expected = store_with(old(self).store(), scope as int, slot as int, Content::Int(0));
            assert(scope_values(self.scopes@[scope as int]@) =~= expected[scope as int]);
            assert(self.store() =~= expected);
        }
        value
    }

    /// Puts a value into a variable.
    fn put(&mut self, scope: usize, slot: usize, value: Value)
        requires
            old(self).wf(),
            scope < old(self).scopes@.len(),
            slot < old(self).scopes@[scope as int]@.len(),
        ensures
            final(self).wf(),
            final(self).layout() == old(self).layout(),
            final(self).output == old(self).output,
            final(self).store() == store_with(old(self).store(), scope as int, slot as int, value@),
    {
        let ghost content = value@;
        let mut s = self.scopes.remove(scope);
        let mut entry = s.remove(slot);
        entry.value = value;
        s.insert(slot, entry);
        self.scopes.insert(scope, s);
        proof {
            assert(self.layout() =~= old(self).layout());
            let expected = store_with(old(self).store(), scope as int, slot as int, content);
            assert(scope_values(self.scopes@[scope as int]@) =~= expected[scope as int]);
            assert(self.store() =~= expected);
        }
    }

    /// Evaluates an expression, left to right. Only `pop` changes variables, and it never adds or
    /// removes one.
    fn evaluate(&mut self, expression: &Expr) -> (r: Result<Value, String>)
        requires
            old(self).wf(),
        ensures
            expr_ready(*expression) ==> (r matches Err(e) ==> names_line(e@)),
            final(self).wf(),
            final(self).layout() == old(self).layout(),
            final(self).output == old(self).output,
            call_free(*expression) ==> final(self).store() == old(self).store(),
            match eval(old(self).store(), *expression) {
                Eval::Value(c, st) => r matches Ok(v) && v@ == c && final(self).store() == st,
                Eval::Error(f) => r matches Err(e) && reports(f, e@),
                Eval::Open => true,
            },
        decreases expression, 2nat,
    {
        match expression {
            Expr::Literal(value) => Ok(copy_value(value)),
            Expr::Variable(name) => match self.find(&name.text) {
                Some((i, j)) => {
                    proof {
                        self.lemma_store_shape(i as int, j as int);
                    }
                    Ok(copy_value(&self.scopes[i][j].value))
                },
                None => Err(undeclared(name)),
            },
            Expr::Array { elements, .. } => {
                let ghost whole = eval(old(self).store(), *expression);
                let mut values: Vec<Value> = Vec::new();
                let mut k: usize = 0;
                proof {
                    assert(elements@.skip(0) =~= elements@);
                    lemma_contents(values@);
                    assert(whole == after_values(contents(values@), eval_elements(self.store(), elements@.skip(0))));
                    if expr_ready(*expression) {
                        lemma_exprs_ready(elements@);
                    }
                    if call_free(*expression) {
                        lemma_calls_free(elements@);
                    }
                }
                while k < elements.len()
                    invariant
                        self.wf(),
                        self.layout() == old(self).layout(),
                        self.output == old(self).output,
                        *expression == (Expr::Array { elements: *elements, line: expression->Array_line }),
                        k <= elements@.len(),
                        whole == eval(old(self).store(), *expression),
                        whole is Open || whole == after_values(contents(values@), eval_elements(self.store(), elements@.skip(k as int))),
                        expr_ready(*expression) ==> forall|j: int| 0 <= j < elements@.len() ==> expr_ready(#[trigger] elements@[j]),
                        call_free(*expression) ==> forall|j: int| 0 <= j < elements@.len() ==> call_free(#[trigger] elements@[j]),
                        call_free(*expression) ==> self.store() == old(self).store(),
                    decreases elements@.len() - k,
                {
                    proof {
                        let w = expression->Array_elements;
                        assert(decreases_to!(*expression => expression->Array_elements));
                        assert(decreases_to!(w => w@));
                        assert(decreases_to!(w@ => w@[k as int]));
                        let rest = elements@.skip(k as int);
                        assert(rest[0] == elements@[k as int]);
                        assert(rest.drop_first() =~= elements@.skip(k + 1));
                    }
                    let ghost before = values@;
                    let ghost store_before = self.store();
                    let v = self.evaluate(&elements[k])?;
                    values.push(v);
                    proof {
                        lemma_contents(before);
                        lemma_contents(values@);
                        assert(contents(values@) =~= contents(before).push(values@.last()@));
                        lemma_after_values_step(contents(before), values@.last()@, eval_elements(self.store(), elements@.skip(k + 1)));
                    }
                    k = k + 1;
                }
                proof {
                    assert(elements@.skip(k as int) =~= Seq::<Expr>::empty());
                    assert(contents(values@) + Seq::<Content>::empty() =~= contents(values@));
                }
                Ok(Value::Array(values))
            },
            Expr::Index { array, index, line } => {
                let array = self.evaluate(array)?;
                let index = self.evaluate(index)?;
                let position = array_position(&array, &index, *line)?;
                match &array {
                    Value::Array(elements) => {
                        proof {
                            lemma_contents(elements@);
                        }
                        if position < elements.len() {
                            Ok(copy_value(&elements[position]))
                        } else {
                            Err(lost_target(*line))
                        }
                    },
                    _ => Err(lost_target(*line)),
                }
            },
            Expr::Unary { operator, operand, line } => {
                let value = self.evaluate(operand)?;
                unary(*operator, value, *line)
            },
            Expr::Binary { left, operator, right, line } => {
                let left = self.evaluate(left)?;
                // Short circuit: the right operand is evaluated only when it decides the result.
                match (*operator, &left) {
                    (BinaryOp::And, Value::Bool(false)) => {
                        return Ok(left);
                    },
                    (BinaryOp::Or, Value::Bool(true)) => {
                        return Ok(left);
                    },
                    _ => {},
                }
                let right = self.evaluate(right)?;
                binary(left, *operator, right, *line, self.floats)
            },
            Expr::LibraryCall { path, .. } => {
                match self.evaluate_call(expression)? {
                    Some(v) => Ok(v),
                    None => {
                        if path.len() == 0 {
                            return Err(string_of(&Vec::new()));
                        }
                        Err(path[path.len() - 1].error("'push' no devuelve un valor; úsalo como instrucción con ';'."))
                    },
                }
            },
        }
    }

    /// Runs a library call: `len` on the value of its array; `push` and `pop` on the variable
    /// (or subarray) they name, whose indices are evaluated once, before `push`'s element.
    fn evaluate_call(&mut self, expression: &Expr) -> (r: Result<Option<Value>, String>)
        requires
            old(self).wf(),
        ensures
            expr_ready(*expression) && *expression is LibraryCall ==> (r matches Err(e) ==> names_line(e@)),
            final(self).wf(),
            final(self).layout() == old(self).layout(),
            final(self).output == old(self).output,
            match eval_call(old(self).store(), *expression) {
                CallEval::Done(result, st) => r matches Ok(v) && optional_content(v) == result && final(self).store() == st,
                CallEval::Error(f) => r matches Err(e) && reports(f, e@),
                CallEval::Open => true,
            },
        decreases expression, 1nat,
    {
        match expression {
            Expr::LibraryCall { path, receiver, arguments } => {
                if path.len() == 0 {
                    return Err(string_of(&Vec::new()));
                }
                let name = &path[path.len() - 1];
                proof {
                    if expr_ready(*expression) {
                        lemma_exprs_ready(arguments@);
                    }
                }
                let function = if is_named(&name.text, "push") {
                    ArrayFunction::Push
                } else if is_named(&name.text, "pop") {
                    ArrayFunction::Pop
                } else {
                    ArrayFunction::Len
                };
                let array: &Expr = match receiver {
                    Some(r) => {
                        proof {
                            assert(decreases_to!(*expression => expression->receiver));
                        }
                        &**r
                    },
                    None => {
                        if arguments.len() == 0 {
                            return Err(name.error("Falta el array de la llamada."));
                        }
                        proof {
                            let w = expression->arguments;
                            assert(decreases_to!(*expression => expression->arguments));
                            assert(decreases_to!(w => w@));
                            assert(decreases_to!(w@ => w@[0]));
                        }
                        &arguments[0]
                    },
                };
                if function == ArrayFunction::Len {
                    let mut value = self.evaluate(array)?;
                    return function.evaluate(&mut value, None, name);
                }
                let target = self.resolve_target(array, name)?;
                let argument = if function == ArrayFunction::Push {
                    if arguments.len() == 0 {
                        return Err(name.error("'push' necesita un valor que añadir."));
                    }
                    proof {
                        let w = expression->arguments;
                        assert(decreases_to!(*expression => expression->arguments));
                        assert(decreases_to!(w => w@));
                        assert(decreases_to!(w@ => w@[arguments@.len() - 1]));
                    }
                    let v = self.evaluate(&arguments[arguments.len() - 1])?;
                    Some(v)
                } else {
                    None
                };
                proof {
                    self.lemma_valid_slot(target);
                    self.lemma_store_shape(target.scope as int, target.slot as int);
                    assert(path_of(target.positions@).skip(0) =~= path_of(target.positions@));
                }
                let ghost st = self.store();
                let mut current = self.take(target.scope, target.slot);
                let result = apply_at(&mut current, &target.positions, 0, function, argument, name);
                self.put(target.scope, target.slot, current);
                proof {
                    lemma_store_with_twice(st, target.scope as int, target.slot as int, Content::Int(0), current@);
                }
                match result {
                    Some(r) => r,
                    None => Err(lost_target(target.line)),
                }
            },
            _ => Err(string_of(&Vec::new())),
        }
    }

    /// Resolves the array that `push` or `pop` changes: a variable followed by indices. An
    /// expression of another shape is refused at the line of the call's name `call`.
    fn resolve_target(&mut self, expression: &Expr, call: &Name) -> (r: Result<Target, String>)
        requires
            old(self).wf(),
        ensures
            expr_ready(*expression) ==> (r matches Err(e) ==> names_line(e@)),
            final(self).wf(),
            final(self).layout() == old(self).layout(),
            final(self).output == old(self).output,
            r matches Ok(t) ==> final(self).valid_slot(t) && t.line == target_line(*expression),
            match target_of(old(self).store(), *expression, *call) {
                TargetEval::Found(i, j, ps, st) => r matches Ok(t) && t.scope == i && t.slot == j && path_of(t.positions@) == ps
                    && final(self).store() == st,
                TargetEval::Error(f) => r matches Err(e) && reports(f, e@),
                TargetEval::Open => true,
            },
        decreases expression, 0nat,
    {
        match expression {
            Expr::Variable(name) => match self.find(&name.text) {
                Some((scope, slot)) => {
                    let target = Target { scope, slot, positions: Vec::new(), line: name.line };
                    assert(path_of(target.positions@) =~= Seq::<int>::empty());
                    Ok(target)
                },
                None => Err(undeclared(name)),
            },
            Expr::Index { array, index, line } => {
                let mut target = self.resolve_target(array, call)?;
                let index = self.evaluate(index)?;
                let position = self.position_in_target(&target, index, *line)?;
                let ghost before = target.positions@;
                target.positions.push(position);
                assert(path_of(target.positions@) =~= path_of(before).push(position as int));
                Ok(target)
            },
            _ => Err(call.error("Se necesita una variable array modificable o uno de sus subarrays.")),
        }
    }
}

/// What running gives matches what the interpreter did: the result, the store and the text
/// appended to the output, or an error after the text printed before it.
spec fn outcome_holds(run: Run, r: Result<u64, String>, before: Seq<char>, after: Seq<char>, store: Store) -> bool {
    match run {
        Run::Done(st, printed, left) => r is Ok && r->Ok_0 == left && store == st && after == before + printed,
        Run::Error(printed, f) => r matches Err(e) && reports(f, e@) && after == before + printed,
        Run::Open(printed) => (before + printed).is_prefix_of(after),
    }
}

/// A run that went open after printing a text that `out` starts with.
spec fn opened(run: Run, out: Seq<char>) -> bool {
    run matches Run::Open(p) && p.is_prefix_of(out)
}


/// A run that ends in an error after printing `printed`, and `r` is that error's message.
spec fn stops_with(run: Run, printed: Seq<char>, r: Result<u64, String>) -> bool {
    match (run, r) {
        (Run::Error(p, f), Err(e)) => p == printed && reports(f, e@),
        _ => false,
    }
}

/// An error, once the whole output of a run is known to end there.
proof fn lemma_failed(whole: Run, before: Seq<char>, r: Result<u64, String>, after: Seq<char>, store: Store)
    requires
        r is Err,
        opened(then_run(before, whole), after) || stops_with(then_run(before, whole), after, r),
    ensures
        outcome_holds(whole, r, before, after, store),
{
}

/// Success, once the whole output of a run is known to end there.
proof fn lemma_finished(whole: Run, before: Seq<char>, left: u64, after: Seq<char>, store: Store)
    requires
        opened(then_run(before, whole), after) || then_run(before, whole) == Run::Done(store, after, left as nat),
    ensures
        outcome_holds(whole, Ok(left), before, after, store),
{
}

proof fn lemma_prefix_chain(a: Seq<char>, b: Seq<char>, c: Seq<char>)
    requires
        a.is_prefix_of(b),
        b.is_prefix_of(c),
    ensures
        a.is_prefix_of(c),
{
    assert forall|i: int| 0 <= i < a.len() implies a[i] == c[i] by {
        assert(a[i] == b.subrange(0, a.len() as int)[i]);
        assert(b[i] == c.subrange(0, b.len() as int)[i]);
    }
    assert(a =~= c.subrange(0, a.len() as int));
}

/// One statement of a sequence, run as the interpreter ran it.
proof fn lemma_statements_step(
    store: Store,
    statements: Seq<Stmt>,
    fuel: nat,
    before: Seq<char>,
    r: Result<u64, String>,
    after: Seq<char>,
    next: Store,
)
    requires
        statements.len() > 0,
        outcome_holds(run_stmt(store, statements[0], fuel), r, before, after, next),
    ensures
        ({
            let total = then_run(before, run_stmts(store, statements, fuel));
            &&& r matches Ok(left) ==> opened(total, after) || total == then_run(after, run_stmts(next, statements.drop_first(), left as nat))
            &&& r is Err ==> opened(total, after) || stops_with(total, after, r)
        }),
{
    if let Run::Done(s1, p, left) = run_stmt(store, statements[0], fuel) {
        lemma_then_run(before, p, run_stmts(s1, statements.drop_first(), left));
    }
}

/// One round of a `while`, whose condition held.
proof fn lemma_while_round(
    store: Store,
    s: Stmt,
    fuel: nat,
    inner: Store,
    before: Seq<char>,
    r: Result<u64, String>,
    after: Seq<char>,
    next: Store,
)
    requires
        s is While,
        fuel > 0,
        eval(store, s->While_condition) == Eval::Value(Content::Bool(true), inner),
        outcome_holds(run_block(inner, s->While_body@, (fuel - 1) as nat), r, before, after, next),
        r matches Ok(left) ==> left < fuel,
    ensures
        ({
            let total = then_run(before, run_while(store, s, fuel));
            &&& r matches Ok(left) ==> opened(total, after) || total == then_run(after, run_while(next, s, left as nat))
            &&& r is Err ==> opened(total, after) || stops_with(total, after, r)
        }),
{
    if let Run::Done(s2, p, left) = run_block(inner, s->While_body@, (fuel - 1) as nat) {
        lemma_then_run(before, p, run_while(s2, s, left));
    }
}

/// The initializer of a `for`, run in the counter's scope.
proof fn lemma_for_start(store: Store, s: Stmt, fuel: nat, before: Seq<char>, r: Result<u64, String>, after: Seq<char>, next: Store)
    requires
        s is For,
        outcome_holds(run_stmt(store.push(Seq::empty()), *s->For_initializer, fuel), r, before, after, next),
    ensures
        ({
            let total = then_run(before, run_stmt(store, s, fuel));
            &&& r matches Ok(left) ==> opened(total, after) || total == leave_scope(then_run(after, run_for(next, s, left as nat)))
            &&& r is Err ==> opened(total, after) || stops_with(total, after, r)
        }),
{
    if let Run::Done(s1, p, left) = run_stmt(store.push(Seq::empty()), *s->For_initializer, fuel) {
        lemma_leave_scope(before, then_run(p, run_for(s1, s, left)));
        lemma_then_run(before, p, run_for(s1, s, left));
    }
}

/// What remains of a `for` round after its body: the update, then the next rounds.
spec fn after_body(store: Store, s: Stmt, left: nat, fuel: nat) -> Run {
    match run_stmt(store, *s->For_update, left) {
        Run::Done(s3, more, rest) => then_run(more, run_for(s3, s, if rest < fuel { rest } else { (fuel - 1) as nat })),
        other => other,
    }
}

/// The body of a `for` round, whose condition held.
proof fn lemma_for_body(
    store: Store,
    s: Stmt,
    fuel: nat,
    inner: Store,
    before: Seq<char>,
    r: Result<u64, String>,
    after: Seq<char>,
    next: Store,
)
    requires
        s is For,
        fuel > 0,
        eval(store, s->For_condition) == Eval::Value(Content::Bool(true), inner),
        outcome_holds(run_block(inner, s->For_body@, (fuel - 1) as nat), r, before, after, next),
    ensures
        ({
            let total = then_run(before, run_for(store, s, fuel));
            &&& r matches Ok(left) ==> opened(total, after) || total == then_run(after, after_body(next, s, left as nat, fuel))
            &&& r is Err ==> opened(total, after) || stops_with(total, after, r)
        }),
{
    if let Run::Done(s2, p, left) = run_block(inner, s->For_body@, (fuel - 1) as nat) {
        if let Run::Done(s3, more, rest) = run_stmt(s2, *s->For_update, left) {
            lemma_then_run(p, more, run_for(s3, s, if rest < fuel { rest } else { (fuel - 1) as nat }));
        }
        lemma_then_run(before, p, after_body(s2, s, left, fuel));
    }
}

/// The update of a `for` round.
proof fn lemma_for_update(
    store: Store,
    s: Stmt,
    left: nat,
    fuel: nat,
    before: Seq<char>,
    r: Result<u64, String>,
    after: Seq<char>,
    next: Store,
)
    requires
        s is For,
        outcome_holds(run_stmt(store, *s->For_update, left), r, before, after, next),
        r matches Ok(rest) ==> rest < fuel,
    ensures
        ({
            let total = then_run(before, after_body(store, s, left, fuel));
            &&& r matches Ok(rest) ==> opened(total, after) || total == then_run(after, run_for(next, s, rest as nat))
            &&& r is Err ==> opened(total, after) || stops_with(total, after, r)
        }),
{
    if let Run::Done(s3, more, rest) = run_stmt(store, *s->For_update, left) {
        lemma_then_run(before, more, run_for(s3, s, rest));
    }
}

/// One round of a `foreach`, on the element at position `k`.
proof fn lemma_each_round(
    store: Store,
    s: Stmt,
    xs: Seq<Content>,
    k: int,
    fuel: nat,
    before: Seq<char>,
    r: Result<u64, String>,
    after: Seq<char>,
    next: Store,
)
    requires
        s is Foreach,
        0 <= k < xs.len(),
        fuel > 0,
        outcome_holds(
            run_block(store.push(seq![(s->Foreach_name.text@, xs[k])]), s->Foreach_body@, (fuel - 1) as nat),
            r,
            before,
            after,
            next,
        ),
    ensures
        ({
            let total = then_run(before, run_each(store, s, xs, k, fuel));
            &&& r matches Ok(left) ==> opened(total, after) || total == then_run(after, run_each(next.drop_last(), s, xs, k + 1, left as nat))
            &&& r is Err ==> opened(total, after) || stops_with(total, after, r)
        }),
{
    if let Run::Done(s2, p, left) = run_block(store.push(seq![(s->Foreach_name.text@, xs[k])]), s->Foreach_body@, (fuel - 1) as nat) {
        lemma_then_run(before, p, run_each(s2.drop_last(), s, xs, k + 1, left));
    }
}

/// The values of the elements already evaluated, in front of the evaluation of the rest.
spec fn after_values(done: Seq<Content>, rest: Eval) -> Eval {
    match rest {
        Eval::Value(Content::Array(cs), st) => Eval::Value(Content::Array(done + cs), st),
        Eval::Value(_, _) => Eval::Error(Failure::Unchecked(Seq::empty())),
        other => other,
    }
}

proof fn lemma_after_values_step(done: Seq<Content>, c: Content, rest: Eval)
    ensures
        after_values(done, after_values(seq![c], rest)) == after_values(done.push(c), rest),
{
    if let Eval::Value(Content::Array(cs), st) = rest {
        assert(done + (seq![c] + cs) =~= done.push(c) + cs);
    }
}

/// The names and values of a scope.
spec fn scope_values(s: Seq<Slot>) -> Seq<(Seq<char>, Content)> {
    s.map_values(|x: Slot| (x.name@, x.value@))
}

/// The positions of a target as integers.
spec fn path_of(ps: Seq<usize>) -> Seq<int> {
    ps.map_values(|p: usize| p as int)
}

proof fn lemma_path_step(ps: Seq<usize>, start: int)
    requires
        0 <= start <= ps.len(),
    ensures
        path_of(ps).skip(start).len() == ps.len() - start,
        start < ps.len() ==> path_of(ps).skip(start)[0] == ps[start] as int,
        start < ps.len() ==> path_of(ps).skip(start).drop_first() == path_of(ps).skip(start + 1),
        path_of(ps).skip(start).len() == 0 <==> start == ps.len(),
{
    if start < ps.len() {
        assert(path_of(ps).skip(start).drop_first() =~= path_of(ps).skip(start + 1));
    }
}

/// Whether the characters equal the text.
fn is_named(a: &Vec<char>, s: &str) -> (r: bool)
    ensures
        r == (a@ == s@),
{
    let b = crate::text::chars_of(s);
    chars_equal(a, &b)
}

/// The value at the given positions of nested arrays, starting at `start`; `None` when a
/// position no longer exists.
fn value_at<'a>(value: &'a Value, positions: &Vec<usize>, start: usize) -> (r: Option<&'a Value>)
    requires
        start <= positions@.len(),
    ensures
        match r {
            Some(v) => content_at(value@, path_of(positions@).skip(start as int)) == Some(v@),
            None => content_at(value@, path_of(positions@).skip(start as int)) is None,
        },
    decreases positions@.len() - start,
{
    proof {
        lemma_path_step(positions@, start as int);
    }
    if start == positions.len() {
        return Some(value);
    }
    match value {
        Value::Array(elements) => {
            let p = positions[start];
            proof {
                lemma_contents(elements@);
            }
            if p < elements.len() {
                value_at(&elements[p], positions, start + 1)
            } else {
                None
            }
        },
        _ => None,
    }
}

/// Replaces the value at the given positions; `false` when a position no longer exists.
fn write_at(value: &mut Value, positions: &Vec<usize>, start: usize, new_value: Value) -> (r: bool)
    requires
        start <= positions@.len(),
    ensures
        match update_at(old(value)@, path_of(positions@).skip(start as int), new_value@) {
            Some(c) => r && final(value)@ == c,
            None => !r && final(value)@ == old(value)@,
        },
    decreases positions@.len() - start,
{
    proof {
        lemma_path_step(positions@, start as int);
    }
    if start == positions.len() {
        *value = new_value;
        return true;
    }
    match value {
        Value::Array(elements) => {
            let p = positions[start];
            let ghost before = elements@;
            proof {
                lemma_contents(before);
            }
            if p < elements.len() {
                let written = write_at(&mut elements[p], positions, start + 1, new_value);
                proof {
                    lemma_contents(elements@);
                    assert(elements@ == before.update(p as int, elements@[p as int]));
                    assert(contents(elements@) =~= contents(before).update(p as int, elements@[p as int]@));
                    if !written {
                        assert(contents(elements@) =~= contents(before));
                    }
                }
                written
            } else {
                false
            }
        },
        _ => false,
    }
}

/// Runs an array function on the array at the given positions; `None` when a position no
/// longer exists.
fn apply_at(value: &mut Value, positions: &Vec<usize>, start: usize, function: ArrayFunction, argument: Option<Value>, name: &Name) -> (r: Option<Result<Option<Value>, String>>)
    requires
        start <= positions@.len(),
    ensures
        r matches Some(Err(e)) ==> names_line(e@),
        ({
            let p = path_of(positions@).skip(start as int);
            &&& r is None <==> content_at(old(value)@, p) is None
            &&& r is None ==> final(value)@ == old(value)@
            &&& r matches Some(Ok(res)) ==> (content_at(old(value)@, p) matches Some(Content::Array(xs)) && call_effect(
                function,
                xs,
                optional_content(argument),
            ) matches Some((result, after)) && result == optional_content(res) && update_at(
                old(value)@,
                p,
                Content::Array(after),
            ) == Some(final(value)@))
            &&& r matches Some(Err(e)) ==> (content_at(old(value)@, p) matches Some(c) && e@ == evaluate_error(
                function,
                c,
                optional_content(argument),
                *name,
            ))
            &&& r matches Some(Err(_)) ==> !(content_at(old(value)@, p) matches Some(Content::Array(xs)) && call_effect(
                function,
                xs,
                optional_content(argument),
            ) is Some)
        }),
    decreases positions@.len() - start,
{
    proof {
        lemma_path_step(positions@, start as int);
    }
    if start == positions.len() {
        return Some(function.evaluate(value, argument, name));
    }
    match value {
        Value::Array(elements) => {
            let p = positions[start];
            let ghost before = elements@;
            proof {
                lemma_contents(before);
            }
            if p < elements.len() {
                let result = apply_at(&mut elements[p], positions, start + 1, function, argument, name);
                proof {
                    lemma_contents(elements@);
                    assert(elements@ == before.update(p as int, elements@[p as int]));
                    assert(contents(elements@) =~= contents(before).update(p as int, elements@[p as int]@));
                    if result is None {
                        assert(contents(elements@) =~= contents(before));
                    }
                }
                result
            } else {
                None
            }
        },
        _ => None,
    }
}

/// The position an index selects in an array: an `int` from 0 to the length less one.
fn array_position(array: &Value, index: &Value, line: usize) -> (r: Result<usize, String>)
    ensures
        r matches Err(e) ==> names_line(e@),
        r matches Err(e) ==> e@ == index_message(array@, index@, line as nat),
        r matches Ok(p) ==> array matches Value::Array(xs) && p < xs@.len(),
        match r {
            Ok(p) => position(Some(array@), index@) == Some(p as int),
            Err(_) => position(Some(array@), index@) is None,
        },
{
    proof {
        if let Value::Array(xs) = array {
            lemma_contents(xs@);
        }
    }
    match (array, index) {
        (Value::Array(elements), Value::Int(i)) => {
            if *i >= 0 && (*i as u64) < (elements.len() as u64) {
                Ok(*i as usize)
            } else {
                let mut m: Vec<char> = Vec::new();
                push_str(&mut m, "índice ");
                push_int(&mut m, *i);
                push_str(&mut m, " fuera de rango para un array de longitud ");
                push_nat(&mut m, elements.len() as u64);
                push_str(&mut m, ". Los índices empiezan en 0.");
                assert(m@ =~= "índice "@ + int_text(*i as int) + " fuera de rango para un array de longitud "@
                    + nat_digits(elements@.len()) + ". Los índices empiezan en 0."@);
                Err(line_message(line, &m))
            }
        },
        _ => {
            let mut m: Vec<char> = Vec::new();
            push_str(&mut m, "se esperaba un array y un índice int.");
            assert(m@ =~= "se esperaba un array y un índice int."@);
            Err(line_message(line, &m))
        },
    }
}

fn undeclared(name: &Name) -> (r: String)
    ensures
        names_line(r@),
        r@ == unbound_message(*name),
{
    let mut m: Vec<char> = Vec::new();
    push_str(&mut m, "La variable '");
    push_chars(&mut m, &name.text);
    push_str(&mut m, "' no está declarada.");
    assert(m@ =~= "La variable '"@ + name.text@ + "' no está declarada."@);
    name.error_chars(&m)
}

fn lost_target(line: usize) -> (r: String)
    ensures
        names_line(r@),
        r@ == lost_message(line as nat),
{
    let mut m: Vec<char> = Vec::new();
    push_str(&mut m, "el destino quedó fuera de rango después de evaluar la expresión.");
    assert(m@ =~= "el destino quedó fuera de rango después de evaluar la expresión."@);
    line_message(line, &m)
}

fn out_of_steps(line: usize) -> (r: String)
    ensures
        names_line(r@),
        r@ == rounds_message(line as nat),
{
    let mut m: Vec<char> = Vec::new();
    push_str(&mut m, "el bucle superó el número máximo de vueltas.");
    assert(m@ =~= "el bucle superó el número máximo de vueltas."@);
    line_message(line, &m)
}

}
