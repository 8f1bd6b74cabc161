use vstd::prelude::*;

pub mod floats;
pub mod grammar;
pub mod interpreter;
pub mod lexing;
pub mod operators;
pub mod parser;
pub mod scanner;
pub mod semantics;
pub mod soundness;
pub mod stdlib;
pub mod text;
pub mod type_checker;
pub mod type_errors;
pub mod typing;
pub mod value;

use crate::floats::FloatArith;
use crate::grammar::{p_program, read_as, stmts_view, Parsed, Reading};
use crate::interpreter::{Interpreter, MAX_STEPS};
use crate::lexing::{scan, scan_error, TokenView};
use crate::parser::{Parser, Stmt};
use crate::scanner::Scanner;
use crate::semantics::{fresh_store, reports, run_stmts, Failure, Run};
use crate::soundness::{lemma_type_soundness, stmts_ready};
use crate::text::{names_line, push_chars};
use crate::type_checker::TypeChecker;
use crate::type_errors::program_error;
use crate::typing::program_checks;

verus! {

/// What running the statements of a program appends to an output that held `before`: a
/// program that the checker refuses prints nothing and fails with the checker's message (see
/// `program_error`); a checked one prints what
/// `run_stmts` prints, from a global scope without variables and with `MAX_STEPS` loop rounds,
/// and fails exactly when that run ends in an error, with the message of that error's failure
/// (see `reports`), never one that the checker rules out. A run that goes through float
/// arithmetic is the host's from there on; what it printed before that point stays.
pub open spec fn program_outcome(statements: Seq<Stmt>, r: Result<(), String>, before: Seq<char>, after: Seq<char>) -> bool {
    if !program_checks(statements) {
        r matches Err(e) && e@ == program_error(statements) && after == before
    } else {
        match run_stmts(fresh_store(), statements, MAX_STEPS as nat) {
            Run::Done(_, printed, _) => r is Ok && after == before + printed,
            Run::Error(printed, f) => r matches Err(e) && !(f is Unchecked) && reports(f, e@) && after == before
                + printed,
            Run::Open(printed) => (before + printed).is_prefix_of(after),
        }
    }
}

/// Runs are isolated: two runs of one program give the same result and append the same text,
/// whatever each output held before and whatever ran earlier. (A checked run that goes through
/// float arithmetic is left out: from that point on it is the host's.)
pub proof fn lemma_runs_are_isolated(
    statements: Seq<Stmt>,
    r1: Result<(), String>,
    before1: Seq<char>,
    after1: Seq<char>,
    r2: Result<(), String>,
    before2: Seq<char>,
    after2: Seq<char>,
)
    requires
        program_outcome(statements, r1, before1, after1),
        program_outcome(statements, r2, before2, after2),
        program_checks(statements) ==> !(run_stmts(fresh_store(), statements, MAX_STEPS as nat) is Open),
    ensures
        r1 is Ok <==> r2 is Ok,
        r1 matches Err(e1) ==> (r2 matches Err(e2) && e1@ == e2@),
        before1.is_prefix_of(after1) && before2.is_prefix_of(after2),
        after1.skip(before1.len() as int) == after2.skip(before2.len() as int),
{
    let printed: Seq<char> = if !program_checks(statements) {
        Seq::empty()
    } else {
        match run_stmts(fresh_store(), statements, MAX_STEPS as nat) {
            Run::Done(_, p, _) => p,
            Run::Error(p, _) => p,
            Run::Open(_) => Seq::empty(),
        }
    };
    assert(after1 == before1 + printed);
    assert(after2 == before2 + printed);
    assert(after1.skip(before1.len() as int) =~= printed);
    assert(after2.skip(before2.len() as int) =~= printed);
    assert(before1 =~= after1.subrange(0, before1.len() as int));
    assert(before2 =~= after2.subrange(0, before2.len() as int));
}

/// Runs a program: scans it (see `scan`), parses it (see `p_program`, with the host's reading
/// of each float literal), checks names and types
/// (see `program_checks`), and only then executes it (see `run_stmts`); what it runs meets
/// `stmts_ready`, so that type soundness (`lemma_type_soundness`) applies to it. What the program prints
/// is appended to `output`. A program refused before it runs prints nothing; a run-time error
/// keeps what was printed before it. Every error names its line (see `names_line`).
pub fn run<F: FloatArith>(source: &str, floats: &F, output: &mut Vec<char>) -> (r: Result<(), String>)
    ensures
        old(output)@.is_prefix_of(final(output)@),
        r matches Err(e) ==> names_line(e@),
        match scan(source@) {
            None => r matches Err(e) && e@ == scan_error(source@) && final(output)@ == old(output)@,
            Some(tokens) => exists|t: Seq<(TokenView, int, Reading)>| #[trigger] read_as(t, tokens) && match p_program(t, 0, Seq::empty()) {
                Parsed::Done(program, _) => exists|statements: Seq<Stmt>|
                    stmts_view(statements) == program && stmts_ready(statements) && program_outcome(
                        statements,
                        r,
                        old(output)@,
                        final(output)@,
                    ),
                Parsed::Failed(m) => r matches Err(e) && e@ == m && final(output)@ == old(output)@,
            },
        },
{
    proof {
        assert(old(output)@ =~= output@.subrange(0, old(output)@.len() as int));
    }
    let tokens = Scanner::new(source).scan_tokens()?;
    let mut parser = Parser::new(tokens, floats);
    let ghost t = parser.token_views();
    let parsed = parser.parse();
    proof {
        assert(read_as(t, scan(source@)->Some_0));
    }
    let statements = parsed?;
    TypeChecker::new().check(&statements)?;
    let mut interpreter = Interpreter::new(floats);
    let result = interpreter.interpret(&statements);
    let ghost before = output@;
    push_chars(output, interpreter.output());
    proof {
        assert(old(output)@ =~= output@.subrange(0, old(output)@.len() as int));
        match run_stmts(fresh_store(), statements@, MAX_STEPS as nat) {
            Run::Done(_, printed, _) => {
                assert(Seq::<char>::empty() + printed =~= printed);
            },
            Run::Error(printed, _) => {
                assert(Seq::<char>::empty() + printed =~= printed);
            },
            Run::Open(printed) => {
                assert(Seq::<char>::empty() + printed =~= printed);
                assert(before + printed =~= output@.subrange(0, (before.len() + printed.len()) as int));
            },
        }
        lemma_type_soundness(statements@, MAX_STEPS as nat);
        assert(program_outcome(statements@, result, before, output@));
    }
    result
}

}
