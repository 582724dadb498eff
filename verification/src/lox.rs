//! The façade that wires the passes together: resolve the program, and
//! only where the pass found nothing wrong, hand the binding table to the
//! evaluator and run. A host around it supplies the syntax tree and
//! renders the output and the errors.

use vstd::prelude::*;

use crate::ast::Stmt;
use crate::environment::FrameV;
use crate::errors::{ResolveError, RuntimeError};
use crate::interpreter::{interpret_s, Interpreter, St};
use crate::resolver::{errs_view, initial_resolver, resolve_stmts_s, Resolver};
use crate::value::Val;

verus! {

/// One interpreter session: the environment persists across runs, so a
/// host can feed a program piece by piece.
pub struct Lox {
    pub interpreter: Interpreter,
}

impl Lox {
    /// A fresh session around a fresh evaluator: one global frame holding
    /// the clock builtin, an empty binding table, no output, and a first
    /// host clock reading. Building a session reads the host clock, so two
    /// sessions need not be equal.
    pub fn new() -> (l: Lox)
        ensures
            l.interpreter.wf(),
            l.interpreter@.frames =~= seq![
                FrameV {
                    map: Map::<Seq<char>, Val>::empty().insert("clock"@, Val::Clock),
                    enclosing: None,
                },
            ],
            l.interpreter@.cur == 0,
            l.interpreter@.out =~= Seq::<Seq<char>>::empty(),
            l.interpreter.locals@ =~= Seq::<(u64, usize)>::empty(),
            l.interpreter@.clock >= 0,
    {
        Lox { interpreter: Interpreter::new() }
    }

    /// Runs a program: a fresh resolver pass first; where it reported
    /// anything, execution is skipped entirely and the resolver's errors
    /// come back. Otherwise the host clock is read once — the clock
    /// builtin returns that reading throughout this run — the pass's
    /// binding table drives evaluation, and the runtime errors of the run
    /// come back, one per failed top-level statement; an internal
    /// resolution fault is fatal and ends the list. Printed lines
    /// accumulate in the evaluator's output.
    pub fn run(&mut self, program: &Vec<Stmt>, fuel: u64) -> (r: Result<
        Vec<RuntimeError>,
        Vec<ResolveError>,
    >)
        requires
            old(self).interpreter.wf(),
        ensures
            final(self).interpreter.wf(),
            ({
                let resolved = resolve_stmts_s(initial_resolver(), program@);
                match r {
                    Err(res_errs) => resolved.errs.len() > 0 && errs_view(res_errs@)
                        == resolved.errs && final(self).interpreter@ == old(self).interpreter@
                        && final(self).interpreter.locals@ == old(self).interpreter.locals@,
                    Ok(run_errs) => resolved.errs.len() == 0 && final(self).interpreter.locals@
                        == resolved.binds && final(self).interpreter@.clock >= 0 && ({
                        let entry = St {
                            clock: final(self).interpreter@.clock,
                            ..old(self).interpreter@
                        };
                        let (st1, errs) = interpret_s(entry, program@, resolved.binds, fuel as nat);
                        final(self).interpreter@ == st1
                            && crate::interpreter::rt_errs_view(run_errs@) == errs
                    }),
                }
            }),
    {
        let mut resolver = Resolver::new();
        resolver.resolve_stmts(program);
        if resolver.errors.len() > 0 {
            return Err(resolver.errors);
        }
        self.interpreter.resolve(resolver.locals);
        self.interpreter.refresh_clock();
        let run_errs = self.interpreter.interpret(program, fuel);
        Ok(run_errs)
    }

    /// The lines printed so far, in order.
    pub fn output(&self) -> (out: &Vec<String>)
        ensures
            crate::interpreter::out_view(out@) == self.interpreter@.out,
    {
        &self.interpreter.output
    }
}

} // verus!
